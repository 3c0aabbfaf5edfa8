//! Starting a child process, as a sequence of steps. Each step says what the
//! program around the library has to do next, and takes what came of it.

use vstd::prelude::*;

use crate::bytes;
use crate::environment;
use crate::environment::{EnvVar, Environment};
use crate::exec;
use crate::exec::ChildStep;
use crate::stdio;
use crate::stdio::{
    OpenRequest, Opened, PandoraStdioReadMode, PandoraStdioWriteMode, Stream, Streams,
};

verus! {

/// A process to start.
pub struct PandoraCommand<F> {
    /// A path, where it holds a slash, else the name of a command.
    pub executable: Vec<u8>,
    /// The arguments after the program's name.
    pub args: Vec<Vec<u8>>,
    /// The variables set for the process.
    pub env: Environment,
    /// Which other variables the process gets. Without it, all of them.
    pub inherit_env: Option<F>,
    /// Descriptors that stay open in the process.
    pub pass_fds: Vec<i32>,
    pub stdin: PandoraStdioWriteMode,
    pub stdout: PandoraStdioReadMode,
    pub stderr: PandoraStdioReadMode,
}

/// A process that was started.
#[derive(Clone, Copy, Debug, PartialEq, Eq, Structural)]
pub struct PandoraProcess {
    pub pid: i32,
}

/// A process that was started, with the parent's ends of its pipes.
#[derive(Clone, Copy, Debug, PartialEq, Eq, Structural)]
pub struct PandoraChild {
    pub process: PandoraProcess,
    pub stdin: Option<i32>,
    pub stdout: Option<i32>,
    pub stderr: Option<i32>,
}

/// How the executable is found.
#[derive(Clone, Copy, Debug, PartialEq, Eq, Structural)]
pub enum Lookup {
    /// As a path, which is made canonical.
    Path,
    /// As a command, which is searched for.
    Command,
}

/// Why a process was not started.
#[derive(Clone, Copy, Debug, PartialEq, Eq, Structural)]
pub enum SpawnError {
    /// There is no file at the executable's path.
    MissingExecutable,
    /// There is no command of the executable's name.
    UnknownCommand,
    /// An environment variable holds a NUL byte.
    NulInEnvironment,
    /// The program's path holds a NUL byte.
    NulInProgram,
    /// An argument holds a NUL byte.
    NulInArgument,
    /// The system refused something, with this error number.
    Os(i32),
}

/// The kinds of errors that a caller tells apart.
#[derive(Clone, Copy, Debug, PartialEq, Eq, Structural)]
pub enum SpawnErrorKind {
    NotFound,
    InvalidData,
    Os,
}

impl SpawnError {
    /// The error's kind.
    pub fn kind(&self) -> (kind: SpawnErrorKind)
        ensures
            kind == match *self {
                SpawnError::MissingExecutable => SpawnErrorKind::NotFound,
                SpawnError::UnknownCommand => SpawnErrorKind::NotFound,
                SpawnError::NulInEnvironment => SpawnErrorKind::InvalidData,
                SpawnError::NulInProgram => SpawnErrorKind::InvalidData,
                SpawnError::NulInArgument => SpawnErrorKind::InvalidData,
                SpawnError::Os(_) => SpawnErrorKind::Os,
            },
    {
        match self {
            SpawnError::MissingExecutable | SpawnError::UnknownCommand => SpawnErrorKind::NotFound,
            SpawnError::Os(_) => SpawnErrorKind::Os,
            _ => SpawnErrorKind::InvalidData,
        }
    }

    /// What the error says. The system's own errors have their own words.
    pub fn message(&self) -> (message: Option<&'static str>)
        ensures
            match *self {
                SpawnError::MissingExecutable => message matches Some(m) && m@
                    == "executable file doesn't exist"@,
                SpawnError::UnknownCommand => message matches Some(m) && m@
                    == "unable to resolve executable"@,
                SpawnError::NulInEnvironment => message matches Some(m) && m@
                    == "environment variable contained null byte"@,
                SpawnError::NulInProgram => message matches Some(m) && m@
                    == "program contained null byte"@,
                SpawnError::NulInArgument => message matches Some(m) && m@
                    == "arg contained null byte"@,
                SpawnError::Os(_) => message is None,
            },
    {
        match self {
            SpawnError::MissingExecutable => Some("executable file doesn't exist"),
            SpawnError::UnknownCommand => Some("unable to resolve executable"),
            SpawnError::NulInEnvironment => Some("environment variable contained null byte"),
            SpawnError::NulInProgram => Some("program contained null byte"),
            SpawnError::NulInArgument => Some("arg contained null byte"),
            SpawnError::Os(_) => None,
        }
    }
}

/// What the forked child needs. It is complete before the fork, so that the
/// child allocates nothing.
pub struct ChildPlan {
    /// The arguments, the program's path first.
    pub argv: Vec<Vec<u8>>,
    /// The environment, as `name=value` entries.
    pub environ: Vec<Vec<u8>>,
    /// What the child does.
    pub steps: Vec<ChildStep>,
}

/// What is to be done next.
pub enum SpawnAction {
    /// Make the path canonical.
    Canonicalize(Vec<u8>),
    /// Search for the command.
    Search(Vec<u8>),
    /// Read this process's environment variables.
    ReadEnvironment,
    /// Open the null device for reading and writing.
    OpenNull,
    /// Open a pipe.
    OpenPipe,
    /// Fork, and have the child carry out the plan.
    Fork(ChildPlan),
    /// Close the descriptors, which are those that only the child uses and the
    /// passed ones. The process runs.
    Finish { close: Vec<i32>, child: PandoraChild },
    /// Close the descriptors, which are all that were opened and the passed
    /// ones. The process was not started.
    Fail { error: SpawnError, close: Vec<i32> },
}

/// What came of the last action.
pub enum SpawnEvent {
    /// The canonical path or the command's path, where there is one.
    Resolved(Option<Vec<u8>>),
    /// This process's environment variables.
    Environment(Vec<EnvVar>),
    /// What was opened.
    Opened(Opened),
    /// The system refused, with this error number.
    Refused(i32),
    /// The child's process number, in the parent.
    Forked(i32),
}

/// A command once its executable has been given away to be found.
pub struct Launch<F> {
    pub args: Vec<Vec<u8>>,
    pub env: Environment,
    pub inherit_env: Option<F>,
    pub pass_fds: Vec<i32>,
    pub streams: Streams,
}

/// A command whose program and environment are settled.
pub struct Prepared {
    pub program: Vec<u8>,
    pub environ: Vec<Vec<u8>>,
    pub args: Vec<Vec<u8>>,
    pub pass_fds: Vec<i32>,
    pub streams: Streams,
}

/// The contents of a prepared command.
pub struct Preparation {
    pub program: Seq<u8>,
    pub environ: Seq<Seq<u8>>,
    pub args: Seq<Seq<u8>>,
    pub pass_fds: Seq<i32>,
    pub streams: Streams,
}

impl View for Prepared {
    type V = Preparation;

    open spec fn view(&self) -> Preparation {
        Preparation {
            program: self.program@,
            environ: bytes::contents(self.environ@),
            args: bytes::contents(self.args@),
            pass_fds: self.pass_fds@,
            streams: self.streams,
        }
    }
}

/// How far the start of a process has come.
pub enum SpawnState<F> {
    /// The executable is being found.
    Resolving { lookup: Lookup, launch: Launch<F> },
    /// The environment is being read.
    Inheriting { program: Vec<u8>, launch: Launch<F> },
    /// The streams are being opened.
    Opening { prepared: Prepared, opened: Vec<Opened> },
    /// The process is being forked.
    Forking { pass_fds: Vec<i32>, streams: Streams, opened: Vec<Opened> },
    /// The process was started, or it was given up.
    Ended,
}

/// Some argument holds a NUL byte.
pub open spec fn some_has_nul(args: Seq<Seq<u8>>) -> bool {
    exists|i: int| 0 <= i < args.len() && (#[trigger] args[i]).contains(bytes::NUL)
}

/// How an executable of this name is found: one with a slash is a path.
pub open spec fn lookup_of(executable: Seq<u8>) -> Lookup {
    if executable.contains(bytes::SLASH) {
        Lookup::Path
    } else {
        Lookup::Command
    }
}

/// The error where nothing was found.
pub open spec fn not_found(lookup: Lookup) -> SpawnError {
    match lookup {
        Lookup::Path => SpawnError::MissingExecutable,
        Lookup::Command => SpawnError::UnknownCommand,
    }
}

/// The start of a process, between two actions.
pub struct Spawn<F: Fn(&Vec<u8>) -> bool> {
    state: SpawnState<F>,
}

impl<F: Fn(&Vec<u8>) -> bool> View for Spawn<F> {
    type V = SpawnState<F>;

    closed spec fn view(&self) -> SpawnState<F> {
        self.state
    }
}

/// It is given up: the error is reported, and the descriptors are closed.
pub open spec fn gives_up<F>(
    next: SpawnState<F>,
    action: SpawnAction,
    error: SpawnError,
    close: Seq<i32>,
) -> bool {
    &&& next is Ended
    &&& action matches SpawnAction::Fail { error: reported, close: closed }
    &&& reported == error
    &&& closed@ == close
}

/// What follows once `opened` have been opened: the next thing is opened, or,
/// when there is none, the process is forked. An argument with a NUL byte is
/// found only then.
pub open spec fn goes_on_opening<F>(
    preparation: Preparation,
    opened: Seq<Opened>,
    next: SpawnState<F>,
    action: SpawnAction,
) -> bool {
    let requests = preparation.streams.requests();
    if opened.len() < requests.len() {
        &&& next matches SpawnState::Opening { prepared: p, opened: o }
        &&& p@ == preparation
        &&& o@ == opened
        &&& match requests[opened.len() as int] {
            OpenRequest::Null => action is OpenNull,
            OpenRequest::Pipe(_) => action is OpenPipe,
        }
    } else if some_has_nul(preparation.args) {
        gives_up(
            next,
            action,
            SpawnError::NulInArgument,
            stdio::all_ends(opened) + preparation.pass_fds,
        )
    } else {
        let wiring = preparation.streams.wiring(opened);
        &&& next matches SpawnState::Forking { pass_fds, streams, opened: o }
        &&& pass_fds@ == preparation.pass_fds
        &&& streams == preparation.streams
        &&& o@ == opened
        &&& action matches SpawnAction::Fork(plan)
        &&& bytes::contents(plan.argv@) == seq![preparation.program] + preparation.args
        &&& bytes::contents(plan.environ@) == preparation.environ
        &&& plan.steps@ == exec::exec_steps(
            wiring.stdin_read,
            wiring.stdout_write,
            wiring.stderr_write,
            preparation.pass_fds,
        )
    }
}

/// What follows once the child's environment is `env`: a NUL byte in it or in
/// the program's path ends the start, else the streams are opened.
pub open spec fn goes_on_with_environment<F>(
    program: Seq<u8>,
    env: Seq<(Seq<u8>, Seq<u8>)>,
    launch: Launch<F>,
    next: SpawnState<F>,
    action: SpawnAction,
) -> bool {
    if environment::has_nul(env) {
        gives_up(next, action, SpawnError::NulInEnvironment, launch.pass_fds@)
    } else if program.contains(bytes::NUL) {
        gives_up(next, action, SpawnError::NulInProgram, launch.pass_fds@)
    } else {
        goes_on_opening(
            Preparation {
                program,
                environ: environment::assignments(env),
                args: bytes::contents(launch.args@),
                pass_fds: launch.pass_fds@,
                streams: launch.streams,
            },
            seq![],
            next,
            action,
        )
    }
}

/// What follows once `vars` are known to be this process's variables: they are
/// offered to the child's environment.
pub open spec fn goes_on_inheriting<F: Fn(&Vec<u8>) -> bool>(
    program: Seq<u8>,
    launch: Launch<F>,
    vars: Seq<EnvVar>,
    next: SpawnState<F>,
    action: SpawnAction,
) -> bool {
    exists|accepted: Seq<bool>|
        #![trigger environment::inherited(launch.env@, environment::pairs(vars), accepted)]
        environment::answered_by(launch.inherit_env, launch.env@, vars, accepted)
            && goes_on_with_environment(
            program,
            environment::inherited(launch.env@, environment::pairs(vars), accepted),
            launch,
            next,
            action,
        )
}

/// What a state and an event lead to.
pub open spec fn leads_to<F: Fn(&Vec<u8>) -> bool>(
    state: SpawnState<F>,
    event: SpawnEvent,
    next: SpawnState<F>,
    action: SpawnAction,
) -> bool {
    match (state, event) {
        (SpawnState::Resolving { lookup, launch }, SpawnEvent::Resolved(None)) => gives_up(
            next,
            action,
            not_found(lookup),
            launch.pass_fds@,
        ),
        (SpawnState::Resolving { lookup, launch }, SpawnEvent::Resolved(Some(path))) => {
            &&& next == (SpawnState::Inheriting { program: path, launch })
            &&& action is ReadEnvironment
        },
        (SpawnState::Inheriting { program, launch }, SpawnEvent::Environment(vars)) => goes_on_inheriting(
            program@,
            launch,
            vars@,
            next,
            action,
        ),
        (SpawnState::Opening { prepared, opened }, SpawnEvent::Opened(new)) => goes_on_opening(
            prepared@,
            opened@.push(new),
            next,
            action,
        ),
        (SpawnState::Opening { prepared, opened }, SpawnEvent::Refused(code)) => gives_up(
            next,
            action,
            SpawnError::Os(code),
            stdio::all_ends(opened@) + prepared.pass_fds@,
        ),
        (SpawnState::Forking { pass_fds, streams, opened }, SpawnEvent::Forked(pid)) => {
            let wiring = streams.wiring(opened@);
            &&& next is Ended
            &&& action matches SpawnAction::Finish { close, child }
            &&& close@ == stdio::child_ends(streams.requests(), opened@) + pass_fds@
            &&& child == PandoraChild {
                process: PandoraProcess { pid },
                stdin: wiring.stdin_write,
                stdout: wiring.stdout_read,
                stderr: wiring.stderr_read,
            }
        },
        (SpawnState::Forking { pass_fds, opened, .. }, SpawnEvent::Refused(code)) => gives_up(
            next,
            action,
            SpawnError::Os(code),
            stdio::all_ends(opened@) + pass_fds@,
        ),
        _ => false,
    }
}

/// Whether the event answers what the state waits for.
pub open spec fn waits_for<F>(state: SpawnState<F>, event: SpawnEvent) -> bool {
    match (state, event) {
        (SpawnState::Resolving { .. }, SpawnEvent::Resolved(_)) => true,
        (SpawnState::Inheriting { .. }, SpawnEvent::Environment(_)) => true,
        (SpawnState::Opening { prepared, opened }, SpawnEvent::Opened(new)) => stdio::answers(
            prepared.streams.requests()[opened@.len() as int],
            new,
        ),
        (SpawnState::Opening { .. }, SpawnEvent::Refused(_)) => true,
        (SpawnState::Forking { .. }, SpawnEvent::Forked(pid)) => pid > 0,
        (SpawnState::Forking { .. }, SpawnEvent::Refused(_)) => true,
        _ => false,
    }
}

/// The command without its executable.
pub open spec fn launch_of<F>(command: PandoraCommand<F>) -> Launch<F> {
    Launch {
        args: command.args,
        env: command.env,
        inherit_env: command.inherit_env,
        pass_fds: command.pass_fds,
        streams: Streams {
            stdin: command.stdin,
            stdout: command.stdout,
            stderr: command.stderr,
        },
    }
}

/// The first state and action for a command.
pub open spec fn starts_with<F>(
    command: PandoraCommand<F>,
    state: SpawnState<F>,
    action: SpawnAction,
) -> bool {
    let lookup = lookup_of(command.executable@);
    &&& state == (SpawnState::Resolving { lookup, launch: launch_of(command) })
    &&& match lookup {
        Lookup::Path => action == SpawnAction::Canonicalize(command.executable),
        Lookup::Command => action == SpawnAction::Search(command.executable),
    }
}

/// Starts a process: the executable is to be found first, as a path where its
/// name holds a slash, else as a command.
pub fn spawn<F: Fn(&Vec<u8>) -> bool>(command: PandoraCommand<F>) -> (started: (
    Spawn<F>,
    SpawnAction,
))
    requires
        environment::can_be_asked(command.inherit_env),
    ensures
        starts_with(command, started.0@, started.1),
        (exists|i: int| 0 <= i < command.executable@.len() && command.executable@[i] == bytes::SLASH)
            ==> started.1 == SpawnAction::Canonicalize(command.executable),
        (forall|i: int| 0 <= i < command.executable@.len() ==> command.executable@[i] != bytes::SLASH)
            ==> started.1 == SpawnAction::Search(command.executable),
{
    let PandoraCommand { executable, args, env, inherit_env, pass_fds, stdin, stdout, stderr } =
        command;
    let launch = Launch {
        args,
        env,
        inherit_env,
        pass_fds,
        streams: Streams { stdin, stdout, stderr },
    };
    if bytes::contains_byte(&executable, bytes::SLASH) {
        (
            Spawn { state: SpawnState::Resolving { lookup: Lookup::Path, launch } },
            SpawnAction::Canonicalize(executable),
        )
    } else {
        (
            Spawn { state: SpawnState::Resolving { lookup: Lookup::Command, launch } },
            SpawnAction::Search(executable),
        )
    }
}

/// Whether some argument holds a NUL byte.
fn any_has_nul(args: &Vec<Vec<u8>>) -> (found: bool)
    ensures
        found == some_has_nul(bytes::contents(args@)),
{
    let mut i: usize = 0;
    while i < args.len()
        invariant
            i <= args@.len(),
            forall|j: int| 0 <= j < i ==> !(#[trigger] args@[j])@.contains(bytes::NUL),
        decreases args@.len() - i,
    {
        if bytes::contains_byte(&args[i], bytes::NUL) {
            assert(bytes::contents(args@)[i as int].contains(bytes::NUL));
            return true;
        }
        i += 1;
    }
    assert forall|j: int| 0 <= j < bytes::contents(args@).len() implies !(
    #[trigger] bytes::contents(args@)[j]).contains(bytes::NUL) by {
        assert(!args@[j]@.contains(bytes::NUL));
    }
    false
}

impl<F: Fn(&Vec<u8>) -> bool> Spawn<F> {
    #[verifier::type_invariant]
    closed spec fn valid(&self) -> bool {
        match self.state {
            SpawnState::Resolving { launch, .. } => environment::can_be_asked(launch.inherit_env),
            SpawnState::Inheriting { launch, .. } => environment::can_be_asked(launch.inherit_env),
            SpawnState::Opening { prepared, opened } => {
                &&& opened@.len() < prepared.streams.requests().len()
                &&& stdio::are_answered(prepared.streams.requests(), opened@)
            },
            SpawnState::Forking { streams, opened, .. } => opened@.len()
                == streams.requests().len(),
            SpawnState::Ended => true,
        }
    }

    /// Whether the event answers what is waited for.
    pub fn expects(&self, event: &SpawnEvent) -> (expected: bool)
        ensures
            expected == waits_for(self@, *event),
    {
        proof {
            use_type_invariant(self);
        }
        match (&self.state, event) {
            (SpawnState::Resolving { .. }, SpawnEvent::Resolved(_)) => true,
            (SpawnState::Inheriting { .. }, SpawnEvent::Environment(_)) => true,
            (SpawnState::Opening { prepared, opened }, SpawnEvent::Opened(new)) => {
                let requests = prepared.streams.open_requests();
                match (requests[opened.len()], new) {
                    (OpenRequest::Null, Opened::Null(_)) => true,
                    (OpenRequest::Pipe(_), Opened::Pipe { .. }) => true,
                    _ => false,
                }
            },
            (SpawnState::Opening { .. }, SpawnEvent::Refused(_)) => true,
            (SpawnState::Forking { .. }, SpawnEvent::Forked(pid)) => *pid > 0,
            (SpawnState::Forking { .. }, SpawnEvent::Refused(_)) => true,
            _ => false,
        }
    }

    /// Gives the start up.
    fn give_up(error: SpawnError, close: Vec<i32>) -> (next: (Spawn<F>, SpawnAction))
        ensures
            gives_up(next.0@, next.1, error, close@),
    {
        (Spawn { state: SpawnState::Ended }, SpawnAction::Fail { error, close })
    }

    /// Gives the start up after something was opened.
    fn give_up_opened(error: SpawnError, opened: &Vec<Opened>, pass_fds: Vec<i32>) -> (next: (
        Spawn<F>,
        SpawnAction,
    ))
        ensures
            gives_up(next.0@, next.1, error, stdio::all_ends(opened@) + pass_fds@),
    {
        let mut close = stdio::list_ends(opened);
        let mut pass_fds = pass_fds;
        close.append(&mut pass_fds);
        Self::give_up(error, close)
    }

    /// Opens the next stream, or forks when all are open.
    fn go_on_opening(prepared: Prepared, opened: Vec<Opened>) -> (next: (Spawn<F>, SpawnAction))
        requires
            opened@.len() <= prepared.streams.requests().len(),
            stdio::are_answered(prepared.streams.requests(), opened@),
        ensures
            goes_on_opening(prepared@, opened@, next.0@, next.1),
    {
        let requests = prepared.streams.open_requests();
        if opened.len() < requests.len() {
            let action = match requests[opened.len()] {
                OpenRequest::Null => SpawnAction::OpenNull,
                OpenRequest::Pipe(_) => SpawnAction::OpenPipe,
            };
            return (Spawn { state: SpawnState::Opening { prepared, opened } }, action);
        }
        let ghost preparation = prepared@;
        let Prepared { program, environ, args, pass_fds, streams } = prepared;
        if any_has_nul(&args) {
            return Self::give_up_opened(SpawnError::NulInArgument, &opened, pass_fds);
        }
        let wiring = streams.wire(&opened);
        let steps = exec::exec(
            wiring.stdin_read,
            wiring.stdout_write,
            wiring.stderr_write,
            &pass_fds,
        );
        let ghost rest = args@;
        let mut args = args;
        let mut argv: Vec<Vec<u8>> = Vec::new();
        argv.push(program);
        argv.append(&mut args);
        assert(bytes::contents(argv@) =~= seq![program@] + bytes::contents(rest));
        (
            Spawn { state: SpawnState::Forking { pass_fds, streams, opened } },
            SpawnAction::Fork(ChildPlan { argv, environ, steps }),
        )
    }

    /// Settles the child's environment, and goes on to the streams.
    fn go_on_with_environment(program: Vec<u8>, launch: Launch<F>, vars: Vec<EnvVar>) -> (next: (
        Spawn<F>,
        SpawnAction,
    ))
        requires
            environment::can_be_asked(launch.inherit_env),
        ensures
            goes_on_inheriting(program@, launch, vars@, next.0@, next.1),
    {
        let Launch { args, env, inherit_env, pass_fds, streams } = launch;
        let mut env = env;
        env.inherit(vars, &inherit_env);
        let ghost accepted = choose|accepted: Seq<bool>|
            #![trigger environment::inherited(launch.env@, environment::pairs(vars@), accepted)]
            environment::answered_by(launch.inherit_env, launch.env@, vars@, accepted) && env@
                == environment::inherited(launch.env@, environment::pairs(vars@), accepted);
        let next = match env.to_assignments() {
            None => Self::give_up(SpawnError::NulInEnvironment, pass_fds),
            Some(environ) => {
                if bytes::contains_byte(&program, bytes::NUL) {
                    Self::give_up(SpawnError::NulInProgram, pass_fds)
                } else {
                    let prepared = Prepared { program, environ, args, pass_fds, streams };
                    let opened: Vec<Opened> = Vec::new();
                    assert(opened@ =~= seq![]);
                    Self::go_on_opening(prepared, opened)
                }
            },
        };
        assert(goes_on_with_environment(
            program@,
            environment::inherited(launch.env@, environment::pairs(vars@), accepted),
            launch,
            next.0@,
            next.1,
        ));
        next
    }

    /// Takes what came of the last action, and says what to do next.
    pub fn step(self, event: SpawnEvent) -> (next: (Spawn<F>, SpawnAction))
        requires
            waits_for(self@, event),
        ensures
            leads_to(self@, event, next.0@, next.1),
    {
        proof {
            use_type_invariant(&self);
        }
        match (self.state, event) {
            (SpawnState::Resolving { lookup, launch }, SpawnEvent::Resolved(found)) => {
                match found {
                    Some(program) => (
                        Spawn { state: SpawnState::Inheriting { program, launch } },
                        SpawnAction::ReadEnvironment,
                    ),
                    None => {
                        let error = match lookup {
                            Lookup::Path => SpawnError::MissingExecutable,
                            Lookup::Command => SpawnError::UnknownCommand,
                        };
                        Self::give_up(error, launch.pass_fds)
                    },
                }
            },
            (SpawnState::Inheriting { program, launch }, SpawnEvent::Environment(vars)) => {
                Self::go_on_with_environment(program, launch, vars)
            },
            (SpawnState::Opening { prepared, opened }, SpawnEvent::Opened(new)) => {
                let mut opened = opened;
                opened.push(new);
                Self::go_on_opening(prepared, opened)
            },
            (SpawnState::Opening { prepared, opened }, SpawnEvent::Refused(code)) => {
                Self::give_up_opened(SpawnError::Os(code), &opened, prepared.pass_fds)
            },
            (SpawnState::Forking { pass_fds, streams, opened }, SpawnEvent::Forked(pid)) => {
                let requests = streams.open_requests();
                let wiring = streams.wire(&opened);
                let mut close = stdio::list_child_ends(&requests, &opened);
                let mut pass_fds = pass_fds;
                close.append(&mut pass_fds);
                let child = PandoraChild {
                    process: PandoraProcess { pid },
                    stdin: wiring.stdin_write,
                    stdout: wiring.stdout_read,
                    stderr: wiring.stderr_read,
                };
                (Spawn { state: SpawnState::Ended }, SpawnAction::Finish { close, child })
            },
            (SpawnState::Forking { pass_fds, opened, .. }, SpawnEvent::Refused(code)) => {
                Self::give_up_opened(SpawnError::Os(code), &opened, pass_fds)
            },
            (state, _) => {
                assert(false);
                (Spawn { state: SpawnState::Ended }, SpawnAction::ReadEnvironment)
            },
        }
    }
}

/// How many steps can still follow.
pub open spec fn steps_left<F>(state: SpawnState<F>) -> int {
    match state {
        SpawnState::Resolving { .. } => 6,
        SpawnState::Inheriting { .. } => 5,
        SpawnState::Opening { prepared, opened } => 1 + prepared.streams.requests().len()
            - opened@.len(),
        SpawnState::Forking { .. } => 1,
        SpawnState::Ended => 0,
    }
}

/// Every step brings the start of a process nearer to its end, which is where
/// it finishes or fails.
pub proof fn law_every_step_advances<F: Fn(&Vec<u8>) -> bool>(
    state: SpawnState<F>,
    event: SpawnEvent,
    next: SpawnState<F>,
    action: SpawnAction,
)
    requires
        state matches SpawnState::Opening { prepared, opened } ==> opened@.len()
            < prepared.streams.requests().len(),
        waits_for(state, event),
        leads_to(state, event, next, action),
    ensures
        0 <= steps_left(next) < steps_left(state) <= 6,
        next is Ended <==> action is Finish || action is Fail,
        next is Forking <==> action is Fork,
{
    match state {
        SpawnState::Inheriting { launch, .. } => {
            stdio::law_what_is_opened(launch.streams);
        },
        SpawnState::Opening { prepared, .. } => {
            stdio::law_what_is_opened(prepared.streams);
        },
        _ => {},
    }
}

/// A start of `command`: `events[i]` is what came of `actions[i]`, and leads
/// from `states[i]` to the next state and action.
pub open spec fn is_run<F: Fn(&Vec<u8>) -> bool>(
    command: PandoraCommand<F>,
    states: Seq<SpawnState<F>>,
    events: Seq<SpawnEvent>,
    actions: Seq<SpawnAction>,
) -> bool {
    &&& states.len() == events.len() + 1
    &&& actions.len() == events.len() + 1
    &&& starts_with(command, states[0], actions[0])
    &&& forall|i: int|
        0 <= i < events.len() ==> waits_for(states[i], #[trigger] events[i]) && leads_to(
            states[i],
            events[i],
            states[i + 1],
            actions[i + 1],
        )
}

/// What the events from the third on say was opened.
pub open spec fn opened_in(events: Seq<SpawnEvent>, end: int) -> Seq<Opened> {
    Seq::new((end - 2) as nat, |i: int| events[i + 2]->Opened_0)
}

/// What `command` is once its path and environment are known.
pub open spec fn preparation_of<F>(
    command: PandoraCommand<F>,
    program: Seq<u8>,
    env: Seq<(Seq<u8>, Seq<u8>)>,
) -> Preparation {
    Preparation {
        program,
        environ: environment::assignments(env),
        args: bytes::contents(command.args@),
        pass_fds: command.pass_fds@,
        streams: launch_of(command).streams,
    }
}

/// From the third action on, a start that comes to a fork opens one stream
/// after the other.
proof fn lemma_opening_run<F: Fn(&Vec<u8>) -> bool>(
    command: PandoraCommand<F>,
    states: Seq<SpawnState<F>>,
    events: Seq<SpawnEvent>,
    actions: Seq<SpawnAction>,
    preparation: Preparation,
    k: int,
)
    requires
        is_run(command, states, events, actions),
        actions.last() is Fork,
        2 <= k <= events.len(),
        forall|i: int| 2 <= i < k ==> #[trigger] events[i] is Opened,
        goes_on_opening(preparation, opened_in(events, k), states[k], actions[k]),
    ensures
        forall|i: int| 2 <= i < events.len() ==> #[trigger] events[i] is Opened,
        goes_on_opening(
            preparation,
            opened_in(events, events.len() as int),
            states.last(),
            actions.last(),
        ),
    decreases events.len() - k,
{
    if k < events.len() {
        let event = events[k];
        assert(waits_for(states[k], event));
        if event is Opened {
            assert(opened_in(events, k).push(event->Opened_0) =~= opened_in(events, k + 1));
            lemma_opening_run(command, states, events, actions, preparation, k + 1);
        } else {
            assert(states[k + 1] is Ended);
            if k + 1 < events.len() {
                assert(waits_for(states[k + 1], events[k + 1]));
            }
        }
    }
}

/// What a started process is: however the start went, a child is forked only
/// for a program that was found, with the command's arguments after the
/// program's path, with the environment made of the command's variables and the
/// accepted ones around it, and with its streams connected to what was opened
/// for them.
pub proof fn law_forked_child_is_what_was_asked<F: Fn(&Vec<u8>) -> bool>(
    command: PandoraCommand<F>,
    states: Seq<SpawnState<F>>,
    events: Seq<SpawnEvent>,
    actions: Seq<SpawnAction>,
)
    requires
        is_run(command, states, events, actions),
        actions.last() is Fork,
    ensures
        events.len() >= 2,
        events[0] matches SpawnEvent::Resolved(Some(path)) && events[1] matches
            SpawnEvent::Environment(vars) && exists|accepted: Seq<bool>|
            #![trigger environment::inherited(command.env@, environment::pairs(vars@), accepted)]
            {
                let env = environment::inherited(
                    command.env@,
                    environment::pairs(vars@),
                    accepted,
                );
                &&& environment::answered_by(command.inherit_env, command.env@, vars@, accepted)
                &&& !environment::has_nul(env)
                &&& !path@.contains(bytes::NUL)
                &&& goes_on_opening(
                    preparation_of(command, path@, env),
                    opened_in(events, events.len() as int),
                    states.last(),
                    actions.last(),
                )
            },
        forall|i: int| 2 <= i < events.len() ==> #[trigger] events[i] is Opened,
        !some_has_nul(bytes::contents(command.args@)),
        actions.last() matches SpawnAction::Fork(plan) && bytes::contents(plan.argv@).drop_first()
            == bytes::contents(command.args@),
{
    assert(events.len() > 0);
    assert(waits_for(states[0], events[0]));
    if events.len() == 1 {
        assert(actions[1] is Fork);
        assert(false);
    }
    assert(waits_for(states[1], events[1]));
    let launch = launch_of(command);
    let path = events[0]->Resolved_0->0;
    let vars = events[1]->Environment_0;
    assert(goes_on_inheriting(path@, launch, vars@, states[2], actions[2]));
    let accepted = choose|accepted: Seq<bool>|
        #![trigger environment::inherited(launch.env@, environment::pairs(vars@), accepted)]
        environment::answered_by(launch.inherit_env, launch.env@, vars@, accepted)
            && goes_on_with_environment(
            path@,
            environment::inherited(launch.env@, environment::pairs(vars@), accepted),
            launch,
            states[2],
            actions[2],
        );
    let env = environment::inherited(launch.env@, environment::pairs(vars@), accepted);
    if environment::has_nul(env) || path@.contains(bytes::NUL) {
        assert(states[2] is Ended);
        if events.len() > 2 {
            assert(waits_for(states[2], events[2]));
        }
        assert(false);
    }
    let preparation = preparation_of(command, path@, env);
    assert(opened_in(events, 2) =~= seq![]);
    lemma_opening_run(command, states, events, actions, preparation, 2);
    let argv = bytes::contents(actions.last()->Fork_0.argv@);
    assert(argv.drop_first() =~= bytes::contents(command.args@));
}

/// The parent's side of a started process: it gets the number the child was
/// forked with and its own ends of the pipes, and what only the child uses and
/// the passed descriptors are closed.
pub proof fn law_finished_parent_keeps_its_ends<F: Fn(&Vec<u8>) -> bool>(
    command: PandoraCommand<F>,
    states: Seq<SpawnState<F>>,
    events: Seq<SpawnEvent>,
    actions: Seq<SpawnAction>,
)
    requires
        is_run(command, states, events, actions),
        actions.last() is Finish,
    ensures
        events.len() >= 3,
        actions[events.len() - 1] is Fork,
        ({
            let streams = launch_of(command).streams;
            let opened = opened_in(events, events.len() - 1);
            let wiring = streams.wiring(opened);
            &&& events.last() matches SpawnEvent::Forked(pid)
            &&& actions.last() matches SpawnAction::Finish { close, child }
            &&& child.process.pid == pid
            &&& child.stdin == wiring.stdin_write
            &&& child.stdout == wiring.stdout_read
            &&& child.stderr == wiring.stderr_read
            &&& close@ == stdio::child_ends(streams.requests(), opened) + command.pass_fds@
        }),
{
    let n = events.len() as int;
    assert(n > 0);
    assert(waits_for(states[n - 1], events[n - 1]));
    assert(states[n - 1] is Forking);
    if n == 1 {
        assert(false);
    }
    assert(waits_for(states[n - 2], events[n - 2]));
    assert(actions[n - 1] is Fork);
    let fewer = events.drop_last();
    assert forall|i: int| 0 <= i < fewer.len() implies waits_for(
        states.drop_last()[i],
        #[trigger] fewer[i],
    ) && leads_to(
        states.drop_last()[i],
        fewer[i],
        states.drop_last()[i + 1],
        actions.drop_last()[i + 1],
    ) by {
        assert(fewer[i] == events[i]);
    }
    assert(is_run(command, states.drop_last(), fewer, actions.drop_last()));
    law_forked_child_is_what_was_asked(command, states.drop_last(), fewer, actions.drop_last());
    assert(opened_in(fewer, n - 1) =~= opened_in(events, n - 1));
}

/// No descriptor is forgotten when a process is started: of every pipe one end
/// is kept and the other is closed, and the null device is closed.
pub proof fn law_no_descriptor_is_forgotten(streams: Streams, opened: Seq<Opened>, i: int)
    requires
        opened.len() == streams.requests().len(),
        stdio::are_answered(streams.requests(), opened),
        0 <= i < opened.len(),
    ensures
        ({
            let wiring = streams.wiring(opened);
            let closed = stdio::child_ends(streams.requests(), opened);
            let kept = seq![wiring.stdin_write, wiring.stdout_read, wiring.stderr_read];
            match opened[i] {
                Opened::Null(fd) => closed.contains(fd),
                Opened::Pipe { read, write } => {
                    ||| closed.contains(read) && kept.contains(Some(write))
                    ||| closed.contains(write) && kept.contains(Some(read))
                },
            }
        }),
{
    let requests = streams.requests();
    let request = requests[i];
    let wiring = streams.wiring(opened);
    let closed = stdio::child_ends(requests, opened);
    let kept = seq![wiring.stdin_write, wiring.stdout_read, wiring.stderr_read];
    stdio::lemma_requests(streams);
    assert(requests.contains(request));
    assert(requests.index_of(request) == i);
    assert(stdio::answers(request, opened[i]));
    let (slot, stream): (int, Stream) = if streams.need(Stream::Stdin) == Some(request) {
        (0, Stream::Stdin)
    } else if streams.need(Stream::Stdout) == Some(request) {
        (1, Stream::Stdout)
    } else {
        (2, Stream::Stderr)
    };
    assert(streams.need(stream) == Some(request));
    assert(closed[i] == stdio::child_end(opened[i], stream));
    assert(kept[slot] == stdio::parent_end(opened[i], stream));
}

/// What has been opened after the event.
pub open spec fn opened_after<F>(state: SpawnState<F>, event: SpawnEvent) -> Seq<Opened> {
    match (state, event) {
        (SpawnState::Opening { opened, .. }, SpawnEvent::Opened(new)) => opened@.push(new),
        (SpawnState::Opening { opened, .. }, _) => opened@,
        (SpawnState::Forking { opened, .. }, _) => opened@,
        _ => seq![],
    }
}

/// The descriptors that stay open in the process.
pub open spec fn passed<F>(state: SpawnState<F>) -> Seq<i32> {
    match state {
        SpawnState::Resolving { launch, .. } => launch.pass_fds@,
        SpawnState::Inheriting { launch, .. } => launch.pass_fds@,
        SpawnState::Opening { prepared, .. } => prepared.pass_fds@,
        SpawnState::Forking { pass_fds, .. } => pass_fds@,
        SpawnState::Ended => seq![],
    }
}

/// No descriptor is forgotten when a process is not started either: all that
/// were opened are closed, each as often as it was given out, and the passed
/// ones after them.
pub proof fn law_failed_start_closes_everything<F: Fn(&Vec<u8>) -> bool>(
    state: SpawnState<F>,
    event: SpawnEvent,
    next: SpawnState<F>,
    action: SpawnAction,
)
    requires
        waits_for(state, event),
        leads_to(state, event, next, action),
    ensures
        action matches SpawnAction::Fail { close, .. } ==> {
            &&& close@ == stdio::all_ends(opened_after(state, event)) + passed(state)
            &&& forall|i: int, fd: i32|
                0 <= i < opened_after(state, event).len() && #[trigger] stdio::ends_of(
                    opened_after(state, event)[i],
                ).contains(fd) ==> close@.contains(fd)
        },
{
    if let SpawnAction::Fail { close, .. } = action {
        let opened = opened_after(state, event);
        assert(close@ =~= stdio::all_ends(opened) + passed(state));
        assert forall|i: int, fd: i32|
            0 <= i < opened.len() && #[trigger] stdio::ends_of(opened[i]).contains(
                fd,
            ) implies close@.contains(fd) by {
            stdio::lemma_all_ends(opened, i, fd);
            let k = stdio::all_ends(opened).index_of(fd);
            assert(close@[k] == fd);
        }
    }
}

/// How the executable is found is decided by its bytes: with a slash anywhere in
/// them it is a path, which is made canonical, and without one it is a command,
/// which is searched for. Where nothing is found, the error tells the two apart,
/// and the passed descriptors are closed.
pub proof fn law_a_slash_makes_a_path<F: Fn(&Vec<u8>) -> bool>(
    command: PandoraCommand<F>,
    state: SpawnState<F>,
    action: SpawnAction,
    next: SpawnState<F>,
    failure: SpawnAction,
)
    requires
        starts_with(command, state, action),
        leads_to(state, SpawnEvent::Resolved(None), next, failure),
    ensures
        (exists|i: int| 0 <= i < command.executable@.len() && command.executable@[i] == bytes::SLASH)
            ==> {
            &&& action == SpawnAction::Canonicalize(command.executable)
            &&& failure matches SpawnAction::Fail { error, close }
            &&& error == SpawnError::MissingExecutable
            &&& close@ == command.pass_fds@
        },
        (forall|i: int| 0 <= i < command.executable@.len() ==> command.executable@[i] != bytes::SLASH)
            ==> {
            &&& action == SpawnAction::Search(command.executable)
            &&& failure matches SpawnAction::Fail { error, close }
            &&& error == SpawnError::UnknownCommand
            &&& close@ == command.pass_fds@
        },
{
}

/// Once the executable is found, the environment is read, and nothing of the
/// command is lost: its arguments, variables, filter, descriptors and streams
/// are those that it was given.
pub proof fn law_nothing_of_the_command_is_lost<F: Fn(&Vec<u8>) -> bool>(
    command: PandoraCommand<F>,
    state: SpawnState<F>,
    action: SpawnAction,
    path: Vec<u8>,
    next: SpawnState<F>,
    reading: SpawnAction,
)
    requires
        starts_with(command, state, action),
        leads_to(state, SpawnEvent::Resolved(Some(path)), next, reading),
    ensures
        reading is ReadEnvironment,
        next matches SpawnState::Inheriting { program, launch } && program@ == path@ && launch.args
            == command.args && launch.env == command.env && launch.inherit_env
            == command.inherit_env && launch.pass_fds == command.pass_fds && launch.streams.stdin
            == command.stdin && launch.streams.stdout == command.stdout && launch.streams.stderr
            == command.stderr,
{
}

/// From the third action on, a start that comes to a fork opens what its streams
/// need, one thing after the other.
proof fn lemma_opening_is_answered<F: Fn(&Vec<u8>) -> bool>(
    command: PandoraCommand<F>,
    states: Seq<SpawnState<F>>,
    events: Seq<SpawnEvent>,
    actions: Seq<SpawnAction>,
    preparation: Preparation,
    k: int,
)
    requires
        is_run(command, states, events, actions),
        actions.last() is Fork,
        2 <= k <= events.len(),
        k - 2 <= preparation.streams.requests().len(),
        forall|i: int| 2 <= i < k ==> #[trigger] events[i] is Opened,
        stdio::are_answered(preparation.streams.requests(), opened_in(events, k)),
        goes_on_opening(preparation, opened_in(events, k), states[k], actions[k]),
        forall|i: int|
            0 <= i < k - 2 ==> match #[trigger] preparation.streams.requests()[i] {
                OpenRequest::Null => actions[i + 2] is OpenNull,
                OpenRequest::Pipe(_) => actions[i + 2] is OpenPipe,
            },
    ensures
        events.len() == 2 + preparation.streams.requests().len(),
        stdio::are_answered(
            preparation.streams.requests(),
            opened_in(events, events.len() as int),
        ),
        goes_on_opening(
            preparation,
            opened_in(events, events.len() as int),
            states.last(),
            actions.last(),
        ),
        forall|i: int|
            0 <= i < preparation.streams.requests().len()
                ==> match #[trigger] preparation.streams.requests()[i] {
                OpenRequest::Null => actions[i + 2] is OpenNull,
                OpenRequest::Pipe(_) => actions[i + 2] is OpenPipe,
            },
    decreases events.len() - k,
{
    let requests = preparation.streams.requests();
    let opened = opened_in(events, k);
    assert(opened.len() == k - 2);
    if k < events.len() {
        let event = events[k];
        assert(waits_for(states[k], event));
        if event is Opened {
            let more = opened_in(events, k + 1);
            assert(opened.push(event->Opened_0) =~= more);
            assert(states[k] is Opening);
            assert(opened.len() < requests.len());
            assert forall|i: int| 0 <= i < more.len() implies stdio::answers(
                requests[i],
                #[trigger] more[i],
            ) by {
                if i < opened.len() {
                    assert(more[i] == opened[i]);
                }
            }
            lemma_opening_is_answered(command, states, events, actions, preparation, k + 1);
        } else {
            assert(states[k + 1] is Ended);
            if k + 1 < events.len() {
                assert(waits_for(states[k + 1], events[k + 1]));
            }
        }
    }
}

/// What is handed to the forked child, in full. Its first argument is the path
/// that was found, and the command's arguments follow. Its environment is an
/// entry `name=value` for each variable that is set or inherited. Its steps are
/// those that connect its streams to what was opened for them, which is what
/// the streams need, opened in order. And nothing that it is handed holds a NUL
/// byte.
pub proof fn law_forked_child_in_full<F: Fn(&Vec<u8>) -> bool>(
    command: PandoraCommand<F>,
    states: Seq<SpawnState<F>>,
    events: Seq<SpawnEvent>,
    actions: Seq<SpawnAction>,
)
    requires
        is_run(command, states, events, actions),
        actions.last() is Fork,
    ensures
        ({
            let streams = Streams {
                stdin: command.stdin,
                stdout: command.stdout,
                stderr: command.stderr,
            };
            let opened = Seq::new((events.len() - 2) as nat, |i: int| events[i + 2]->Opened_0);
            let wiring = streams.wiring(opened);
            &&& events.len() == 2 + streams.requests().len()
            &&& forall|i: int| 2 <= i < events.len() ==> #[trigger] events[i] is Opened
            &&& stdio::are_answered(streams.requests(), opened)
            &&& forall|i: int|
                0 <= i < streams.requests().len() ==> match #[trigger] streams.requests()[i] {
                    OpenRequest::Null => actions[i + 2] is OpenNull,
                    OpenRequest::Pipe(_) => actions[i + 2] is OpenPipe,
                }
            &&& actions[1] is ReadEnvironment
            &&& events[0] matches SpawnEvent::Resolved(Some(path))
            &&& events[1] matches SpawnEvent::Environment(vars)
            &&& actions.last() matches SpawnAction::Fork(plan)
            &&& plan.argv@.len() == 1 + command.args@.len()
            &&& plan.argv@[0]@ == path@
            &&& forall|i: int|
                0 <= i < command.args@.len() ==> plan.argv@[i + 1]@ == (
                #[trigger] command.args@[i])@
            &&& forall|i: int|
                0 <= i < plan.argv@.len() ==> !(#[trigger] plan.argv@[i])@.contains(bytes::NUL)
            &&& plan.steps@ == exec::exec_steps(
                wiring.stdin_read,
                wiring.stdout_write,
                wiring.stderr_write,
                command.pass_fds@,
            )
            &&& exists|accepted: Seq<bool>|
                #![trigger environment::inherited(
                    command.env@,
                    environment::pairs(vars@),
                    accepted,
                )]
                {
                    let env = environment::inherited(
                        command.env@,
                        environment::pairs(vars@),
                        accepted,
                    );
                    &&& environment::answered_by(
                        command.inherit_env,
                        command.env@,
                        vars@,
                        accepted,
                    )
                    &&& plan.environ@.len() == env.len()
                    &&& forall|i: int|
                        0 <= i < env.len() ==> plan.environ@[i]@ == (#[trigger] env[i]).0
                            + seq![bytes::EQUALS] + env[i].1
                    &&& forall|i: int|
                        0 <= i < plan.environ@.len() ==> !(
                        #[trigger] plan.environ@[i])@.contains(bytes::NUL)
                }
        }),
{
    law_forked_child_is_what_was_asked(command, states, events, actions);
    let streams = launch_of(command).streams;
    let path = events[0]->Resolved_0->0;
    let vars = events[1]->Environment_0;
    assert(waits_for(states[0], events[0]));
    assert(waits_for(states[1], events[1]));
    let launch = launch_of(command);
    assert(goes_on_inheriting(path@, launch, vars@, states[2], actions[2]));
    let accepted = choose|accepted: Seq<bool>|
        #![trigger environment::inherited(launch.env@, environment::pairs(vars@), accepted)]
        environment::answered_by(launch.inherit_env, launch.env@, vars@, accepted)
            && goes_on_with_environment(
            path@,
            environment::inherited(launch.env@, environment::pairs(vars@), accepted),
            launch,
            states[2],
            actions[2],
        );
    let env = environment::inherited(launch.env@, environment::pairs(vars@), accepted);
    if environment::has_nul(env) || path@.contains(bytes::NUL) {
        assert(states[2] is Ended);
        if events.len() > 2 {
            assert(waits_for(states[2], events[2]));
        }
        assert(false);
    }
    let preparation = preparation_of(command, path@, env);
    assert(opened_in(events, 2) =~= seq![]);
    lemma_opening_is_answered(command, states, events, actions, preparation, 2);
    let opened = Seq::new((events.len() - 2) as nat, |i: int| events[i + 2]->Opened_0);
    assert(opened =~= opened_in(events, events.len() as int));
    let plan = actions.last()->Fork_0;
    let argv = bytes::contents(plan.argv@);
    let environ = bytes::contents(plan.environ@);
    assert(argv.len() == plan.argv@.len());
    assert(environ.len() == plan.environ@.len());
    assert(plan.argv@[0]@ == argv[0]);
    assert forall|i: int| 0 <= i < command.args@.len() implies plan.argv@[i + 1]@ == (
    #[trigger] command.args@[i])@ by {
        assert(argv[i + 1] == bytes::contents(command.args@)[i]);
    }
    assert forall|i: int| 0 <= i < plan.argv@.len() implies !(
    #[trigger] plan.argv@[i])@.contains(bytes::NUL) by {
        assert(plan.argv@[i]@ == argv[i]);
        if i > 0 {
            assert(argv[i] == bytes::contents(command.args@)[i - 1]);
        }
    }
    assert forall|i: int| 0 <= i < env.len() implies plan.environ@[i]@ == (#[trigger] env[i]).0
        + seq![bytes::EQUALS] + env[i].1 by {
        assert(plan.environ@[i]@ == environ[i]);
        assert(environ[i] == environment::assignment(env[i]));
        assert(environment::assignment(env[i]) =~= env[i].0 + seq![bytes::EQUALS] + env[i].1);
    }
    assert forall|i: int| 0 <= i < plan.environ@.len() implies !(
    #[trigger] plan.environ@[i])@.contains(bytes::NUL) by {
        assert(plan.environ@[i]@ == environ[i]);
        environment::law_assignments_hold_no_nul(env, i);
    }
}

/// Why a start fails: nothing was found, a NUL byte stands where none can, or
/// the system refused. Each error has its own cause, and what the system refuses
/// is always such an error, with the system's number.
pub proof fn law_each_error_has_its_cause<F: Fn(&Vec<u8>) -> bool>(
    state: SpawnState<F>,
    event: SpawnEvent,
    next: SpawnState<F>,
    action: SpawnAction,
)
    requires
        waits_for(state, event),
        leads_to(state, event, next, action),
    ensures
        event matches SpawnEvent::Refused(code) ==> (action matches SpawnAction::Fail {
            error: SpawnError::Os(reported),
            ..
        } && reported == code),
        event == SpawnEvent::Resolved(None) <==> (action matches SpawnAction::Fail { error, .. }
            && (error is MissingExecutable || error is UnknownCommand)),
        action matches SpawnAction::Fail { error, .. } ==> match error {
            SpawnError::MissingExecutable => state matches SpawnState::Resolving { lookup, .. }
                && lookup is Path,
            SpawnError::UnknownCommand => state matches SpawnState::Resolving { lookup, .. }
                && lookup is Command,
            SpawnError::NulInEnvironment => state is Inheriting,
            SpawnError::NulInProgram => state matches SpawnState::Inheriting { program, .. }
                && exists|i: int| 0 <= i < program@.len() && program@[i] == bytes::NUL,
            SpawnError::NulInArgument => {
                ||| state matches SpawnState::Inheriting { launch, .. } && exists|i: int, j: int|
                    0 <= i < launch.args@.len() && 0 <= j < launch.args@[i]@.len()
                        && #[trigger] launch.args@[i]@[j] == bytes::NUL
                ||| state matches SpawnState::Opening { prepared, .. } && exists|i: int, j: int|
                    0 <= i < prepared.args@.len() && 0 <= j < prepared.args@[i]@.len()
                        && #[trigger] prepared.args@[i]@[j] == bytes::NUL
            },
            SpawnError::Os(code) => event == SpawnEvent::Refused(code),
        },
{
    if let SpawnAction::Fail { error, .. } = action {
        if error is NulInArgument {
            match state {
                SpawnState::Inheriting { launch, .. } => {
                    lemma_some_has_nul(launch.args@);
                },
                SpawnState::Opening { prepared, .. } => {
                    lemma_some_has_nul(prepared.args@);
                },
                _ => {},
            }
        }
    }
}

/// Where some argument holds a NUL byte, it stands somewhere in it.
proof fn lemma_some_has_nul(args: Seq<Vec<u8>>)
    requires
        some_has_nul(bytes::contents(args)),
    ensures
        exists|i: int, j: int|
            0 <= i < args.len() && 0 <= j < args[i]@.len() && #[trigger] args[i]@[j] == bytes::NUL,
{
    let all = bytes::contents(args);
    let i = choose|i: int| 0 <= i < all.len() && (#[trigger] all[i]).contains(bytes::NUL);
    let j = choose|j: int| 0 <= j < all[i].len() && all[i][j] == bytes::NUL;
    assert(args[i]@[j] == bytes::NUL);
}

/// Without a NUL byte in it, a command whose program was found and for which
/// nothing is refused is always forked, and then runs.
pub proof fn law_a_sound_command_is_started<F: Fn(&Vec<u8>) -> bool>(
    state: SpawnState<F>,
    event: SpawnEvent,
    next: SpawnState<F>,
    action: SpawnAction,
)
    requires
        waits_for(state, event),
        leads_to(state, event, next, action),
        !(event is Refused),
    ensures
        state is Resolving && event != SpawnEvent::Resolved(None) ==> next is Inheriting,
        state matches SpawnState::Inheriting { program, launch } ==> event matches
            SpawnEvent::Environment(vars) ==> {
            ||| next is Opening || next is Forking
            ||| program@.contains(bytes::NUL)
            ||| exists|i: int| 0 <= i < launch.args@.len() && (
                #[trigger] launch.args@[i])@.contains(bytes::NUL)
            ||| exists|i: int|
                0 <= i < launch.env@.len() && ((#[trigger] launch.env@[i]).0.contains(bytes::NUL)
                    || launch.env@[i].1.contains(bytes::NUL))
            ||| exists|i: int|
                0 <= i < vars@.len() && ((#[trigger] vars@[i]).name@.contains(bytes::NUL)
                    || vars@[i].value@.contains(bytes::NUL))
        },
        state matches SpawnState::Opening { prepared, .. } ==> {
            ||| next is Opening || next is Forking
            ||| exists|i: int| 0 <= i < prepared.args@.len() && (
                #[trigger] prepared.args@[i])@.contains(bytes::NUL)
        },
        state is Forking ==> (action matches SpawnAction::Finish { child, .. }
            && event == SpawnEvent::Forked(child.process.pid)),
{
    match (state, event) {
        (SpawnState::Inheriting { program, launch }, SpawnEvent::Environment(vars)) => {
            if !(next is Opening || next is Forking) {
                let pairs = environment::pairs(vars@);
                let accepted = choose|accepted: Seq<bool>|
                    #![trigger environment::inherited(launch.env@, environment::pairs(vars@), accepted)]
                    environment::answered_by(launch.inherit_env, launch.env@, vars@, accepted)
                        && goes_on_with_environment(
                        program@,
                        environment::inherited(launch.env@, pairs, accepted),
                        launch,
                        next,
                        action,
                    );
                let env = environment::inherited(launch.env@, pairs, accepted);
                if environment::has_nul(env) {
                    let k = choose|k: int|
                        0 <= k < env.len() && ((#[trigger] env[k]).0.contains(bytes::NUL)
                            || env[k].1.contains(bytes::NUL));
                    environment::law_every_variable_has_a_source(launch.env@, pairs, accepted, k);
                    if exists|i: int| 0 <= i < launch.env@.len() && launch.env@[i] == env[k] {
                        let i = choose|i: int|
                            0 <= i < launch.env@.len() && launch.env@[i] == env[k];
                        assert(launch.env@[i].0.contains(bytes::NUL) || launch.env@[i].1.contains(
                            bytes::NUL,
                        ));
                    } else {
                        let i = choose|i: int| 0 <= i < pairs.len() && pairs[i] == env[k];
                        assert(pairs[i] == vars@[i]@);
                        assert(vars@[i].name@.contains(bytes::NUL) || vars@[i].value@.contains(
                            bytes::NUL,
                        ));
                    }
                } else if !program@.contains(bytes::NUL) {
                    lemma_some_has_nul(launch.args@);
                    let (i, j) = choose|i: int, j: int|
                        0 <= i < launch.args@.len() && 0 <= j < launch.args@[i]@.len()
                            && #[trigger] launch.args@[i]@[j] == bytes::NUL;
                    assert(launch.args@[i]@.contains(bytes::NUL));
                }
            }
        },
        (SpawnState::Opening { prepared, .. }, _) => {
            if !(next is Opening || next is Forking) {
                lemma_some_has_nul(prepared.args@);
                let (i, j) = choose|i: int, j: int|
                    0 <= i < prepared.args@.len() && 0 <= j < prepared.args@[i]@.len()
                        && #[trigger] prepared.args@[i]@[j] == bytes::NUL;
                assert(prepared.args@[i]@.contains(bytes::NUL));
            }
        },
        _ => {},
    }
}

/// What each stage of a start waits for: what was found, the environment, what
/// was opened, and the child's number, which is never zero or less. While
/// something is opened or the process is forked, a refusal can come instead. A
/// start that ended waits for nothing.
pub proof fn law_each_stage_waits_for_its_answer<F>(state: SpawnState<F>, event: SpawnEvent)
    ensures
        state is Resolving ==> (waits_for(state, event) <==> event is Resolved),
        state is Inheriting ==> (waits_for(state, event) <==> event is Environment),
        state matches SpawnState::Opening { prepared, opened } ==> opened@.len()
            < prepared.streams.requests().len() ==> (waits_for(state, event) <==> match event {
            SpawnEvent::Refused(_) => true,
            SpawnEvent::Opened(Opened::Null(_)) => prepared.streams.requests()[opened@.len() as int]
                == OpenRequest::Null,
            SpawnEvent::Opened(Opened::Pipe { .. }) => prepared.streams.requests()[opened@.len() as int]
                != OpenRequest::Null,
            _ => false,
        }),
        state is Forking ==> (waits_for(state, event) <==> match event {
            SpawnEvent::Refused(_) => true,
            SpawnEvent::Forked(pid) => pid > 0,
            _ => false,
        }),
        state is Ended ==> !waits_for(state, event),
{
}

/// In which order NUL bytes are found. One in the child's environment is found
/// first, then one in the program's path, and both before anything is opened.
/// One in an argument is found last, when everything has been opened.
pub proof fn law_when_nul_bytes_are_found<F: Fn(&Vec<u8>) -> bool>(
    state: SpawnState<F>,
    event: SpawnEvent,
    next: SpawnState<F>,
    action: SpawnAction,
)
    requires
        waits_for(state, event),
        leads_to(state, event, next, action),
    ensures
        state matches SpawnState::Inheriting { program, launch } ==> event matches
            SpawnEvent::Environment(vars) ==> exists|accepted: Seq<bool>|
            #![trigger environment::inherited(launch.env@, environment::pairs(vars@), accepted)]
            {
                let env = environment::inherited(
                    launch.env@,
                    environment::pairs(vars@),
                    accepted,
                );
                let in_env = exists|i: int|
                    0 <= i < env.len() && ((#[trigger] env[i]).0.contains(bytes::NUL)
                        || env[i].1.contains(bytes::NUL));
                let in_program = program@.contains(bytes::NUL);
                &&& environment::answered_by(launch.inherit_env, launch.env@, vars@, accepted)
                &&& in_env <==> (action matches SpawnAction::Fail { error, .. }
                    && error is NulInEnvironment)
                &&& !in_env && in_program <==> (action matches SpawnAction::Fail { error, .. }
                    && error is NulInProgram)
                &&& !in_env && !in_program && launch.streams.requests().len() > 0 ==> next
                    is Opening
            },
        state matches SpawnState::Opening { prepared, opened } ==> event is Opened ==> (
        opened@.len() + 1 < prepared.streams.requests().len() ==> next is Opening),
{
    if let (SpawnState::Inheriting { program, launch }, SpawnEvent::Environment(vars)) = (
        state,
        event,
    ) {
        let pairs = environment::pairs(vars@);
        let accepted = choose|accepted: Seq<bool>|
            #![trigger environment::inherited(launch.env@, environment::pairs(vars@), accepted)]
            environment::answered_by(launch.inherit_env, launch.env@, vars@, accepted)
                && goes_on_with_environment(
                program@,
                environment::inherited(launch.env@, pairs, accepted),
                launch,
                next,
                action,
            );
        let env = environment::inherited(launch.env@, pairs, accepted);
        assert(environment::has_nul(env) <==> exists|i: int|
            0 <= i < env.len() && ((#[trigger] env[i]).0.contains(bytes::NUL) || env[i].1.contains(
                bytes::NUL,
            )));
    }
}

/// The parent's side of a start, in full: when the process runs, its number is
/// the one it was forked with, the parent keeps the other end of each pipe, and
/// closes what only the child uses and the passed descriptors.
pub proof fn law_the_parent_keeps_its_ends<F: Fn(&Vec<u8>) -> bool>(
    pass_fds: Vec<i32>,
    streams: Streams,
    opened: Vec<Opened>,
    pid: i32,
    next: SpawnState<F>,
    action: SpawnAction,
)
    requires
        leads_to(
            SpawnState::Forking { pass_fds, streams, opened },
            SpawnEvent::Forked(pid),
            next,
            action,
        ),
    ensures
        next is Ended,
        action matches SpawnAction::Finish { close, child } && child.process.pid == pid
            && child.stdin == streams.wiring(opened@).stdin_write && child.stdout == streams.wiring(
            opened@,
        ).stdout_read && child.stderr == streams.wiring(opened@).stderr_read && close@
            == stdio::child_ends(streams.requests(), opened@) + pass_fds@,
{
}

} // verus!
