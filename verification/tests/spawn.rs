use pandora_launcher::environment::{EnvVar, Environment};
use pandora_launcher::exec::ChildStep;
use pandora_launcher::spawn::{
    spawn, PandoraChild, PandoraCommand, PandoraProcess, Spawn, SpawnAction, SpawnError,
    SpawnErrorKind, SpawnEvent,
};
use pandora_launcher::stdio::{Opened, PandoraStdioReadMode, PandoraStdioWriteMode};

type Filter = fn(&Vec<u8>) -> bool;
type Next = (Spawn<Filter>, SpawnAction);

fn bytes(text: &str) -> Vec<u8> {
    text.as_bytes().to_vec()
}

fn command(executable: &str) -> PandoraCommand<Filter> {
    PandoraCommand {
        executable: bytes(executable),
        args: vec![bytes("-jar"), bytes("game.jar")],
        env: Environment::new(),
        inherit_env: None,
        pass_fds: vec![20],
        stdin: PandoraStdioWriteMode::Inherit,
        stdout: PandoraStdioReadMode::Inherit,
        stderr: PandoraStdioReadMode::Inherit,
    }
}

fn step(spawning: Spawn<Filter>, event: SpawnEvent) -> Next {
    assert!(spawning.expects(&event));
    spawning.step(event)
}

fn resolved(command: PandoraCommand<Filter>) -> Spawn<Filter> {
    let (spawning, _) = spawn(command);
    let (spawning, action) = step(spawning, SpawnEvent::Resolved(Some(bytes("/usr/bin/java"))));
    assert!(matches!(action, SpawnAction::ReadEnvironment));
    spawning
}

fn surroundings() -> SpawnEvent {
    SpawnEvent::Environment(vec![
        EnvVar { name: bytes("HOME"), value: bytes("/home/me") },
        EnvVar { name: bytes("LANG"), value: bytes("C") },
    ])
}

fn failure(action: SpawnAction) -> (SpawnError, Vec<i32>) {
    match action {
        SpawnAction::Fail { error, close } => (error, close),
        _ => panic!("no failure"),
    }
}

#[test]
fn a_name_with_a_slash_is_a_path() {
    let (_, action) = spawn(command("./java"));
    assert!(matches!(action, SpawnAction::Canonicalize(path) if path == bytes("./java")));
    let (_, action) = spawn(command("java"));
    assert!(matches!(action, SpawnAction::Search(name) if name == bytes("java")));
}

#[test]
fn an_executable_that_is_not_found_is_an_error() {
    let (spawning, _) = spawn(command("/no/such"));
    let (_, action) = step(spawning, SpawnEvent::Resolved(None));
    let (error, close) = failure(action);
    assert_eq!(error, SpawnError::MissingExecutable);
    assert_eq!(error.kind(), SpawnErrorKind::NotFound);
    assert_eq!(error.message(), Some("executable file doesn't exist"));
    assert_eq!(close, vec![20]);
    let (spawning, _) = spawn(command("nosuch"));
    let (ended, action) = step(spawning, SpawnEvent::Resolved(None));
    let (error, _) = failure(action);
    assert_eq!(error, SpawnError::UnknownCommand);
    assert_eq!(error.kind(), SpawnErrorKind::NotFound);
    assert_eq!(error.message(), Some("unable to resolve executable"));
    assert!(!ended.expects(&SpawnEvent::Forked(1)));
}

#[test]
fn inherited_streams_lead_straight_to_the_fork() {
    let (spawning, action) = step(resolved(command("java")), surroundings());
    let plan = match action {
        SpawnAction::Fork(plan) => plan,
        _ => panic!("no fork"),
    };
    assert_eq!(plan.argv, vec![bytes("/usr/bin/java"), bytes("-jar"), bytes("game.jar")]);
    assert_eq!(plan.environ, vec![bytes("HOME=/home/me"), bytes("LANG=C")]);
    assert_eq!(
        plan.steps,
        vec![
            ChildStep::UseEnvironment,
            ChildStep::KeepOpen(20),
            ChildStep::DieWithParent,
            ChildStep::Execute,
        ]
    );
    let (_, action) = step(spawning, SpawnEvent::Forked(77));
    match action {
        SpawnAction::Finish { close, child } => {
            assert_eq!(close, vec![20]);
            assert_eq!(
                child,
                PandoraChild {
                    process: PandoraProcess { pid: 77 },
                    stdin: None,
                    stdout: None,
                    stderr: None,
                }
            );
        }
        _ => panic!("not finished"),
    }
}

fn piped() -> PandoraCommand<Filter> {
    let mut piped = command("java");
    piped.stdin = PandoraStdioWriteMode::Pipe;
    piped.stdout = PandoraStdioReadMode::Pipe;
    piped.stderr = PandoraStdioReadMode::Null;
    piped
}

#[test]
fn pipes_are_shared_between_parent_and_child() {
    let (spawning, action) = step(resolved(piped()), surroundings());
    assert!(matches!(action, SpawnAction::OpenPipe));
    assert!(!spawning.expects(&SpawnEvent::Opened(Opened::Null(3))));
    let (spawning, action) =
        step(spawning, SpawnEvent::Opened(Opened::Pipe { read: 3, write: 4 }));
    assert!(matches!(action, SpawnAction::OpenPipe));
    let (spawning, action) =
        step(spawning, SpawnEvent::Opened(Opened::Pipe { read: 5, write: 6 }));
    assert!(matches!(action, SpawnAction::OpenNull));
    let (spawning, action) = step(spawning, SpawnEvent::Opened(Opened::Null(7)));
    match action {
        SpawnAction::Fork(plan) => assert_eq!(
            plan.steps[1..4].to_vec(),
            vec![
                ChildStep::Redirect { fd: 3, copy_first: false, target: 0 },
                ChildStep::Redirect { fd: 6, copy_first: false, target: 1 },
                ChildStep::Redirect { fd: 7, copy_first: false, target: 2 },
            ]
        ),
        _ => panic!("no fork"),
    }
    assert!(!spawning.expects(&SpawnEvent::Forked(0)));
    let (_, action) = step(spawning, SpawnEvent::Forked(5));
    match action {
        SpawnAction::Finish { close, child } => {
            assert_eq!(close, vec![3, 6, 7, 20]);
            assert_eq!(child.process.pid, 5);
            assert_eq!(child.stdin, Some(4));
            assert_eq!(child.stdout, Some(5));
            assert_eq!(child.stderr, None);
        }
        _ => panic!("not finished"),
    }
}

#[test]
fn a_refused_pipe_ends_the_start() {
    let (spawning, _) = step(resolved(piped()), surroundings());
    let (spawning, _) = step(spawning, SpawnEvent::Opened(Opened::Pipe { read: 3, write: 4 }));
    let (_, action) = step(spawning, SpawnEvent::Refused(24));
    let (error, close) = failure(action);
    assert_eq!(error, SpawnError::Os(24));
    assert_eq!(error.kind(), SpawnErrorKind::Os);
    assert_eq!(error.message(), None);
    assert_eq!(close, vec![3, 4, 20]);
}

#[test]
fn a_refused_fork_ends_the_start() {
    let mut piped = command("java");
    piped.stdout = PandoraStdioReadMode::Pipe;
    let (spawning, _) = step(resolved(piped), surroundings());
    let (spawning, _) = step(spawning, SpawnEvent::Opened(Opened::Pipe { read: 3, write: 4 }));
    let (_, action) = step(spawning, SpawnEvent::Refused(11));
    assert_eq!(failure(action), (SpawnError::Os(11), vec![3, 4, 20]));
}

#[test]
fn a_failed_start_closes_the_null_device_once() {
    let mut quiet = piped();
    quiet.stdin = PandoraStdioWriteMode::Null;
    let (spawning, action) = step(resolved(quiet), surroundings());
    assert!(matches!(action, SpawnAction::OpenNull));
    let (spawning, _) = step(spawning, SpawnEvent::Opened(Opened::Null(3)));
    let (spawning, action) =
        step(spawning, SpawnEvent::Opened(Opened::Pipe { read: 4, write: 5 }));
    assert!(matches!(action, SpawnAction::Fork(_)));
    let (_, action) = step(spawning, SpawnEvent::Refused(11));
    assert_eq!(failure(action), (SpawnError::Os(11), vec![3, 4, 5, 20]));
}

#[test]
fn a_nul_byte_in_the_environment_is_an_error() {
    let mut broken = command("java");
    broken.env.insert(bytes("A"), vec![0]);
    let (_, action) = step(resolved(broken), surroundings());
    let (error, close) = failure(action);
    assert_eq!(error, SpawnError::NulInEnvironment);
    assert_eq!(error.kind(), SpawnErrorKind::InvalidData);
    assert_eq!(error.message(), Some("environment variable contained null byte"));
    assert_eq!(close, vec![20]);
}

#[test]
fn a_nul_byte_in_the_program_is_an_error() {
    let (spawning, _) = spawn(command("java"));
    let (spawning, _) = step(spawning, SpawnEvent::Resolved(Some(vec![b'/', 0])));
    let (_, action) = step(spawning, surroundings());
    let (error, close) = failure(action);
    assert_eq!(error, SpawnError::NulInProgram);
    assert_eq!(error.kind(), SpawnErrorKind::InvalidData);
    assert_eq!(error.message(), Some("program contained null byte"));
    assert_eq!(close, vec![20]);
}

#[test]
fn a_nul_byte_in_an_argument_is_found_after_the_streams_are_open() {
    let mut broken = piped();
    broken.stderr = PandoraStdioReadMode::Inherit;
    broken.args.push(vec![0]);
    let (spawning, _) = step(resolved(broken), surroundings());
    let (spawning, action) =
        step(spawning, SpawnEvent::Opened(Opened::Pipe { read: 3, write: 4 }));
    assert!(matches!(action, SpawnAction::OpenPipe));
    let (_, action) = step(spawning, SpawnEvent::Opened(Opened::Pipe { read: 5, write: 6 }));
    let (error, close) = failure(action);
    assert_eq!(error, SpawnError::NulInArgument);
    assert_eq!(error.kind(), SpawnErrorKind::InvalidData);
    assert_eq!(error.message(), Some("arg contained null byte"));
    assert_eq!(close, vec![3, 4, 5, 6, 20]);
}

#[test]
fn set_variables_win_and_the_filter_decides_over_the_rest() {
    let mut filtered = command("java");
    filtered.env.insert(bytes("HOME"), bytes("/tmp"));
    filtered.inherit_env = Some(|name: &Vec<u8>| name.as_slice() != b"LANG");
    let (_, action) = step(resolved(filtered), surroundings());
    match action {
        SpawnAction::Fork(plan) => assert_eq!(plan.environ, vec![bytes("HOME=/tmp")]),
        _ => panic!("no fork"),
    }
}

#[test]
fn streams_without_a_destination_share_the_null_device() {
    let mut quiet = command("java");
    quiet.stdin = PandoraStdioWriteMode::Null;
    quiet.stdout = PandoraStdioReadMode::Null;
    quiet.stderr = PandoraStdioReadMode::Null;
    let (spawning, action) = step(resolved(quiet), surroundings());
    assert!(matches!(action, SpawnAction::OpenNull));
    let (spawning, action) = step(spawning, SpawnEvent::Opened(Opened::Null(3)));
    assert!(matches!(action, SpawnAction::Fork(_)));
    let (_, action) = step(spawning, SpawnEvent::Forked(9));
    assert!(matches!(action, SpawnAction::Finish { close, .. } if close == vec![3, 20]));
}
