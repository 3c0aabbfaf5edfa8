//! How a launcher process finds its place: the first one serves, and every
//! later one hands its command line to the first.

use vstd::prelude::*;

use crate::bytes;
use crate::listener;
use crate::listener::{ListenAction, ListenEvent, ListenState};
use crate::request;

verus! {

/// Why a launcher process gives up.
pub enum StartupError {
    /// The lock file could not be opened, for this reason.
    OpenLock(String),
    /// The socket could not be listened on, for this reason.
    Listen(String),
    /// The running launcher could not be reached, for this reason.
    Connect(String),
    /// The command line is too long to be handed over.
    TooManyArguments,
    /// The command line could not be handed over, for this reason.
    Send(String),
}

/// What happened.
pub enum StartupEvent {
    LockOpened,
    OpenFailed(String),
    /// This process holds the lock.
    Locked,
    /// Another process holds the lock.
    NotLocked,
    Bound,
    BindFailed(String),
    Connected,
    ConnectFailed(String),
    Sent,
    SendFailed(String),
}

/// What is to be done next.
pub enum StartupAction {
    /// Try to lock the lock file.
    TryLock,
    /// Start logging, remove the socket of an earlier run and listen on a new
    /// one.
    Bind,
    /// Be the launcher, with this command line.
    Serve(Vec<Vec<u8>>),
    /// Connect to the socket of the running launcher.
    Connect,
    /// Send the bytes.
    Send(Vec<u8>),
    /// Be done.
    Exit,
    /// Show the error and be done.
    Fail(StartupError),
}

/// How far a launcher process has come.
pub enum StartupState {
    /// The lock file is being opened.
    Opening { args: Vec<Vec<u8>> },
    /// The lock file is being locked.
    Locking { args: Vec<Vec<u8>> },
    /// The socket is being bound.
    Binding { args: Vec<Vec<u8>> },
    /// The running launcher is being connected to.
    Connecting { args: Vec<Vec<u8>> },
    /// The command line is being sent.
    Sending,
    /// The place is found, or the process gave up.
    Settled,
}

impl StartupError {
    /// What the error says.
    pub open spec fn words(self) -> Seq<char> {
        match self {
            StartupError::OpenLock(reason) => "Unable open launcher.lock file: "@ + reason@,
            StartupError::Listen(reason) => "Unable to start listener: "@ + reason@,
            StartupError::Connect(reason) => "Error connecting to local socket: "@ + reason@,
            StartupError::TooManyArguments => "Too many arguments"@,
            StartupError::Send(reason) => "Error sending request to local socket: "@ + reason@,
        }
    }

    /// What the error says.
    pub fn message(&self) -> (message: String)
        ensures
            message@ == self.words(),
    {
        match self {
            StartupError::OpenLock(reason) => {
                String::from_str("Unable open launcher.lock file: ").concat(reason.as_str())
            },
            StartupError::Listen(reason) => {
                String::from_str("Unable to start listener: ").concat(reason.as_str())
            },
            StartupError::Connect(reason) => {
                String::from_str("Error connecting to local socket: ").concat(reason.as_str())
            },
            StartupError::TooManyArguments => String::from_str("Too many arguments"),
            StartupError::Send(reason) => {
                String::from_str("Error sending request to local socket: ").concat(reason.as_str())
            },
        }
    }

    /// Whether the error goes to the log: logging has started only in the
    /// process that holds the lock. The others write to the standard error.
    pub fn is_logged(&self) -> (logged: bool)
        ensures
            logged <==> *self is Listen,
    {
        matches!(self, StartupError::Listen(_))
    }
}

/// The process gives up with the error.
pub open spec fn gives_up(next: StartupState, action: StartupAction, error: StartupError) -> bool {
    &&& next is Settled
    &&& action == StartupAction::Fail(error)
}

/// What a state and an event lead to.
pub open spec fn leads_to(
    state: StartupState,
    event: StartupEvent,
    next: StartupState,
    action: StartupAction,
) -> bool {
    match (state, event) {
        (StartupState::Opening { args }, StartupEvent::LockOpened) => {
            &&& next == (StartupState::Locking { args })
            &&& action is TryLock
        },
        (StartupState::Opening { .. }, StartupEvent::OpenFailed(reason)) => gives_up(
            next,
            action,
            StartupError::OpenLock(reason),
        ),
        (StartupState::Locking { args }, StartupEvent::Locked) => {
            &&& next == (StartupState::Binding { args })
            &&& action is Bind
        },
        (StartupState::Locking { args }, StartupEvent::NotLocked) => {
            &&& next == (StartupState::Connecting { args })
            &&& action is Connect
        },
        (StartupState::Binding { args }, StartupEvent::Bound) => {
            &&& next is Settled
            &&& action == StartupAction::Serve(args)
        },
        (StartupState::Binding { .. }, StartupEvent::BindFailed(reason)) => gives_up(
            next,
            action,
            StartupError::Listen(reason),
        ),
        (StartupState::Connecting { args }, StartupEvent::Connected) => if args@.len()
            >= request::ARGUMENT_LIMIT {
            gives_up(next, action, StartupError::TooManyArguments)
        } else {
            &&& next is Sending
            &&& action matches StartupAction::Send(sent)
            &&& sent@ == request::request(bytes::contents(args@))
        },
        (StartupState::Connecting { .. }, StartupEvent::ConnectFailed(reason)) => gives_up(
            next,
            action,
            StartupError::Connect(reason),
        ),
        (StartupState::Sending, StartupEvent::Sent) => next is Settled && action is Exit,
        (StartupState::Sending, StartupEvent::SendFailed(reason)) => gives_up(
            next,
            action,
            StartupError::Send(reason),
        ),
        _ => false,
    }
}

/// Whether the event answers what the state waits for.
pub open spec fn waits_for(state: StartupState, event: StartupEvent) -> bool {
    match state {
        StartupState::Opening { .. } => event is LockOpened || event is OpenFailed,
        StartupState::Locking { .. } => event is Locked || event is NotLocked,
        StartupState::Binding { .. } => event is Bound || event is BindFailed,
        StartupState::Connecting { .. } => event is Connected || event is ConnectFailed,
        StartupState::Sending => event is Sent || event is SendFailed,
        StartupState::Settled => false,
    }
}

impl StartupState {
    /// A process with this command line, whose lock file is to be opened.
    pub fn new(args: Vec<Vec<u8>>) -> (state: StartupState)
        ensures
            state == (StartupState::Opening { args }),
    {
        StartupState::Opening { args }
    }

    /// Whether the event answers what is waited for.
    pub fn expects(&self, event: &StartupEvent) -> (expected: bool)
        ensures
            expected == waits_for(*self, *event),
    {
        match (self, event) {
            (StartupState::Opening { .. }, StartupEvent::LockOpened) => true,
            (StartupState::Opening { .. }, StartupEvent::OpenFailed(_)) => true,
            (StartupState::Locking { .. }, StartupEvent::Locked) => true,
            (StartupState::Locking { .. }, StartupEvent::NotLocked) => true,
            (StartupState::Binding { .. }, StartupEvent::Bound) => true,
            (StartupState::Binding { .. }, StartupEvent::BindFailed(_)) => true,
            (StartupState::Connecting { .. }, StartupEvent::Connected) => true,
            (StartupState::Connecting { .. }, StartupEvent::ConnectFailed(_)) => true,
            (StartupState::Sending, StartupEvent::Sent) => true,
            (StartupState::Sending, StartupEvent::SendFailed(_)) => true,
            _ => false,
        }
    }

    /// Gives up with the error.
    fn give_up(error: StartupError) -> (next: (StartupState, StartupAction))
        ensures
            gives_up(next.0, next.1, error),
    {
        (StartupState::Settled, StartupAction::Fail(error))
    }

    /// Takes what happened, and says what to do next.
    pub fn step(self, event: StartupEvent) -> (next: (StartupState, StartupAction))
        requires
            waits_for(self, event),
        ensures
            leads_to(self, event, next.0, next.1),
    {
        match (self, event) {
            (StartupState::Opening { args }, StartupEvent::LockOpened) => {
                (StartupState::Locking { args }, StartupAction::TryLock)
            },
            (StartupState::Opening { .. }, StartupEvent::OpenFailed(reason)) => {
                Self::give_up(StartupError::OpenLock(reason))
            },
            (StartupState::Locking { args }, StartupEvent::Locked) => {
                (StartupState::Binding { args }, StartupAction::Bind)
            },
            (StartupState::Locking { args }, StartupEvent::NotLocked) => {
                (StartupState::Connecting { args }, StartupAction::Connect)
            },
            (StartupState::Binding { args }, StartupEvent::Bound) => {
                (StartupState::Settled, StartupAction::Serve(args))
            },
            (StartupState::Binding { .. }, StartupEvent::BindFailed(reason)) => {
                Self::give_up(StartupError::Listen(reason))
            },
            (StartupState::Connecting { args }, StartupEvent::Connected) => {
                match request::encode_request(&args) {
                    Some(sent) => (StartupState::Sending, StartupAction::Send(sent)),
                    None => Self::give_up(StartupError::TooManyArguments),
                }
            },
            (StartupState::Connecting { .. }, StartupEvent::ConnectFailed(reason)) => {
                Self::give_up(StartupError::Connect(reason))
            },
            (StartupState::Sending, StartupEvent::Sent) => {
                (StartupState::Settled, StartupAction::Exit)
            },
            (StartupState::Sending, StartupEvent::SendFailed(reason)) => {
                Self::give_up(StartupError::Send(reason))
            },
            (state, _) => {
                assert(false);
                (state, StartupAction::Exit)
            },
        }
    }
}

/// Only the process that holds the lock listens and serves, and only one that
/// does not hold it connects and sends.
pub proof fn law_the_lock_decides(
    state: StartupState,
    event: StartupEvent,
    next: StartupState,
    action: StartupAction,
)
    requires
        waits_for(state, event),
        leads_to(state, event, next, action),
    ensures
        action is Bind <==> state is Locking && event is Locked,
        action is Connect <==> state is Locking && event is NotLocked,
        action is Serve ==> state is Binding,
        action is Send ==> state is Connecting,
        next is Binding ==> action is Bind,
        next is Connecting ==> action is Connect,
{
}

/// What a later process sends has the effect its command line would have had in
/// the running launcher: when the whole of it has arrived there, in pieces of
/// any size, the launcher does what the command line asks for.
pub proof fn law_later_process_is_obeyed(
    args: Vec<Vec<u8>>,
    sending: StartupState,
    send: StartupAction,
    received: Vec<u8>,
    more: Vec<u8>,
    next: ListenState,
    action: ListenAction,
)
    requires
        request::free_of_nul(bytes::contents(args@)),
        leads_to(StartupState::Connecting { args }, StartupEvent::Connected, sending, send),
        send matches StartupAction::Send(sent) && received@.len() < sent@.len() && received@
            + more@ == sent@,
        listener::leads_to(
            ListenState::Reading { received },
            ListenEvent::Received(more),
            next,
            action,
        ),
    ensures
        next is Accepting,
        listener::settles(bytes::contents(args@), action),
{
    let all = bytes::contents(args@);
    let whole = request::request(all);
    assert(whole + Seq::<u8>::empty() =~= whole);
    assert((received@ + more@) =~= whole.subrange(0, whole.len() as int));
    listener::law_forwarded_command_line_takes_effect(
        all,
        received,
        more,
        Seq::empty(),
        next,
        action,
    );
}

/// A later process that reached the running launcher hands its command line
/// over, unless it has too many arguments: then it says so. The request begins
/// with the number of arguments, and is never empty.
pub proof fn law_a_connected_process_sends(
    args: Vec<Vec<u8>>,
    next: StartupState,
    action: StartupAction,
)
    requires
        leads_to(StartupState::Connecting { args }, StartupEvent::Connected, next, action),
    ensures
        args@.len() < 255 ==> {
            &&& next is Sending
            &&& action matches StartupAction::Send(sent)
            &&& sent@.len() >= 1 + args@.len()
            &&& sent@[0] == args@.len()
            &&& sent@ == request::request(bytes::contents(args@))
        },
        args@.len() >= 255 ==> {
            &&& next is Settled
            &&& action == StartupAction::Fail(StartupError::TooManyArguments)
        },
{
    if args@.len() < 255 {
        request::lemma_request_length(bytes::contents(args@));
    }
}

/// Each action has one cause. In particular a process is done without an error
/// only once its command line was sent, and it serves only once it listens.
pub proof fn law_each_action_has_one_cause(
    state: StartupState,
    event: StartupEvent,
    next: StartupState,
    action: StartupAction,
)
    requires
        waits_for(state, event),
        leads_to(state, event, next, action),
    ensures
        action is TryLock <==> state is Opening && event is LockOpened,
        action is Bind <==> state is Locking && event is Locked,
        action is Connect <==> state is Locking && event is NotLocked,
        action is Serve <==> state is Binding && event is Bound,
        action is Exit <==> state is Sending && event is Sent,
        action is Send <==> (state matches StartupState::Connecting { args } && event is Connected
            && args@.len() < 255),
        event matches StartupEvent::OpenFailed(reason) ==> action == StartupAction::Fail(
            StartupError::OpenLock(reason),
        ),
        event matches StartupEvent::BindFailed(reason) ==> action == StartupAction::Fail(
            StartupError::Listen(reason),
        ),
        event matches StartupEvent::ConnectFailed(reason) ==> action == StartupAction::Fail(
            StartupError::Connect(reason),
        ),
        event matches StartupEvent::SendFailed(reason) ==> action == StartupAction::Fail(
            StartupError::Send(reason),
        ),
        next is Settled <==> action is Serve || action is Exit || action is Fail,
        next is Sending <==> action is Send,
{
}

/// A process that gets the lock serves its own command line.
pub proof fn law_the_first_process_serves(
    args: Vec<Vec<u8>>,
    states: Seq<StartupState>,
    actions: Seq<StartupAction>,
)
    requires
        states.len() == 3,
        actions.len() == 3,
        leads_to(StartupState::Opening { args }, StartupEvent::LockOpened, states[0], actions[0]),
        leads_to(states[0], StartupEvent::Locked, states[1], actions[1]),
        leads_to(states[1], StartupEvent::Bound, states[2], actions[2]),
    ensures
        actions[0] is TryLock,
        actions[1] is Bind,
        actions[2] == StartupAction::Serve(args),
{
}

/// A process that does not get the lock hands its own command line to the
/// running launcher, and is done.
pub proof fn law_a_later_process_hands_over(
    args: Vec<Vec<u8>>,
    states: Seq<StartupState>,
    actions: Seq<StartupAction>,
)
    requires
        states.len() == 4,
        actions.len() == 4,
        args@.len() < 255,
        leads_to(StartupState::Opening { args }, StartupEvent::LockOpened, states[0], actions[0]),
        leads_to(states[0], StartupEvent::NotLocked, states[1], actions[1]),
        leads_to(states[1], StartupEvent::Connected, states[2], actions[2]),
        leads_to(states[2], StartupEvent::Sent, states[3], actions[3]),
    ensures
        actions[0] is TryLock,
        actions[1] is Connect,
        actions[2] matches StartupAction::Send(sent) && sent@ == request::request(
            bytes::contents(args@),
        ),
        actions[3] is Exit,
        states[3] is Settled,
{
}

/// What a later process sends is obeyed: it does send, and when the whole of it
/// has arrived, in pieces of any size, the running launcher does what the
/// command line asks for.
pub proof fn law_a_handed_over_command_line_is_obeyed(
    args: Vec<Vec<u8>>,
    sending: StartupState,
    send: StartupAction,
    received: Vec<u8>,
    more: Vec<u8>,
    next: ListenState,
    action: ListenAction,
)
    requires
        args@.len() < 255,
        request::free_of_nul(bytes::contents(args@)),
        leads_to(StartupState::Connecting { args }, StartupEvent::Connected, sending, send),
        send matches StartupAction::Send(sent) ==> received@.len() < sent@.len() && received@
            + more@ == sent@,
        listener::leads_to(
            ListenState::Reading { received },
            ListenEvent::Received(more),
            next,
            action,
        ),
    ensures
        send is Send,
        next is Accepting,
        listener::settles(bytes::contents(args@), action),
{
    law_later_process_is_obeyed(args, sending, send, received, more, next, action);
}

/// What each stage waits for: that its action worked, or that it failed. A
/// process that found its place waits for nothing.
pub proof fn law_each_stage_waits_for_its_answer(state: StartupState, event: StartupEvent)
    ensures
        waits_for(state, event) <==> match event {
            StartupEvent::LockOpened => state is Opening,
            StartupEvent::OpenFailed(_) => state is Opening,
            StartupEvent::Locked => state is Locking,
            StartupEvent::NotLocked => state is Locking,
            StartupEvent::Bound => state is Binding,
            StartupEvent::BindFailed(_) => state is Binding,
            StartupEvent::Connected => state is Connecting,
            StartupEvent::ConnectFailed(_) => state is Connecting,
            StartupEvent::Sent => state is Sending,
            StartupEvent::SendFailed(_) => state is Sending,
        },
{
}

/// An error ends with its reason, in full, and what stands before the reason
/// tells what failed, whatever the reason is.
pub proof fn law_errors_end_with_their_reason(reason: String)
    ensures
        StartupError::OpenLock(reason).words() == "Unable open launcher.lock file: "@ + reason@,
        StartupError::Listen(reason).words() == "Unable to start listener: "@ + reason@,
        StartupError::Connect(reason).words() == "Error connecting to local socket: "@ + reason@,
        StartupError::Send(reason).words() == "Error sending request to local socket: "@ + reason@,
{
}

} // verus!
