use pandora_launcher::listener::{ListenAction, ListenEvent, ListenState};
use pandora_launcher::startup::{StartupAction, StartupError, StartupEvent, StartupState};

fn args(count: usize) -> Vec<Vec<u8>> {
    vec![b"x".to_vec(); count]
}

fn step(state: StartupState, event: StartupEvent) -> (StartupState, StartupAction) {
    assert!(state.expects(&event));
    state.step(event)
}

fn locking(count: usize) -> StartupState {
    let (state, action) = step(StartupState::new(args(count)), StartupEvent::LockOpened);
    assert!(matches!(action, StartupAction::TryLock));
    state
}

fn connecting(count: usize) -> StartupState {
    let (state, action) = step(locking(count), StartupEvent::NotLocked);
    assert!(matches!(action, StartupAction::Connect));
    state
}

fn failure(next: (StartupState, StartupAction)) -> StartupError {
    assert!(matches!(next.0, StartupState::Settled));
    match next.1 {
        StartupAction::Fail(error) => error,
        _ => panic!("no failure"),
    }
}

#[test]
fn the_first_process_serves() {
    let (state, action) = step(locking(2), StartupEvent::Locked);
    assert!(matches!(action, StartupAction::Bind));
    let (state, action) = step(state, StartupEvent::Bound);
    assert!(matches!(state, StartupState::Settled));
    assert!(matches!(action, StartupAction::Serve(list) if list == args(2)));
}

#[test]
fn a_later_process_sends_its_command_line() {
    let (state, action) = step(connecting(1), StartupEvent::Connected);
    assert!(matches!(action, StartupAction::Send(sent) if sent == b"\x01x\0".to_vec()));
    let (state, action) = step(state, StartupEvent::Sent);
    assert!(matches!(state, StartupState::Settled));
    assert!(matches!(action, StartupAction::Exit));
    assert!(!state.expects(&StartupEvent::Sent));
}

#[test]
fn what_a_later_process_sends_is_obeyed() {
    let (_, action) = step(connecting(1), StartupEvent::Connected);
    let sent = match action {
        StartupAction::Send(sent) => sent,
        _ => panic!("nothing is sent"),
    };
    let (state, _) = ListenState::new().step(ListenEvent::Connected);
    let (_, action) = state.step(ListenEvent::Received(sent));
    assert!(matches!(action, ListenAction::Dispatch(messages) if messages.len() == 1));
}

#[test]
fn too_many_arguments_are_found_once_connected() {
    let error = failure(step(connecting(255), StartupEvent::Connected));
    assert_eq!(error.message(), "Too many arguments");
    assert!(!error.is_logged());
    let (_, action) = step(connecting(254), StartupEvent::Connected);
    assert!(matches!(action, StartupAction::Send(_)));
}

#[test]
fn every_failure_says_what_failed() {
    let reason = || "denied".to_string();
    let opening = failure(step(StartupState::new(args(1)), StartupEvent::OpenFailed(reason())));
    assert_eq!(opening.message(), "Unable open launcher.lock file: denied");
    assert!(!opening.is_logged());
    let (binding, _) = step(locking(1), StartupEvent::Locked);
    let bind = failure(step(binding, StartupEvent::BindFailed(reason())));
    assert_eq!(bind.message(), "Unable to start listener: denied");
    assert!(bind.is_logged());
    let connect = failure(step(connecting(1), StartupEvent::ConnectFailed(reason())));
    assert_eq!(connect.message(), "Error connecting to local socket: denied");
    assert!(!connect.is_logged());
    let (sending, _) = step(connecting(1), StartupEvent::Connected);
    let send = failure(step(sending, StartupEvent::SendFailed(reason())));
    assert_eq!(send.message(), "Error sending request to local socket: denied");
    assert!(!send.is_logged());
}
