use pandora_launcher::cli::{CliError, Message, MessageToBackend, MessageToFrontend, Refusal};
use pandora_launcher::listener::{
    handle_arguments, refusal_line, ListenAction, ListenEvent, ListenState,
};
use pandora_launcher::request::encode_request;

fn args(list: &[&str]) -> Vec<Vec<u8>> {
    list.iter().map(|arg| arg.as_bytes().to_vec()).collect()
}

fn step(state: ListenState, event: ListenEvent) -> (ListenState, ListenAction) {
    assert!(state.expects(&event));
    state.step(event)
}

fn connected() -> ListenState {
    let (state, action) = step(ListenState::new(), ListenEvent::Connected);
    assert!(matches!(action, ListenAction::Read));
    state
}

fn start_world() -> Vec<Message> {
    vec![Message::ToBackend(MessageToBackend::StartInstanceByName { name: "World".to_string() })]
}

fn reported(action: ListenAction) -> String {
    match action {
        ListenAction::Report(text) => text,
        _ => panic!("nothing is reported"),
    }
}

#[test]
fn a_forwarded_command_line_takes_effect_in_pieces_of_any_size() {
    let sent = encode_request(&args(&["launcher", "--run-instance", "World"])).unwrap();
    for size in 1..=sent.len() {
        let mut state = connected();
        let mut left = sent.chunks(size).peekable();
        while let Some(chunk) = left.next() {
            let (next, action) = step(state, ListenEvent::Received(chunk.to_vec()));
            state = next;
            match action {
                ListenAction::Read => assert!(left.peek().is_some()),
                ListenAction::Dispatch(messages) => {
                    assert!(left.peek().is_none());
                    assert_eq!(messages, start_world());
                }
                _ => panic!("unexpected action"),
            }
        }
        assert!(matches!(state, ListenState::Accepting));
    }
}

#[test]
fn a_command_line_has_the_same_effect_here_and_there() {
    match handle_arguments(args(&["launcher", "--run-instance", "World"])) {
        Ok(messages) => assert_eq!(messages, start_world()),
        Err(_) => panic!("refused"),
    }
}

#[test]
fn a_request_without_arguments_shows_the_window() {
    let (state, action) = step(connected(), ListenEvent::Received(vec![0]));
    assert!(matches!(state, ListenState::Accepting));
    match action {
        ListenAction::Dispatch(messages) => assert_eq!(
            messages,
            vec![Message::ToFrontend(MessageToFrontend::OpenOrFocusMainWindow)]
        ),
        _ => panic!("nothing is sent"),
    }
}

#[test]
fn a_bad_command_line_is_refused() {
    let sent = encode_request(&args(&["launcher", "--wrong"])).unwrap();
    let (state, action) = step(connected(), ListenEvent::Received(sent));
    assert!(matches!(state, ListenState::Accepting));
    assert!(matches!(action, ListenAction::Refuse(CliError::Refused(_))));
    let mut sent = encode_request(&args(&["launcher"])).unwrap();
    sent[0] = 2;
    sent.extend_from_slice(b"--run-instance=\xff\0");
    let (_, action) = step(connected(), ListenEvent::Received(sent));
    assert!(matches!(action, ListenAction::Refuse(CliError::NotUnicode(_))));
}

#[test]
fn a_refusal_is_logged_with_its_words() {
    let refused = match handle_arguments(args(&["launcher", "--wrong"])) {
        Err(error) => error,
        Ok(_) => panic!("not refused"),
    };
    assert_eq!(
        refusal_line(&refused),
        "Error while parsing received arguments: error: unexpected argument '--wrong' found\n\n\
         Usage: launcher [OPTIONS]\n\nFor more information, try '--help'.\n"
    );
    let broken = Refusal { message: "broken".to_string(), exit_code: 2 };
    assert_eq!(
        refusal_line(&CliError::NotUnicode(broken)),
        "Error while parsing received arguments: broken"
    );
}

#[test]
fn an_early_end_is_reported() {
    let (state, action) = step(connected(), ListenEvent::Closed);
    assert!(matches!(state, ListenState::Accepting));
    assert_eq!(reported(action), "Error reading data from listener: early eof");
    let (state, _) = step(connected(), ListenEvent::Received(b"\x01abc".to_vec()));
    let (state, action) = step(state, ListenEvent::Closed);
    assert!(matches!(state, ListenState::Accepting));
    assert_eq!(
        reported(action),
        "Error reading data from listener: expected last byte to be NUL byte"
    );
}

#[test]
fn failures_are_reported_and_listening_goes_on() {
    let (state, action) =
        step(ListenState::new(), ListenEvent::AcceptFailed("too many files".to_string()));
    assert!(matches!(state, ListenState::Accepting));
    assert_eq!(
        reported(action),
        "An error occurred trying to handle an incoming connection: too many files"
    );
    let (state, action) = step(connected(), ListenEvent::ReadFailed("reset".to_string()));
    assert!(matches!(state, ListenState::Accepting));
    assert_eq!(reported(action), "Error reading data from listener: reset");
}

#[test]
fn quitting_stops_the_listener_between_two_processes() {
    assert!(!connected().expects(&ListenEvent::Cancelled));
    let (state, action) = step(ListenState::new(), ListenEvent::Cancelled);
    assert!(matches!(state, ListenState::Stopped));
    assert!(matches!(action, ListenAction::Stop));
    assert!(!state.expects(&ListenEvent::Connected));
    assert!(!state.expects(&ListenEvent::Cancelled));
}
