//! The loop in which the running launcher takes command lines from processes
//! started later, as a sequence of steps.

use vstd::prelude::*;

use crate::bytes;
use crate::cli;
use crate::cli::{CliError, Message, MessageToBackend, MessageToFrontend};
use crate::request;

verus! {

/// What happened.
pub enum ListenEvent {
    /// A process connected.
    Connected,
    /// A process could not be accepted, for this reason.
    AcceptFailed(String),
    /// Bytes arrived on the connection.
    Received(Vec<u8>),
    /// The other side closed the connection.
    Closed,
    /// The connection could not be read, for this reason.
    ReadFailed(String),
    /// The launcher is quitting.
    Cancelled,
}

/// What is to be done next.
pub enum ListenAction {
    /// Read from the connection.
    Read,
    /// Drop the connection, log the problem, and wait for the next process.
    Report(String),
    /// Drop the connection, log the line on the refusal, and wait for the next
    /// process.
    Refuse(CliError),
    /// Drop the connection, send the messages, and wait for the next process.
    Dispatch(Vec<Message>),
    /// Stop listening, remove the socket and give up the lock.
    Stop,
}

/// What is being waited for.
pub enum ListenState {
    /// A process that connects.
    Accepting,
    /// The rest of a request.
    Reading { received: Vec<u8> },
    /// Nothing any more.
    Stopped,
}

/// A command line leads to its messages, or to a refusal where it is not one of
/// the launcher. One that only names the program, or that gives the option and
/// a value, is never refused.
pub open spec fn settles(args: Seq<Seq<u8>>, action: ListenAction) -> bool {
    &&& match cli::requested(args) {
        Some(run_instance) => action matches ListenAction::Dispatch(messages) && cli::ask_for(
            messages@,
            run_instance,
        ),
        None => action matches ListenAction::Refuse(error) && cli::refuses(args, error),
    }
    &&& args.len() <= 1 ==> (action matches ListenAction::Dispatch(messages) && cli::ask_for(
        messages@,
        None,
    ))
    &&& cli::is_text(args) && cli::gives_value(cli::as_texts(args), cli::RUN_INSTANCE@) ==> (
    action matches ListenAction::Dispatch(messages) && cli::ask_for(
        messages@,
        Some(vstd::utf8::decode_utf8(args[2])),
    ))
    &&& args.len() == 2 && vstd::utf8::valid_utf8(args[1]) && "--run-instance="@.is_prefix_of(
        vstd::utf8::decode_utf8(args[1]),
    ) ==> (action matches ListenAction::Dispatch(messages) && cli::ask_for(
        messages@,
        Some(vstd::utf8::decode_utf8(args[1]).skip("--run-instance="@.len() as int)),
    ))
}

/// What is logged where the other side closed the connection too early.
pub open spec fn early_end(received: Seq<u8>) -> Seq<char> {
    if received.len() == 0 {
        "Error reading data from listener: early eof"@
    } else {
        "Error reading data from listener: expected last byte to be NUL byte"@
    }
}

/// What follows once all of `received` has arrived: the request is answered
/// where it is complete, else there is more to read.
pub open spec fn goes_on_reading(
    received: Seq<u8>,
    next: ListenState,
    action: ListenAction,
) -> bool {
    ||| {
        &&& next is Accepting
        &&& exists|args: Seq<Seq<u8>>| #[trigger]
            request::carries(received, args) && settles(args, action)
    }
    ||| {
        &&& next matches ListenState::Reading { received: kept }
        &&& kept@ == received
        &&& action is Read
        &&& forall|args: Seq<Seq<u8>>| !#[trigger] request::carries(received, args)
    }
}

/// The problem is logged, and the next process is waited for.
pub open spec fn reports(next: ListenState, action: ListenAction, problem: Seq<char>) -> bool {
    &&& next is Accepting
    &&& action matches ListenAction::Report(logged)
    &&& logged@ == problem
}

/// What a state and an event lead to.
pub open spec fn leads_to(
    state: ListenState,
    event: ListenEvent,
    next: ListenState,
    action: ListenAction,
) -> bool {
    match (state, event) {
        (ListenState::Accepting, ListenEvent::Connected) => {
            &&& next matches ListenState::Reading { received }
            &&& received@ == Seq::<u8>::empty()
            &&& action is Read
        },
        (ListenState::Accepting, ListenEvent::AcceptFailed(reason)) => reports(
            next,
            action,
            "An error occurred trying to handle an incoming connection: "@ + reason@,
        ),
        (ListenState::Accepting, ListenEvent::Cancelled) => next is Stopped && action is Stop,
        (ListenState::Reading { received }, ListenEvent::Received(more)) => goes_on_reading(
            received@ + more@,
            next,
            action,
        ),
        (ListenState::Reading { received }, ListenEvent::Closed) => reports(
            next,
            action,
            early_end(received@),
        ),
        (ListenState::Reading { .. }, ListenEvent::ReadFailed(reason)) => reports(
            next,
            action,
            "Error reading data from listener: "@ + reason@,
        ),
        _ => false,
    }
}

/// Whether the event is one that the state waits for. The launcher's quitting
/// is taken only between two processes.
pub open spec fn waits_for(state: ListenState, event: ListenEvent) -> bool {
    match (state, event) {
        (ListenState::Accepting, ListenEvent::Connected) => true,
        (ListenState::Accepting, ListenEvent::AcceptFailed(_)) => true,
        (ListenState::Accepting, ListenEvent::Cancelled) => true,
        (ListenState::Reading { .. }, ListenEvent::Received(_)) => true,
        (ListenState::Reading { .. }, ListenEvent::Closed) => true,
        (ListenState::Reading { .. }, ListenEvent::ReadFailed(_)) => true,
        _ => false,
    }
}

/// The messages that a command line leads to, the program's name first.
pub fn handle_arguments(args: Vec<Vec<u8>>) -> (handled: Result<Vec<Message>, CliError>)
    ensures
        match handled {
            Ok(messages) => cli::requested(bytes::contents(args@)) matches Some(run_instance)
                && cli::ask_for(messages@, run_instance),
            Err(error) => cli::refuses(bytes::contents(args@), error),
        },
        args@.len() <= 1 ==> (handled matches Ok(messages) && cli::ask_for(messages@, None)),
        cli::is_text(bytes::contents(args@)) && cli::gives_value(
            cli::as_texts(bytes::contents(args@)),
            cli::RUN_INSTANCE@,
        ) ==> (handled matches Ok(messages) && cli::ask_for(
            messages@,
            Some(vstd::utf8::decode_utf8(args@[2]@)),
        )),
        args@.len() == 2 && vstd::utf8::valid_utf8(args@[1]@) && "--run-instance="@.is_prefix_of(
            vstd::utf8::decode_utf8(args@[1]@),
        ) ==> (handled matches Ok(messages) && cli::ask_for(
            messages@,
            Some(vstd::utf8::decode_utf8(args@[1]@).skip("--run-instance="@.len() as int)),
        )),
{
    let ghost option = "--run-instance="@;
    match cli::parse_cli(args) {
        Ok(parsed) => {
            proof {
                if parsed.run_instance is Some {
                    let name = parsed.run_instance->0@;
                    assert((option + name).skip(option.len() as int) =~= name);
                }
            }
            Ok(cli::run_cli(parsed))
        },
        Err(error) => Err(error),
    }
}

/// The two texts one after the other.
fn joined(start: &str, end: &String) -> (text: String)
    ensures
        text@ == start@ + end@,
{
    let mut text = String::from_str(start);
    text.append(end.as_str());
    text
}

/// The line that is logged where a command line from another process leads to
/// nothing.
pub fn refusal_line(error: &CliError) -> (line: String)
    ensures
        line@ == "Error while parsing received arguments: "@ + cli::refusal_of(*error).message@,
        *error matches CliError::NotUnicode(refusal) ==> line@
            == "Error while parsing received arguments: "@ + refusal.message@,
        *error matches CliError::Refused(refusal) ==> line@
            == "Error while parsing received arguments: "@ + refusal.message@,
{
    let refusal = match error {
        CliError::NotUnicode(refusal) => refusal,
        CliError::Refused(refusal) => refusal,
    };
    joined("Error while parsing received arguments: ", &refusal.message)
}

impl ListenState {
    /// The listener before the first process connects.
    pub fn new() -> (state: ListenState)
        ensures
            state is Accepting,
    {
        ListenState::Accepting
    }

    /// Whether the event is one that is waited for.
    pub fn expects(&self, event: &ListenEvent) -> (expected: bool)
        ensures
            expected == waits_for(*self, *event),
    {
        match (self, event) {
            (ListenState::Accepting, ListenEvent::Connected) => true,
            (ListenState::Accepting, ListenEvent::AcceptFailed(_)) => true,
            (ListenState::Accepting, ListenEvent::Cancelled) => true,
            (ListenState::Reading { .. }, ListenEvent::Received(_)) => true,
            (ListenState::Reading { .. }, ListenEvent::Closed) => true,
            (ListenState::Reading { .. }, ListenEvent::ReadFailed(_)) => true,
            _ => false,
        }
    }

    /// Answers the request where it is complete, else reads on.
    fn go_on_reading(received: Vec<u8>) -> (next: (ListenState, ListenAction))
        ensures
            goes_on_reading(received@, next.0, next.1),
    {
        match request::decode_request(&received) {
            Some(args) => {
                let action = match handle_arguments(args) {
                    Ok(messages) => ListenAction::Dispatch(messages),
                    Err(error) => ListenAction::Refuse(error),
                };
                assert(request::carries(received@, bytes::contents(args@)));
                (ListenState::Accepting, action)
            },
            None => (ListenState::Reading { received }, ListenAction::Read),
        }
    }

    /// Takes what happened, and says what to do next.
    pub fn step(self, event: ListenEvent) -> (next: (ListenState, ListenAction))
        requires
            waits_for(self, event),
        ensures
            leads_to(self, event, next.0, next.1),
    {
        match (self, event) {
            (ListenState::Accepting, ListenEvent::Connected) => {
                let received: Vec<u8> = Vec::new();
                (ListenState::Reading { received }, ListenAction::Read)
            },
            (ListenState::Accepting, ListenEvent::AcceptFailed(reason)) => {
                let problem = joined(
                    "An error occurred trying to handle an incoming connection: ",
                    &reason,
                );
                (ListenState::Accepting, ListenAction::Report(problem))
            },
            (ListenState::Accepting, ListenEvent::Cancelled) => {
                (ListenState::Stopped, ListenAction::Stop)
            },
            (ListenState::Reading { received }, ListenEvent::Received(more)) => {
                let mut received = received;
                bytes::append_bytes(&mut received, &more);
                Self::go_on_reading(received)
            },
            (ListenState::Reading { received }, ListenEvent::Closed) => {
                let problem = if received.len() == 0 {
                    String::from_str("Error reading data from listener: early eof")
                } else {
                    String::from_str(
                        "Error reading data from listener: expected last byte to be NUL byte",
                    )
                };
                (ListenState::Accepting, ListenAction::Report(problem))
            },
            (ListenState::Reading { .. }, ListenEvent::ReadFailed(reason)) => {
                let problem = joined("Error reading data from listener: ", &reason);
                (ListenState::Accepting, ListenAction::Report(problem))
            },
            (state, _) => {
                assert(false);
                (state, ListenAction::Stop)
            },
        }
    }
}

/// A command line sent by another process has the effect it would have had in
/// the running one, however its bytes arrive: nothing is done before the whole
/// request is there, and then the launcher does what the command line asks for.
pub proof fn law_forwarded_command_line_takes_effect(
    args: Seq<Seq<u8>>,
    received: Vec<u8>,
    more: Vec<u8>,
    after: Seq<u8>,
    next: ListenState,
    action: ListenAction,
)
    requires
        args.len() < request::ARGUMENT_LIMIT,
        request::free_of_nul(args),
        received@.len() < request::request(args).len(),
        (received@ + more@).is_prefix_of(request::request(args) + after),
        leads_to(
            ListenState::Reading { received },
            ListenEvent::Received(more),
            next,
            action,
        ),
    ensures
        (received@ + more@).len() < request::request(args).len() ==> action is Read && (
        next matches ListenState::Reading { received: kept } && kept@ == received@ + more@),
        (received@ + more@).len() >= request::request(args).len() ==> next is Accepting && settles(
            args,
            action,
        ),
{
    let so_far = received@ + more@;
    let whole = request::request(args);
    if so_far.len() < whole.len() {
        assert(so_far =~= whole.subrange(0, so_far.len() as int));
        assert forall|read: Seq<Seq<u8>>| !#[trigger] request::carries(so_far, read) by {
            request::law_part_of_request_carries_nothing(args, so_far, read);
        }
    } else {
        assert forall|i: int| 0 <= i < whole.len() implies whole[i] == so_far[i] by {
            assert((whole + after)[i] == so_far[i]);
        }
        assert(whole =~= so_far.subrange(0, whole.len() as int));
        assert(request::carries(so_far, args));
        assert forall|read: Seq<Seq<u8>>| #[trigger] request::carries(so_far, read) implies read
            == args by {
            request::law_request_is_unambiguous(so_far, read, args);
        }
    }
}

/// A process that connects and leaves again before its request is complete has
/// no effect but a line in the log.
pub proof fn law_incomplete_request_has_no_effect(
    received: Vec<u8>,
    next: ListenState,
    action: ListenAction,
)
    requires
        leads_to(ListenState::Reading { received }, ListenEvent::Closed, next, action),
    ensures
        next is Accepting,
        action is Report,
{
}

/// Once the launcher stopped listening, it takes nothing any more, and it stops
/// only when it is quitting.
pub proof fn law_stops_only_when_quitting(
    state: ListenState,
    event: ListenEvent,
    next: ListenState,
    action: ListenAction,
)
    requires
        waits_for(state, event),
        leads_to(state, event, next, action),
    ensures
        !(state is Stopped),
        next is Stopped <==> event is Cancelled,
        action is Stop <==> event is Cancelled,
{
}

/// What command lines from other processes lead to, in the messages themselves.
/// One that only names the program, or not even that, has the main window shown.
/// One that gives the option and a text that does not begin with a hyphen, or
/// the option, an equals sign and any text in one argument, has the instance of
/// just that name started. In all these cases there is one message.
pub proof fn law_what_command_lines_lead_to(
    args: Seq<Seq<u8>>,
    action: ListenAction,
    name: Seq<char>,
)
    requires
        settles(args, action),
    ensures
        args.len() <= 1 ==> (action matches ListenAction::Dispatch(messages) && messages@ == seq![
            Message::ToFrontend(MessageToFrontend::OpenOrFocusMainWindow),
        ]),
        args.len() == 3 && args[1] == vstd::utf8::encode_utf8("--run-instance"@) && args[2]
            == vstd::utf8::encode_utf8(name) && (name.len() > 0 ==> name[0] != '-') ==> (
        action matches ListenAction::Dispatch(messages) && messages@.len() == 1
            && (messages@[0] matches Message::ToBackend(
            MessageToBackend::StartInstanceByName { name: started },
        ) && started@ == name)),
        args.len() == 2 && args[1] == vstd::utf8::encode_utf8("--run-instance="@ + name) ==> (
        action matches ListenAction::Dispatch(messages) && messages@.len() == 1
            && (messages@[0] matches Message::ToBackend(
            MessageToBackend::StartInstanceByName { name: started },
        ) && started@ == name)),
{
    if args.len() <= 1 {
        if let ListenAction::Dispatch(messages) = action {
            assert(messages@ =~= seq![
                Message::ToFrontend(MessageToFrontend::OpenOrFocusMainWindow),
            ]);
        }
    }
    if args.len() == 3 && args[1] == vstd::utf8::encode_utf8("--run-instance"@) && args[2]
        == vstd::utf8::encode_utf8(name) {
        let option = "--run-instance"@;
        vstd::utf8::encode_utf8_valid_utf8(option);
        vstd::utf8::encode_utf8_decode_utf8(option);
        vstd::utf8::encode_utf8_valid_utf8(name);
        vstd::utf8::encode_utf8_decode_utf8(name);
        reveal_strlit("--");
        reveal_strlit("run-instance");
        reveal_strlit("--run-instance");
        assert(cli::DASHES@ + cli::RUN_INSTANCE@ =~= option);
    }
    if args.len() == 2 && args[1] == vstd::utf8::encode_utf8("--run-instance="@ + name) {
        let option = "--run-instance="@;
        let given = option + name;
        vstd::utf8::encode_utf8_valid_utf8(given);
        vstd::utf8::encode_utf8_decode_utf8(given);
        assert(option =~= given.subrange(0, option.len() as int));
        assert(given.skip(option.len() as int) =~= name);
    }
}

/// A command line is answered with one message where it is one of the launcher,
/// which starts the instance that it names or, where it names none, shows the
/// main window. Where it is not, it is answered with a refusal.
pub proof fn law_every_command_line_is_answered(args: Seq<Seq<u8>>, action: ListenAction)
    requires
        settles(args, action),
    ensures
        action is Dispatch || action is Refuse,
        action is Dispatch <==> cli::requested(args) is Some,
        action matches ListenAction::Dispatch(messages) ==> messages@.len() == 1 && match (
            cli::requested(args),
            messages@[0],
        ) {
            (
                Some(Some(name)),
                Message::ToBackend(MessageToBackend::StartInstanceByName { name: started }),
            ) => started@ == name,
            (
                Some(None),
                Message::ToFrontend(MessageToFrontend::OpenOrFocusMainWindow),
            ) => true,
            _ => false,
        },
        action matches ListenAction::Refuse(error) ==> cli::refuses(args, error),
{
}

/// A process that connects is read from. What it sends is kept until the request
/// is complete, and not a byte of it is lost or changed.
pub proof fn law_nothing_received_is_lost(
    received: Vec<u8>,
    more: Vec<u8>,
    next: ListenState,
    action: ListenAction,
)
    ensures
        leads_to(ListenState::Accepting, ListenEvent::Connected, next, action) ==> action is Read
            && (next matches ListenState::Reading { received: kept } && kept@.len() == 0),
        leads_to(
            ListenState::Reading { received },
            ListenEvent::Received(more),
            next,
            action,
        ) ==> {
            ||| action is Read && (next matches ListenState::Reading { received: kept } && kept@
                == received@ + more@)
            ||| next is Accepting && (action is Dispatch || action is Refuse)
        },
{
}

/// What goes wrong is logged with its reason, and the next process is waited
/// for. A process that leaves before it has sent anything, and one that leaves
/// before its request is complete, are told apart.
pub proof fn law_problems_are_logged(
    state: ListenState,
    event: ListenEvent,
    next: ListenState,
    action: ListenAction,
)
    requires
        waits_for(state, event),
        leads_to(state, event, next, action),
    ensures
        event is AcceptFailed || event is ReadFailed || event is Closed <==> action is Report,
        action is Report ==> next is Accepting,
        event matches ListenEvent::AcceptFailed(reason) ==> (action matches ListenAction::Report(
            logged,
        ) && logged@ == "An error occurred trying to handle an incoming connection: "@ + reason@),
        event matches ListenEvent::ReadFailed(reason) ==> (action matches ListenAction::Report(
            logged,
        ) && logged@ == "Error reading data from listener: "@ + reason@),
        event is Closed ==> (state matches ListenState::Reading { received } && action matches
            ListenAction::Report(logged) && logged@ == if received@.len() == 0 {
            "Error reading data from listener: early eof"@
        } else {
            "Error reading data from listener: expected last byte to be NUL byte"@
        }),
{
}

/// What is waited for: between two processes one that connects, or the
/// launcher's quitting, and with a process connected what comes of reading from
/// it. Once stopped, nothing.
pub proof fn law_what_is_waited_for(state: ListenState, event: ListenEvent)
    ensures
        waits_for(state, event) <==> match event {
            ListenEvent::Connected => state is Accepting,
            ListenEvent::AcceptFailed(_) => state is Accepting,
            ListenEvent::Cancelled => state is Accepting,
            ListenEvent::Received(_) => state is Reading,
            ListenEvent::Closed => state is Reading,
            ListenEvent::ReadFailed(_) => state is Reading,
        },
{
}

} // verus!
