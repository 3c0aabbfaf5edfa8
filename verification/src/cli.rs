//! The launcher's command line, and what it asks for.

use vstd::prelude::*;

use crate::bytes;
use crate::paths;
use crate::text;

verus! {

/// The program's name, as usage messages show it.
pub const PROGRAM: &'static str = "pandora_launcher";

/// The option that names an instance to launch.
pub const RUN_INSTANCE: &'static str = "run-instance";

/// How the option's value is shown in usage messages.
pub const RUN_INSTANCE_VALUE: &'static str = "RUN_INSTANCE";

/// What usage messages say of the option.
pub const RUN_INSTANCE_HELP: &'static str = "Instance to launch, instead of opening the launcher";

/// What every long option begins with.
pub const DASHES: &'static str = "--";

/// What stands between an option and a value in the same argument.
pub const ATTACHED: &'static str = "=";

/// The option that asks for help.
pub const HELP: &'static str = "--help";

/// The short option that asks for help. Other short options may follow it in
/// the same argument.
pub const SHORT_HELP: &'static str = "-h";

/// What a command line asks for.
pub struct Cli {
    /// The instance to launch.
    pub run_instance: Option<String>,
}

/// A message to the part that shows the windows.
#[derive(Clone, Copy, Debug, PartialEq, Eq, Structural)]
pub enum MessageToFrontend {
    /// Open the main window, or bring it to the front.
    OpenOrFocusMainWindow,
}

/// A message to the part that does the work.
#[derive(Debug, PartialEq, Eq)]
pub enum MessageToBackend {
    /// Start the instance of this name, without joining a world or a server.
    StartInstanceByName { name: String },
}

/// A message, with where it goes.
#[derive(Debug, PartialEq, Eq)]
pub enum Message {
    ToFrontend(MessageToFrontend),
    ToBackend(MessageToBackend),
}

/// A command line that is not one of the launcher, or that asks for help.
pub struct Refusal {
    /// What to tell the user.
    pub message: String,
    /// What a process with this command line exits with: zero where it asked
    /// for help.
    pub exit_code: i32,
}

/// Why a command line leads to no messages.
pub enum CliError {
    /// A value that was given is not text.
    NotUnicode(Refusal),
    /// The arguments were refused.
    Refused(Refusal),
}

/// How the user is told why a command line leads to no messages.
pub open spec fn refusal_of(error: CliError) -> Refusal {
    match error {
        CliError::NotUnicode(refusal) => refusal,
        CliError::Refused(refusal) => refusal,
    }
}

/// The contents of an optional text.
pub open spec fn text_of(value: Option<String>) -> Option<Seq<char>> {
    match value {
        Some(value) => Some(value@),
        None => None,
    }
}

/// What was found on a command line, as far as it was not refused.
pub open spec fn finding(found: Result<Option<String>, Refusal>) -> Option<Option<Seq<char>>> {
    match found {
        Ok(value) => Some(text_of(value)),
        Err(_) => None,
    }
}

/// A refused command line makes a process exit with zero or two.
pub open spec fn has_exit_code(found: Result<Option<String>, Refusal>) -> bool {
    found matches Err(refusal) ==> refusal.exit_code == 0 || refusal.exit_code == 2
}

/// A refused command line was refused with these words and this exit code.
pub open spec fn refused_with(
    found: Result<Option<String>, Refusal>,
    message: Seq<char>,
    exit_code: i32,
) -> bool {
    found matches Err(refusal) ==> refusal.message@ == message && refusal.exit_code == exit_code
}

/// The command line was refused because it asked for help.
pub open spec fn shows_help(found: Result<Option<String>, Refusal>) -> bool {
    found matches Err(refusal) && refusal.exit_code == 0
}

/// A command line that begins by asking for help.
pub open spec fn asks_for_help(args: Seq<Seq<char>>) -> bool {
    args.len() >= 2 && (args[1] == HELP@ || args[1] == SHORT_HELP@)
}

/// A command line that holds the option and its value and nothing else. The
/// value does not look like an option itself.
pub open spec fn gives_value(args: Seq<Seq<char>>, option: Seq<char>) -> bool {
    &&& args.len() == 3
    &&& args[1] == DASHES@ + option
    &&& args[2].len() > 0 ==> args[2][0] != '-'
}

/// A command line that holds the option and its value in one argument and
/// nothing else. The value is all that follows the first equals sign.
pub open spec fn gives_attached(args: Seq<Seq<char>>, option: Seq<char>) -> bool {
    &&& args.len() == 2
    &&& (DASHES@ + option + ATTACHED@).is_prefix_of(args[1])
}

/// The contents of a list of texts.
pub open spec fn texts(list: Seq<String>) -> Seq<Seq<char>> {
    list.map_values(|item: String| item@)
}

/// Whether every argument after the program's name is text.
pub open spec fn is_text(args: Seq<Seq<u8>>) -> bool {
    forall|i: int| 1 <= i < args.len() ==> vstd::utf8::valid_utf8(#[trigger] args[i])
}

/// The program's path as text. Where it is none, the name of the program's file
/// stands for it, and nothing where that is no text either.
pub open spec fn program_text(path: Seq<u8>) -> Seq<char> {
    if vstd::utf8::valid_utf8(path) {
        vstd::utf8::decode_utf8(path)
    } else {
        match paths::last_name(path) {
            Some(name) if vstd::utf8::valid_utf8(name) => vstd::utf8::decode_utf8(name),
            _ => seq![],
        }
    }
}

/// The arguments as they are shown: those that are not text with replacement
/// characters, and the program's name first.
pub open spec fn as_texts(args: Seq<Seq<u8>>) -> Seq<Seq<char>> {
    args.map(
        |i: int, arg: Seq<u8>|
            if i == 0 {
                program_text(arg)
            } else if vstd::utf8::valid_utf8(arg) {
                vstd::utf8::decode_utf8(arg)
            } else {
                text::lossy_text(arg)
            },
    )
}

/// The bytes begin with a character, which has four bytes at most.
pub open spec fn begins_with_character(bytes: Seq<u8>) -> bool {
    exists|n: int|
        1 <= n <= 4 && n <= bytes.len() && vstd::utf8::valid_utf8(#[trigger] bytes.take(n))
}

/// The argument begins like short options, but what follows the hyphen is no
/// character.
pub open spec fn is_unreadable(arg: Seq<u8>) -> bool {
    &&& !vstd::utf8::valid_utf8(arg)
    &&& arg.len() >= 2
    &&& arg[0] == bytes::HYPHEN
    &&& !begins_with_character(arg.skip(1))
}

/// No argument from this one on is read as options.
pub open spec fn ends_options(arg: Seq<u8>) -> bool {
    arg == seq![bytes::HYPHEN, bytes::HYPHEN] || is_unreadable(arg)
}

/// The number of the first argument from `from` on that ends the options, or
/// the number of arguments.
pub open spec fn end_of_options(args: Seq<Seq<u8>>, from: int) -> int
    decreases args.len() - from,
{
    if from >= args.len() {
        args.len() as int
    } else if ends_options(args[from]) {
        from
    } else {
        end_of_options(args, from + 1)
    }
}

/// The arguments as they are looked at. One that cannot be read as short
/// options is refused as a whole, as it is behind the argument that ends the
/// options. So that argument is put before it.
pub open spec fn looked_at(args: Seq<Seq<u8>>) -> Seq<Seq<char>> {
    let at = end_of_options(args, 1);
    if at < args.len() && is_unreadable(args[at]) {
        as_texts(args).insert(at, DASHES@)
    } else {
        as_texts(args)
    }
}

/// What the `clap` crate finds on a command line with a single option that
/// takes one value: nothing where it refuses the command line, else the
/// option's value, where it is given.
pub uninterp spec fn option_value(option: Seq<char>, args: Seq<Seq<char>>) -> Option<
    Option<Seq<char>>,
>;

/// The words with which the `clap` crate refuses such a command line, or its
/// help.
pub uninterp spec fn refusal_text(
    program: Seq<char>,
    option: Seq<char>,
    value_name: Seq<char>,
    help: Seq<char>,
    args: Seq<Seq<char>>,
) -> Seq<char>;

/// What a process exits with whose command line the `clap` crate refuses.
pub uninterp spec fn refusal_code(option: Seq<char>, args: Seq<Seq<char>>) -> i32;

/// The words with which the `clap` crate refuses a value that is not text, in a
/// process whose program has this name.
pub uninterp spec fn not_unicode_text(
    program: Seq<char>,
    option: Seq<char>,
    value_name: Seq<char>,
    help: Seq<char>,
    name: Seq<char>,
) -> Seq<char>;

/// What is found on a command line, whether its arguments are text or not.
pub open spec fn found_in(args: Seq<Seq<u8>>) -> Option<Option<Seq<char>>> {
    option_value(RUN_INSTANCE@, looked_at(args))
}

/// The instance that a command line names, where it is a command line of the
/// launcher. Its arguments have to be text.
pub open spec fn requested(args: Seq<Seq<u8>>) -> Option<Option<Seq<char>>> {
    if is_text(args) {
        found_in(args)
    } else {
        None
    }
}

/// The argument number `at` is the first one that is not text, the program's
/// name aside.
pub open spec fn first_non_text(args: Seq<Seq<u8>>, at: int) -> bool {
    &&& 1 <= at < args.len()
    &&& !vstd::utf8::valid_utf8(args[at])
    &&& forall|i: int| 1 <= i < at ==> vstd::utf8::valid_utf8(#[trigger] args[i])
}

/// The argument holds the option together with its value.
pub open spec fn attaches_value(arg: Seq<char>) -> bool {
    (DASHES@ + RUN_INSTANCE@ + ATTACHED@).is_prefix_of(arg)
}

/// The argument is an option of the launcher, as far as its beginning shows.
pub open spec fn is_option(arg: Seq<char>) -> bool {
    ||| arg == HELP@
    ||| SHORT_HELP@.is_prefix_of(arg)
    ||| arg == DASHES@ + RUN_INSTANCE@
    ||| attaches_value(arg)
}

/// A value given in the argument number `at` is taken before what is wrong with
/// a later argument is found. This happens at once where the value stands in
/// the same argument as the option, else when an option comes next.
pub open spec fn is_taken_soon(args: Seq<Seq<char>>, at: int) -> bool {
    ||| attaches_value(args[at])
    ||| at + 1 < args.len() && is_option(args[at + 1])
}

/// The argument number `at` gives a value, which is taken before the rest of
/// the command line is looked at.
pub open spec fn is_taken_first(args: Seq<Seq<u8>>, at: int) -> bool {
    &&& option_value(RUN_INSTANCE@, as_texts(args).take(at + 1)) is Some
    &&& is_taken_soon(as_texts(args), at)
}

/// A value that is not text is taken before anything else is found to be wrong
/// with the command line.
pub open spec fn value_fails_first(args: Seq<Seq<u8>>) -> bool {
    exists|at: int| #[trigger] first_non_text(args, at) && is_taken_first(args, at)
}

/// Why a command line was refused: it is not one of the launcher, or a value is
/// not text.
pub open spec fn refuses(args: Seq<Seq<u8>>, error: CliError) -> bool {
    match error {
        CliError::Refused(refusal) => {
            &&& found_in(args) is None
            &&& !value_fails_first(args)
            &&& refusal.message@ == refusal_text(
                PROGRAM@,
                RUN_INSTANCE@,
                RUN_INSTANCE_VALUE@,
                RUN_INSTANCE_HELP@,
                looked_at(args),
            )
            &&& refusal.exit_code == refusal_code(RUN_INSTANCE@, looked_at(args))
            &&& refusal.exit_code == 0 || refusal.exit_code == 2
        },
        CliError::NotUnicode(refusal) => {
            &&& !is_text(args)
            &&& found_in(args) is Some || value_fails_first(args)
            &&& refusal.message@ == not_unicode_text(
                PROGRAM@,
                RUN_INSTANCE@,
                RUN_INSTANCE_VALUE@,
                RUN_INSTANCE_HELP@,
                as_texts(args)[0],
            )
            &&& refusal.exit_code == 2
        },
    }
}

/// The message that a command line leads to: the instance it names, where it
/// names one, is started instead of the main window being shown.
pub open spec fn ask_for(messages: Seq<Message>, run_instance: Option<Seq<char>>) -> bool {
    &&& messages.len() == 1
    &&& match run_instance {
        Some(name) => messages[0] matches Message::ToBackend(
            MessageToBackend::StartInstanceByName { name: started },
        ) && started@ == name,
        None => messages[0] == Message::ToFrontend(MessageToFrontend::OpenOrFocusMainWindow),
    }
}

/// Builds a `clap::Command` with one `clap::Arg`, a long option that takes a
/// value, and calls `try_get_matches_from` on it.
///
/// What it finds is a function of the option's name and of the arguments. A
/// command line without arguments gives no value. The option followed by a
/// value that does not begin with a hyphen gives that value, and so does the
/// option with an equals sign and any value in one argument. The first of the
/// arguments is the program's name. The other texts are only for messages. The
/// words of a refusal, which the error's `to_string` gives, are a function of
/// all these texts. Its exit code is what `clap::Error::exit_code` gives: zero
/// for help, and so where the first argument asks for it, else two.
#[verifier::external_body]
fn parse_option(
    program: &'static str,
    option: &'static str,
    value_name: &'static str,
    help: &'static str,
    args: Vec<String>,
) -> (found: Result<Option<String>, Refusal>)
    requires
        option@ == RUN_INSTANCE@,
    ensures
        finding(found) == option_value(option@, texts(args@)),
        args@.len() <= 1 ==> finding(found) == Some(None::<Seq<char>>),
        gives_value(texts(args@), option@) ==> finding(found) == Some(Some(args@[2]@)),
        gives_attached(texts(args@), option@) ==> finding(found) == Some(
            Some(args@[1]@.skip((DASHES@ + option@ + ATTACHED@).len() as int)),
        ),
        refused_with(
            found,
            refusal_text(program@, option@, value_name@, help@, texts(args@)),
            refusal_code(option@, texts(args@)),
        ),
        has_exit_code(found),
        asks_for_help(texts(args@)) ==> shows_help(found),
{
    let arg = clap::Arg::new(option).long(option).value_name(value_name).help(help);
    let command = clap::Command::new(program).arg(arg);
    match command.try_get_matches_from(args) {
        Ok(mut matches) => Ok(matches.remove_one::<String>(option)),
        Err(error) => Err(Refusal { message: error.to_string(), exit_code: error.exit_code() }),
    }
}

/// Builds the same `clap::Command` as for a command line, has it take the
/// program's name with `try_get_matches_from_mut`, and calls
/// `clap::Command::error` on it, which makes the error for a value that is not
/// text.
///
/// The words are a function of the texts that are handed over. The exit code is
/// what `clap::Error::exit_code` gives for all that is not help.
#[verifier::external_body]
fn refuse_value(
    program: &'static str,
    option: &'static str,
    value_name: &'static str,
    help: &'static str,
    name: String,
) -> (refusal: Refusal)
    requires
        option@ == RUN_INSTANCE@,
    ensures
        refusal.message@ == not_unicode_text(program@, option@, value_name@, help@, name@),
        refusal.exit_code == 2,
{
    let arg = clap::Arg::new(option).long(option).value_name(value_name).help(help);
    let mut command = clap::Command::new(program).arg(arg);
    let _ = command.try_get_matches_from_mut([name]);
    let kind = clap::error::ErrorKind::InvalidUtf8;
    let error = command.error(kind, kind);
    Refusal { message: error.to_string(), exit_code: error.exit_code() }
}

/// The program's path as text.
fn show_program(path: Vec<u8>) -> (shown: String)
    ensures
        shown@ == program_text(path@),
{
    let name = paths::name_of(&path);
    if let Some(shown) = text::to_text(path) {
        return shown;
    }
    if let Some(name) = name {
        if let Some(shown) = text::to_text(name) {
            return shown;
        }
    }
    String::new()
}

/// Whether the bytes from `start` on begin with a character.
fn has_character_at(bytes: &Vec<u8>, start: usize) -> (found: bool)
    requires
        start <= bytes@.len(),
    ensures
        found == begins_with_character(bytes@.skip(start as int)),
{
    let ghost rest = bytes@.skip(start as int);
    let mut front: Vec<u8> = Vec::new();
    while front.len() < 4 && front.len() < bytes.len() - start
        invariant
            start <= bytes@.len(),
            rest == bytes@.skip(start as int),
            front@.len() <= rest.len(),
            front@ =~= rest.take(front@.len() as int),
            forall|n: int|
                1 <= n <= front@.len() ==> !vstd::utf8::valid_utf8(#[trigger] rest.take(n)),
        decreases rest.len() - front@.len(),
    {
        front.push(bytes[start + front.len()]);
        assert(front@ =~= rest.take(front@.len() as int));
        if text::to_text(bytes::copy_bytes(&front)).is_some() {
            return true;
        }
    }
    false
}

/// The number of the argument that cannot be read as short options, where it is
/// looked at before the options end.
fn find_unreadable(args: &Vec<Vec<u8>>) -> (found: Option<usize>)
    ensures
        ({
            let all = bytes::contents(args@);
            let end = end_of_options(all, 1);
            match found {
                Some(at) => at == end && 1 <= at < all.len() && is_unreadable(all[end]),
                None => !(end < all.len() && is_unreadable(all[end])),
            }
        }),
{
    let ghost all = bytes::contents(args@);
    let mut i: usize = 1;
    while i < args.len()
        invariant
            1 <= i,
            all == bytes::contents(args@),
            end_of_options(all, 1) == end_of_options(all, i as int),
        decreases args@.len() - i,
    {
        let arg = &args[i];
        assert(all[i as int] == arg@);
        let readable = text::to_text(bytes::copy_bytes(arg));
        if readable.is_none() && arg.len() >= 2 && arg[0] == bytes::HYPHEN && !has_character_at(
            arg,
            1,
        ) {
            return Some(i);
        }
        if arg.len() == 2 && arg[0] == bytes::HYPHEN && arg[1] == bytes::HYPHEN {
            assert(arg@ =~= seq![bytes::HYPHEN, bytes::HYPHEN]);
            return None;
        }
        i += 1;
    }
    None
}

/// The arguments as they are shown, and the number of the first one after the
/// program's name that is not text.
fn to_texts(args: Vec<Vec<u8>>) -> (shown: (Vec<String>, Option<usize>))
    ensures
        texts(shown.0@) == as_texts(bytes::contents(args@)),
        match shown.1 {
            Some(at) => first_non_text(bytes::contents(args@), at as int),
            None => is_text(bytes::contents(args@)),
        },
{
    let ghost all = bytes::contents(args@);
    let mut list: Vec<String> = Vec::new();
    let mut first: Option<usize> = None;
    for arg in it: args
        invariant
            all == bytes::contents(it.seq()),
            list@.len() == it.index(),
            forall|i: int| 0 <= i < it.index() ==> (#[trigger] list@[i])@ == as_texts(all)[i],
            match first {
                Some(at) => first_non_text(all, at as int),
                None => forall|i: int|
                    1 <= i < it.index() ==> vstd::utf8::valid_utf8(#[trigger] all[i]),
            },
    {
        let ghost n = it.index() as int;
        assert(all[n] == arg@);
        if list.len() == 0 {
            list.push(show_program(arg));
        } else {
            let lossy = text::to_lossy_text(&arg);
            match text::to_text(arg) {
                Some(exact) => {
                    list.push(exact);
                },
                None => {
                    if first.is_none() {
                        first = Some(list.len());
                    }
                    list.push(lossy);
                },
            }
        }
    }
    assert(texts(list@) =~= as_texts(all));
    (list, first)
}

/// A copy of the first `count` texts.
fn copy_first(list: &Vec<String>, count: usize) -> (front: Vec<String>)
    requires
        count <= list@.len(),
    ensures
        texts(front@) == texts(list@).take(count as int),
{
    let mut front: Vec<String> = Vec::new();
    let mut i: usize = 0;
    while i < count
        invariant
            i <= count <= list@.len(),
            front@.len() == i,
            forall|j: int| 0 <= j < i ==> (#[trigger] front@[j])@ == list@[j]@,
        decreases count - i,
    {
        front.push(list[i].clone());
        i += 1;
    }
    assert(texts(front@) =~= texts(list@).take(count as int));
    front
}

/// Whether the argument holds the option together with its value.
fn has_attached_value(arg: &String) -> (found: bool)
    ensures
        found == attaches_value(arg@),
{
    let mut start = String::from_str(DASHES);
    start.append(RUN_INSTANCE);
    start.append(ATTACHED);
    text::begins_with(arg.as_str(), start.as_str())
}

/// Whether the argument is an option of the launcher, as far as its beginning
/// shows.
fn is_any_option(arg: &String) -> (found: bool)
    ensures
        found == is_option(arg@),
{
    let help = String::from_str(HELP);
    let mut option = String::from_str(DASHES);
    option.append(RUN_INSTANCE);
    *arg == help || text::begins_with(arg.as_str(), SHORT_HELP) || *arg == option
        || has_attached_value(arg)
}

/// Whether a value given in the argument number `at` is taken before what is
/// wrong with a later argument is found.
pub fn takes_soon(list: &Vec<String>, at: usize) -> (taken: bool)
    requires
        at < list@.len(),
    ensures
        taken == is_taken_soon(texts(list@), at as int),
        taken <==> "--run-instance="@.is_prefix_of(list@[at as int]@) || (at + 1 < list@.len() && (
        list@[at + 1]@ == "--help"@ || "-h"@.is_prefix_of(list@[at + 1]@) || list@[at + 1]@
            == "--run-instance"@ || "--run-instance="@.is_prefix_of(list@[at + 1]@))),
{
    let last = list.len() - 1;
    proof {
        lemma_option_words();
        assert(texts(list@)[at as int] == list@[at as int]@);
    }
    has_attached_value(&list[at]) || (at < last && is_any_option(&list[at + 1]))
}

/// What comes of a command line: `whole` is what was found on it, `taken` is
/// whether its first argument that is not text was taken as a value before
/// anything else was found to be wrong, and `not_text` is how that argument,
/// where there is one, is refused.
pub fn settle(
    whole: Result<Option<String>, Refusal>,
    not_text: Option<Refusal>,
    taken: bool,
) -> (settled: Result<Cli, CliError>)
    ensures
        settled == match (not_text, whole) {
            (None, Ok(run_instance)) => Ok(Cli { run_instance }),
            (None, Err(refusal)) => Err(CliError::Refused(refusal)),
            (Some(not_text), Ok(_)) => Err(CliError::NotUnicode(not_text)),
            (Some(not_text), Err(refusal)) => if taken {
                Err(CliError::NotUnicode(not_text))
            } else {
                Err(CliError::Refused(refusal))
            },
        },
{
    match (not_text, whole) {
        (None, Ok(run_instance)) => Ok(Cli { run_instance }),
        (Some(not_text), Ok(_)) => Err(CliError::NotUnicode(not_text)),
        (Some(not_text), Err(_)) if taken => Err(CliError::NotUnicode(not_text)),
        (_, Err(refusal)) => Err(CliError::Refused(refusal)),
    }
}

/// Reads a command line, the program's name first.
pub fn parse_cli(args: Vec<Vec<u8>>) -> (parsed: Result<Cli, CliError>)
    ensures
        match parsed {
            Ok(cli) => requested(bytes::contents(args@)) == Some(text_of(cli.run_instance)),
            Err(error) => refuses(bytes::contents(args@), error),
        },
        args@.len() <= 1 ==> (parsed matches Ok(cli) && cli.run_instance is None),
        is_text(bytes::contents(args@)) && gives_value(
            as_texts(bytes::contents(args@)),
            RUN_INSTANCE@,
        ) ==> (parsed matches Ok(cli) && text_of(cli.run_instance) == Some(
            vstd::utf8::decode_utf8(args@[2]@),
        )),
        asks_for_help(looked_at(bytes::contents(args@))) ==> (parsed matches Err(
            CliError::Refused(refusal),
        ) && refusal.exit_code == 0),
        args@.len() == 3 && vstd::utf8::valid_utf8(args@[1]@) && vstd::utf8::valid_utf8(args@[2]@)
            && vstd::utf8::decode_utf8(args@[1]@) == "--run-instance"@ && !"-"@.is_prefix_of(
            vstd::utf8::decode_utf8(args@[2]@),
        ) ==> (parsed matches Ok(cli) && cli.run_instance matches Some(name) && name@
            == vstd::utf8::decode_utf8(args@[2]@)),
        args@.len() == 2 && vstd::utf8::valid_utf8(args@[1]@) && "--run-instance="@.is_prefix_of(
            vstd::utf8::decode_utf8(args@[1]@),
        ) ==> (parsed matches Ok(cli) && cli.run_instance matches Some(name)
            && vstd::utf8::decode_utf8(args@[1]@) == "--run-instance="@ + name@),
        args@.len() >= 2 && vstd::utf8::valid_utf8(args@[1]@) && (vstd::utf8::decode_utf8(
            args@[1]@,
        ) == "--help"@ || vstd::utf8::decode_utf8(args@[1]@) == "-h"@) ==> (parsed matches Err(
            CliError::Refused(refusal),
        ) && refusal.exit_code == 0),
        parsed matches Ok(cli) ==> requested(bytes::contents(args@)) == match cli.run_instance {
            Some(name) => Some(Some(name@)),
            None => Some(None),
        },
{
    let ghost all = bytes::contents(args@);
    let unreadable = find_unreadable(&args);
    let (list, first) = to_texts(args);
    proof {
        assert(texts(list@).len() == all.len());
        if all.len() == 3 {
            assert(texts(list@)[2] == as_texts(all)[2]);
            assert(all[2] == args@[2]@);
            assert(all[1] == args@[1]@);
        }
        if all.len() >= 2 {
            assert(texts(list@)[1] == as_texts(all)[1]);
            assert(all[1] == args@[1]@);
            lemma_end_of_options(all, 1);
        }
        lemma_option_words();
    }
    let mut not_text: Option<Refusal> = None;
    let mut taken = false;
    if let Some(at) = first {
        let name = list[0].clone();
        not_text = Some(
            refuse_value(
                PROGRAM,
                RUN_INSTANCE,
                RUN_INSTANCE_VALUE,
                RUN_INSTANCE_HELP,
                name,
            ),
        );
        let count = list.len();
        assert(at + 1 <= count);
        let start = copy_first(&list, at + 1);
        taken = parse_option(
            PROGRAM,
            RUN_INSTANCE,
            RUN_INSTANCE_VALUE,
            RUN_INSTANCE_HELP,
            start,
        ).is_ok() && takes_soon(&list, at);
        proof {
            assert(texts(list@)[0] == name@);
            assert(texts(start@)[1] == texts(list@)[1]);
            assert(taken == is_taken_first(all, at as int));
            assert forall|k: int| #[trigger] first_non_text(all, k) implies k == at by {
                if k < at {
                    assert(vstd::utf8::valid_utf8(all[k]));
                }
                if at < k {
                    assert(vstd::utf8::valid_utf8(all[at as int]));
                }
            }
        }
    }
    let mut list = list;
    if let Some(at) = unreadable {
        let ghost shown = list@;
        list.insert(at, String::from_str(DASHES));
        proof {
            assert(texts(list@) =~= texts(shown).insert(at as int, DASHES@));
            reveal_strlit("--");
            reveal_strlit("--help");
            reveal_strlit("-h");
            assert(at == 1 ==> looked_at(all)[1] == DASHES@);
            assert(DASHES@ != HELP@);
            assert(DASHES@[1] != SHORT_HELP@[1]);
        }
    }
    let whole = parse_option(PROGRAM, RUN_INSTANCE, RUN_INSTANCE_VALUE, RUN_INSTANCE_HELP, list);
    settle(whole, not_text, taken)
}

/// The message that a command line leads to.
pub fn run_cli(cli: Cli) -> (messages: Vec<Message>)
    ensures
        ask_for(messages@, text_of(cli.run_instance)),
        cli.run_instance matches Some(name) ==> messages@ == seq![
            Message::ToBackend(MessageToBackend::StartInstanceByName { name }),
        ],
        cli.run_instance is None ==> messages@ == seq![
            Message::ToFrontend(MessageToFrontend::OpenOrFocusMainWindow),
        ],
{
    let mut messages: Vec<Message> = Vec::new();
    match cli.run_instance {
        Some(name) => {
            messages.push(Message::ToBackend(MessageToBackend::StartInstanceByName { name }));
        },
        None => {
            messages.push(Message::ToFrontend(MessageToFrontend::OpenOrFocusMainWindow));
        },
    }
    messages
}

/// An instance is launched instead of opening the launcher: a command line that
/// names one does not have the main window shown, and one that names none
/// starts nothing.
pub proof fn law_instance_instead_of_window(messages: Seq<Message>, run_instance: Option<Seq<char>>)
    requires
        ask_for(messages, run_instance),
    ensures
        forall|i: int|
            0 <= i < messages.len() ==> ((#[trigger] messages[i] is ToFrontend) <==> run_instance
                is None),
{
}

/// How the options are written out.
proof fn lemma_option_words()
    ensures
        DASHES@ + RUN_INSTANCE@ == "--run-instance"@,
        DASHES@ + RUN_INSTANCE@ + ATTACHED@ == "--run-instance="@,
        HELP@ == "--help"@,
        SHORT_HELP@ == "-h"@,
        DASHES@ == "--"@,
        "--run-instance="@.len() == 15,
        "-"@ == seq!['-'],
        RUN_INSTANCE@ == "run-instance"@,
{
    reveal_strlit("--");
    reveal_strlit("run-instance");
    reveal_strlit("=");
    reveal_strlit("--run-instance");
    reveal_strlit("--run-instance=");
    reveal_strlit("-");
    assert(DASHES@ + RUN_INSTANCE@ =~= "--run-instance"@);
    assert(DASHES@ + RUN_INSTANCE@ + ATTACHED@ =~= "--run-instance="@);
    assert("-"@ =~= seq!['-']);
}

/// The arguments as they were written, behind a program of the given name.
pub open spec fn as_written(name: Seq<char>, args: Seq<Seq<u8>>) -> Seq<Seq<char>> {
    Seq::new(
        args.len(),
        |i: int|
            if i == 0 {
                name
            } else {
                vstd::utf8::decode_utf8(args[i])
            },
    )
}

/// Arguments that are text are taken as they were written, each in its place:
/// nothing is added, left out or changed. What the command line asks for is what
/// is found on exactly these texts.
pub proof fn law_text_is_taken_as_written(args: Seq<Seq<u8>>)
    requires
        forall|i: int| 1 <= i < args.len() ==> vstd::utf8::valid_utf8(#[trigger] args[i]),
    ensures
        looked_at(args).len() == args.len(),
        forall|i: int|
            1 <= i < args.len() ==> looked_at(args)[i] == vstd::utf8::decode_utf8(
                #[trigger] args[i],
            ),
        args.len() > 0 && vstd::utf8::valid_utf8(args[0]) ==> looked_at(args)[0]
            == vstd::utf8::decode_utf8(args[0]),
        args.len() > 0 ==> looked_at(args)[0] == as_texts(args)[0],
        requested(args) == option_value("run-instance"@, as_written(as_texts(args)[0], args)),
{
    let written = as_written(as_texts(args)[0], args);
    lemma_end_of_options(args, 1);
    assert(looked_at(args) == as_texts(args));
    assert(looked_at(args) =~= written);
}

/// An argument that is text is taken as it was written, also among arguments
/// that are not. Those are taken with replacement characters.
pub proof fn law_each_argument_is_taken_by_itself(args: Seq<Seq<u8>>, i: int)
    requires
        1 <= i < args.len(),
    ensures
        as_texts(args).len() == args.len(),
        vstd::utf8::valid_utf8(args[0]) ==> as_texts(args)[0] == vstd::utf8::decode_utf8(args[0]),
        !vstd::utf8::valid_utf8(args[0]) ==> as_texts(args)[0] == match paths::last_name(args[0]) {
            Some(name) => if vstd::utf8::valid_utf8(name) {
                vstd::utf8::decode_utf8(name)
            } else {
                Seq::<char>::empty()
            },
            None => Seq::<char>::empty(),
        },
        vstd::utf8::valid_utf8(args[i]) ==> as_texts(args)[i] == vstd::utf8::decode_utf8(args[i]),
        !vstd::utf8::valid_utf8(args[i]) ==> as_texts(args)[i] == text::lossy_text(args[i]),
{
}

/// Where the options end is at an argument that ends them, or behind the last.
proof fn lemma_end_of_options(args: Seq<Seq<u8>>, from: int)
    requires
        0 <= from,
    ensures
        ({
            let end = end_of_options(args, from);
            &&& end < args.len() ==> from <= end && ends_options(args[end])
            &&& end <= args.len()
            &&& forall|i: int| from <= i < end ==> !ends_options(#[trigger] args[i])
        }),
    decreases args.len() - from,
{
    if from < args.len() && !ends_options(args[from]) {
        lemma_end_of_options(args, from + 1);
    }
}

/// The command line that is looked at is the one that was given, but for one
/// case: before the first argument that begins with a hyphen and goes on with
/// bytes of which no one to four first ones are text, where no argument of just
/// two hyphens comes earlier, an argument of two hyphens is put.
pub proof fn law_what_is_looked_at(args: Seq<Seq<u8>>, at: int)
    requires
        1 <= at < args.len(),
        forall|i: int|
            1 <= i < at ==> args[i] != seq![0x2du8, 0x2d] && {
                ||| vstd::utf8::valid_utf8(#[trigger] args[i])
                ||| args[i].len() < 2
                ||| args[i][0] as char != '-'
                ||| exists|n: int|
                    1 <= n <= 4 && n < args[i].len() && vstd::utf8::valid_utf8(
                        #[trigger] args[i].subrange(1, 1 + n),
                    )
            },
        args[at].len() >= 2,
        args[at][0] as char == '-',
        !vstd::utf8::valid_utf8(args[at]),
        forall|n: int|
            1 <= n <= 4 && n < args[at].len() ==> !vstd::utf8::valid_utf8(
                #[trigger] args[at].subrange(1, 1 + n),
            ),
    ensures
        looked_at(args) == as_texts(args).insert(at, "--"@),
        looked_at(args)[at + 1] == text::lossy_text(args[at]),
{
    lemma_option_words();
    lemma_end_of_options(args, 1);
    let rest = args[at].skip(1);
    assert forall|n: int| 1 <= n <= 4 && n <= rest.len() implies !vstd::utf8::valid_utf8(
        #[trigger] rest.take(n),
    ) by {
        assert(rest.take(n) =~= args[at].subrange(1, 1 + n));
    }
    assert(is_unreadable(args[at]));
    let end = end_of_options(args, 1);
    if end < at {
        let arg = args[end];
        assert(is_unreadable(arg));
        let n = choose|n: int|
            1 <= n <= 4 && n < arg.len() && vstd::utf8::valid_utf8(
                #[trigger] arg.subrange(1, 1 + n),
            );
        assert(arg.skip(1).take(n) =~= arg.subrange(1, 1 + n));
        assert(begins_with_character(arg.skip(1)));
    } else if end > at {
        assert(!ends_options(args[at]));
    }
    assert(end == at);
}

/// The program's name is its path, where the path is text. Where it is not, but
/// what stands behind its last slash is and is a name, it is that name.
pub proof fn law_the_program_is_named(dir: Seq<u8>, name: Seq<u8>, rest: Seq<Seq<u8>>)
    requires
        forall|i: int| 0 <= i < name.len() ==> #[trigger] name[i] != 0x2f,
        name.len() > 0,
        name != seq![0x2eu8],
        name != seq![0x2eu8, 0x2e],
    ensures
        ({
            let path = dir + seq![0x2fu8] + name;
            let shown = as_texts(seq![path] + rest)[0];
            &&& vstd::utf8::valid_utf8(path) ==> shown == vstd::utf8::decode_utf8(path)
            &&& !vstd::utf8::valid_utf8(path) && vstd::utf8::valid_utf8(name) ==> shown
                == vstd::utf8::decode_utf8(name)
            &&& !vstd::utf8::valid_utf8(path) && !vstd::utf8::valid_utf8(name) ==> shown.len() == 0
        }),
{
    let path = dir + seq![0x2fu8] + name;
    assert((seq![path] + rest)[0] == path);
    paths::law_name_behind_the_last_slash(dir, name);
}

/// Why a command line of texts is refused: nothing is found on it, and the words
/// and the exit code are those for exactly these texts.
pub proof fn law_refused_texts(args: Seq<Seq<u8>>, error: CliError)
    requires
        forall|i: int| 1 <= i < args.len() ==> vstd::utf8::valid_utf8(#[trigger] args[i]),
        refuses(args, error),
    ensures
        ({
            let written = as_written(as_texts(args)[0], args);
            &&& option_value("run-instance"@, written) is None
            &&& error matches CliError::Refused(refusal)
            &&& refusal.message@ == refusal_text(
                "pandora_launcher"@,
                "run-instance"@,
                "RUN_INSTANCE"@,
                "Instance to launch, instead of opening the launcher"@,
                written,
            )
            &&& refusal.exit_code == refusal_code("run-instance"@, written)
            &&& refusal.exit_code == 0 || refusal.exit_code == 2
        }),
{
    let written = as_written(as_texts(args)[0], args);
    law_text_is_taken_as_written(args);
    assert(looked_at(args) =~= written);
}

/// When a value that is not text is blamed. It has to be there, and then it is
/// blamed where nothing else is wrong, or where the command line up to it is one
/// of the launcher and either the value stands in the option's own argument or
/// an option comes next.
pub proof fn law_when_a_value_is_blamed(args: Seq<Seq<u8>>, error: CliError, at: int)
    requires
        refuses(args, error),
        1 <= at < args.len(),
        !vstd::utf8::valid_utf8(args[at]),
        forall|i: int| 1 <= i < at ==> vstd::utf8::valid_utf8(#[trigger] args[i]),
    ensures
        ({
            let shown = as_texts(args);
            let sound = option_value("run-instance"@, looked_at(args)) is Some;
            let sound_so_far = option_value("run-instance"@, shown.take(at + 1)) is Some;
            let attached = "--run-instance="@.is_prefix_of(shown[at]);
            let option_next = at + 1 < args.len() && (shown[at + 1] == "--help"@
                || "-h"@.is_prefix_of(shown[at + 1]) || shown[at + 1] == "--run-instance"@
                || "--run-instance="@.is_prefix_of(shown[at + 1]));
            &&& error is NotUnicode <==> sound || (sound_so_far && (attached || option_next))
            &&& error matches CliError::NotUnicode(refusal) ==> refusal.exit_code == 2
                && refusal.message@ == not_unicode_text(
                "pandora_launcher"@,
                "run-instance"@,
                "RUN_INSTANCE"@,
                "Instance to launch, instead of opening the launcher"@,
                shown[0],
            )
            &&& error matches CliError::Refused(refusal) ==> refusal.exit_code == refusal_code(
                "run-instance"@,
                looked_at(args),
            ) && refusal.message@ == refusal_text(
                "pandora_launcher"@,
                "run-instance"@,
                "RUN_INSTANCE"@,
                "Instance to launch, instead of opening the launcher"@,
                looked_at(args),
            )
            &&& requested(args) is None
        }),
{
    lemma_option_words();
    assert(first_non_text(args, at));
    assert forall|k: int| #[trigger] first_non_text(args, k) implies k == at by {
        if k < at {
            assert(vstd::utf8::valid_utf8(args[k]));
        }
        if at < k {
            assert(vstd::utf8::valid_utf8(args[at]));
        }
    }
    assert(value_fails_first(args) <==> is_taken_first(args, at));
}

/// Nothing is put before any other argument. The command line that is looked at
/// is the one that was given where each argument, up to one of just two hyphens
/// or up to the last, is text, does not begin with a hyphen, is shorter than two
/// bytes, or goes on behind the hyphen with one to four bytes that are text.
pub proof fn law_nothing_else_is_put_in(args: Seq<Seq<u8>>, at: int)
    requires
        1 <= at <= args.len(),
        at < args.len() ==> args[at] == seq![0x2du8, 0x2d],
        forall|i: int|
            1 <= i < at ==> {
                ||| vstd::utf8::valid_utf8(#[trigger] args[i])
                ||| args[i].len() < 2
                ||| args[i][0] as char != '-'
                ||| exists|n: int|
                    1 <= n <= 4 && n < args[i].len() && vstd::utf8::valid_utf8(
                        #[trigger] args[i].subrange(1, 1 + n),
                    )
            },
    ensures
        looked_at(args) == as_texts(args),
{
    lemma_end_of_options(args, 1);
    let end = end_of_options(args, 1);
    if end < args.len() && is_unreadable(args[end]) {
        if end < at {
            let arg = args[end];
            let n = choose|n: int|
                1 <= n <= 4 && n < arg.len() && vstd::utf8::valid_utf8(
                    #[trigger] arg.subrange(1, 1 + n),
                );
            assert(arg.skip(1).take(n) =~= arg.subrange(1, 1 + n));
            assert(begins_with_character(arg.skip(1)));
        } else if end > at {
            assert(ends_options(args[at]));
        } else {
            let hyphen = args[at].skip(1);
            assert(hyphen =~= seq![0x2du8]);
            lemma_hyphen_is_text();
            assert(hyphen.take(1) =~= hyphen);
            assert(begins_with_character(hyphen));
        }
    }
}

/// A hyphen is text.
proof fn lemma_hyphen_is_text()
    ensures
        vstd::utf8::valid_utf8(seq![0x2du8]),
{
    let text = seq!['-'];
    vstd::utf8::is_ascii_chars_encode_utf8(text);
    let bytes = vstd::utf8::encode_utf8(text);
    assert(text[0] as u8 == bytes[0]);
    assert(bytes =~= seq![0x2du8]);
    vstd::utf8::encode_utf8_valid_utf8(text);
}

} // verus!
