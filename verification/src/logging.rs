//! What the launcher logs, and how a logged line looks.

use vstd::prelude::*;

verus! {

/// How important a message is.
#[derive(Clone, Copy, Debug, PartialEq, Eq, Structural)]
pub enum LogLevel {
    Error,
    Warn,
    Info,
    Debug,
    Trace,
}

/// How important a message has to be to be logged.
#[derive(Clone, Copy, Debug, PartialEq, Eq, Structural)]
pub enum LogFilter {
    /// Nothing is logged.
    Off,
    Error,
    Warn,
    Info,
    Debug,
    Trace,
}

/// The colors of the lines on the terminal.
#[derive(Clone, Copy, Debug, PartialEq, Eq, Structural)]
pub enum LineColor {
    Red,
    Yellow,
    White,
    BrightWhite,
}

/// What is logged of one part of the program.
#[derive(Clone, Copy)]
pub struct TargetFilter {
    pub target: &'static str,
    pub filter: LogFilter,
}

/// What is logged of the whole program.
pub struct LogFilters {
    /// The parts that have filters of their own.
    pub targets: Vec<TargetFilter>,
    /// The filter of all other parts.
    pub others: LogFilter,
}

/// What is logged of the launcher's own parts.
pub const LAUNCHER_LEVEL: LogFilter = LogFilter::Debug;

/// The color of the lines of ordinary messages.
pub const INFO_COLOR: LineColor = LineColor::BrightWhite;

/// The first second that cannot be shown, counted from the start of 1970: the
/// start of the year 10000.
pub const END_OF_TIME: u64 = 253_402_300_800;

/// How a level is named in a line.
pub open spec fn level_text(level: LogLevel) -> Seq<char> {
    match level {
        LogLevel::Error => "ERROR"@,
        LogLevel::Warn => "WARN"@,
        LogLevel::Info => "INFO"@,
        LogLevel::Debug => "DEBUG"@,
        LogLevel::Trace => "TRACE"@,
    }
}

/// The color of the lines of a level, where ordinary messages have the color
/// `info`.
pub open spec fn level_color(level: LogLevel, info: LineColor) -> LineColor {
    match level {
        LogLevel::Error => LineColor::Red,
        LogLevel::Warn => LineColor::Yellow,
        LogLevel::Info => info,
        LogLevel::Debug => LineColor::White,
        LogLevel::Trace => LineColor::White,
    }
}

/// The number that stands for a color in a terminal's control sequence.
pub open spec fn color_text(color: LineColor) -> Seq<char> {
    match color {
        LineColor::Red => "31"@,
        LineColor::Yellow => "33"@,
        LineColor::White => "37"@,
        LineColor::BrightWhite => "97"@,
    }
}

/// What `humantime::format_rfc3339_seconds` writes for the moment this many
/// seconds after the start of 1970.
pub uninterp spec fn rfc3339_text(seconds: u64) -> Seq<char>;

/// A line in the log file.
pub open spec fn file_text(
    time: Seq<char>,
    level: LogLevel,
    target: Seq<char>,
    message: Seq<char>,
) -> Seq<char> {
    "["@ + time + " "@ + level_text(level) + " "@ + target + "] "@ + message
}

/// The control sequence for the color of a level.
pub open spec fn color_start(level: LogLevel) -> Seq<char> {
    "\x1B["@ + color_text(level_color(level, INFO_COLOR)) + "m"@
}

/// A line on the terminal.
pub open spec fn terminal_text(
    time: Seq<char>,
    level: LogLevel,
    target: Seq<char>,
    message: Seq<char>,
) -> Seq<char> {
    color_start(level) + "["@ + time + " "@ + level_text(level) + " "@ + target + color_start(level)
        + "] "@ + message + "\x1B[0m"@
}

/// Calls `log::Level::as_str`, which gives a level's name in capital letters.
#[verifier::external_body]
fn level_name(level: LogLevel) -> (name: &'static str)
    ensures
        name@ == level_text(level),
{
    match level {
        LogLevel::Error => log::Level::Error.as_str(),
        LogLevel::Warn => log::Level::Warn.as_str(),
        LogLevel::Info => log::Level::Info.as_str(),
        LogLevel::Debug => log::Level::Debug.as_str(),
        LogLevel::Trace => log::Level::Trace.as_str(),
    }
}

/// Takes `fern`'s default colors with another one for ordinary messages, as
/// `ColoredLevelConfig::new` and `info` give them, and asks `get_color` for a
/// level's color and `Color::to_fg_str` for the color's number. By default
/// errors are red, warnings yellow and all other messages white.
#[verifier::external_body]
fn color_number(level: LogLevel, info: LineColor) -> (number: String)
    ensures
        number@ == color_text(level_color(level, info)),
{
    let level = match level {
        LogLevel::Error => log::Level::Error, LogLevel::Warn => log::Level::Warn,
        LogLevel::Info => log::Level::Info, LogLevel::Debug => log::Level::Debug,
        LogLevel::Trace => log::Level::Trace,
    };
    let info = match info {
        LineColor::Red => fern::colors::Color::Red,
        LineColor::Yellow => fern::colors::Color::Yellow,
        LineColor::White => fern::colors::Color::White,
        LineColor::BrightWhite => fern::colors::Color::BrightWhite,
    };
    let colors = fern::colors::ColoredLevelConfig::new().info(info);
    colors.get_color(&level).to_fg_str().into_owned()
}

/// Calls `humantime::format_rfc3339_seconds` and writes what it gives, which is
/// the moment in UTC, whatever the machine's time zone. From the year 10000 on
/// it gives nothing that could be written.
#[verifier::external_body]
fn rfc3339(seconds: u64) -> (text: String)
    requires
        seconds < END_OF_TIME,
    ensures
        text@ == rfc3339_text(seconds),
{
    let since = std::time::Duration::from_secs(seconds);
    humantime::format_rfc3339_seconds(std::time::UNIX_EPOCH + since).to_string()
}

/// The filter is the one of the target of that name.
pub open spec fn has_filter(filters: LogFilters, target: Seq<char>, filter: LogFilter) -> bool {
    exists|i: int|
        0 <= i < filters.targets@.len() && (#[trigger] filters.targets@[i]).target@ == target
            && filters.targets@[i].filter == filter
}

/// The name is that of one of the launcher's own parts.
pub open spec fn is_own_part(target: Seq<char>) -> bool {
    ||| target == "pandora_launcher"@
    ||| target == "auth"@
    ||| target == "backend"@
    ||| target == "frontend"@
    ||| target == "bridge"@
    ||| target == "command"@
}

/// The filters are those with which the launcher's own parts are logged from
/// `level` on.
pub open spec fn are_for(filters: LogFilters, level: LogFilter) -> bool {
    &&& forall|target: Seq<char>| #[trigger]
        is_own_part(target) ==> has_filter(filters, target, level)
    &&& has_filter(filters, "gpui_component::text"@, LogFilter::Off)
    &&& forall|i: int|
        0 <= i < filters.targets@.len() ==> is_own_part((#[trigger] filters.targets@[i]).target@)
            && filters.targets@[i].filter == level || (filters.targets@[i].target@
            == "gpui_component::text"@ && filters.targets@[i].filter is Off)
    &&& filters.others is Warn
}

/// What is logged: the launcher's own parts as `level` says, nothing of the
/// text widgets, and warnings and errors of everything else.
pub fn log_filters(level: LogFilter) -> (filters: LogFilters)
    ensures
        filters.targets@.len() == 7,
        filters.targets@[0].target@ == "pandora_launcher"@,
        filters.targets@[1].target@ == "auth"@,
        filters.targets@[2].target@ == "backend"@,
        filters.targets@[3].target@ == "frontend"@,
        filters.targets@[4].target@ == "bridge"@,
        filters.targets@[5].target@ == "command"@,
        filters.targets@[6].target@ == "gpui_component::text"@,
        forall|i: int| 0 <= i < 6 ==> (#[trigger] filters.targets@[i]).filter == level,
        filters.targets@[6].filter == LogFilter::Off,
        filters.others == LogFilter::Warn,
        are_for(filters, level),
{
    let mut targets: Vec<TargetFilter> = Vec::new();
    targets.push(TargetFilter { target: "pandora_launcher", filter: level });
    targets.push(TargetFilter { target: "auth", filter: level });
    targets.push(TargetFilter { target: "backend", filter: level });
    targets.push(TargetFilter { target: "frontend", filter: level });
    targets.push(TargetFilter { target: "bridge", filter: level });
    targets.push(TargetFilter { target: "command", filter: level });
    targets.push(TargetFilter { target: "gpui_component::text", filter: LogFilter::Off });
    let filters = LogFilters { targets, others: LogFilter::Warn };
    assert(are_for(filters, level)) by {
        assert(filters.targets@[0].target@ == "pandora_launcher"@);
        assert(filters.targets@[1].target@ == "auth"@);
        assert(filters.targets@[2].target@ == "backend"@);
        assert(filters.targets@[3].target@ == "frontend"@);
        assert(filters.targets@[4].target@ == "bridge"@);
        assert(filters.targets@[5].target@ == "command"@);
        assert(filters.targets@[6].target@ == "gpui_component::text"@);
    }
    filters
}

/// A moment as text, given in seconds after the start of 1970, or nothing where
/// it lies beyond the year 9999.
pub fn timestamp(seconds: u64) -> (text: Option<String>)
    ensures
        text is Some <==> seconds < END_OF_TIME,
        text matches Some(text) ==> text@ == rfc3339_text(seconds),
{
    if seconds < END_OF_TIME {
        Some(rfc3339(seconds))
    } else {
        None
    }
}

/// A line for the log file, with the time already as text.
pub fn format_file_line(time: &str, level: LogLevel, target: &str, message: &str) -> (line: String)
    ensures
        line@ == file_text(time@, level, target@, message@),
{
    let mut line = String::from_str("[");
    line.append(time);
    line.append(" ");
    line.append(level_name(level));
    line.append(" ");
    line.append(target);
    line.append("] ");
    line.append(message);
    line
}

/// A line for the terminal, with the time already as text.
pub fn format_terminal_line(time: &str, level: LogLevel, target: &str, message: &str) -> (line:
    String)
    ensures
        line@ == terminal_text(time@, level, target@, message@),
{
    let mut start = String::from_str("\x1B[");
    let number = color_number(level, INFO_COLOR);
    start.append(number.as_str());
    start.append("m");
    let mut line = start.clone();
    line.append("[");
    line.append(time);
    line.append(" ");
    line.append(level_name(level));
    line.append(" ");
    line.append(target);
    line.append(start.as_str());
    line.append("] ");
    line.append(message);
    line.append("\x1B[0m");
    line
}

/// A line for the log file, with the time in seconds after the start of 1970,
/// or nothing where the time cannot be shown.
pub fn file_line(seconds: u64, level: LogLevel, target: &str, message: &str) -> (line: Option<
    String,
>)
    ensures
        line is Some <==> seconds < END_OF_TIME,
        line matches Some(line) ==> line@ == file_text(
            rfc3339_text(seconds),
            level,
            target@,
            message@,
        ),
{
    match timestamp(seconds) {
        Some(time) => Some(format_file_line(time.as_str(), level, target, message)),
        None => None,
    }
}

/// A line for the terminal, with the time in seconds after the start of 1970,
/// or nothing where the time cannot be shown.
pub fn terminal_line(seconds: u64, level: LogLevel, target: &str, message: &str) -> (line: Option<
    String,
>)
    ensures
        line is Some <==> seconds < END_OF_TIME,
        line matches Some(line) ==> line@ == terminal_text(
            rfc3339_text(seconds),
            level,
            target@,
            message@,
        ),
{
    match timestamp(seconds) {
        Some(time) => Some(format_terminal_line(time.as_str(), level, target, message)),
        None => None,
    }
}

/// A line on the terminal is the line in the log file with its color set before
/// the line and again before the bracket is closed, and reset at the end.
pub proof fn law_terminal_line_is_the_file_line_in_color(
    time: Seq<char>,
    level: LogLevel,
    target: Seq<char>,
    message: Seq<char>,
)
    ensures
        ({
            let head = "["@ + time + " "@ + level_text(level) + " "@ + target;
            let rest = "] "@ + message;
            &&& file_text(time, level, target, message) == head + rest
            &&& terminal_text(time, level, target, message) == color_start(level) + head
                + color_start(level) + rest + "\x1B[0m"@
        }),
{
    let head = "["@ + time + " "@ + level_text(level) + " "@ + target;
    let rest = "] "@ + message;
    assert(file_text(time, level, target, message) =~= head + rest);
    assert(terminal_text(time, level, target, message) =~= color_start(level) + head + color_start(
        level,
    ) + rest + "\x1B[0m"@);
}

/// The color of a line is set with the color's number: errors are red, warnings
/// yellow, ordinary messages bright white and all others white.
pub proof fn law_colors_of_the_levels(level: LogLevel)
    ensures
        color_start(level) == match level {
            LogLevel::Error => "\x1B[31m"@,
            LogLevel::Warn => "\x1B[33m"@,
            LogLevel::Info => "\x1B[97m"@,
            LogLevel::Debug => "\x1B[37m"@,
            LogLevel::Trace => "\x1B[37m"@,
        },
{
    reveal_strlit("\x1B[");
    reveal_strlit("m");
    reveal_strlit("31");
    reveal_strlit("33");
    reveal_strlit("97");
    reveal_strlit("37");
    reveal_strlit("\x1B[31m");
    reveal_strlit("\x1B[33m");
    reveal_strlit("\x1B[97m");
    reveal_strlit("\x1B[37m");
    assert(color_start(level) =~= match level {
        LogLevel::Error => "\x1B[31m"@,
        LogLevel::Warn => "\x1B[33m"@,
        LogLevel::Info => "\x1B[97m"@,
        LogLevel::Debug => "\x1B[37m"@,
        LogLevel::Trace => "\x1B[37m"@,
    });
}

/// A line in the log file holds the time, the level's name, the target and the
/// message, all of them in full: the message is its end, and what stands before
/// it does not depend on the message.
pub proof fn law_a_line_holds_all_its_parts(
    time: Seq<char>,
    level: LogLevel,
    target: Seq<char>,
    message: Seq<char>,
)
    ensures
        ({
            let line = file_text(time, level, target, message);
            let name = match level {
                LogLevel::Error => "ERROR"@,
                LogLevel::Warn => "WARN"@,
                LogLevel::Info => "INFO"@,
                LogLevel::Debug => "DEBUG"@,
                LogLevel::Trace => "TRACE"@,
            };
            let a = 1 + time.len() as int;
            let b = a + 1 + name.len();
            let c = b + 1 + target.len();
            &&& line.len() == c + 2 + message.len()
            &&& line[0] == '['
            &&& line.subrange(1, a) == time
            &&& line[a] == ' '
            &&& line.subrange(a + 1, b) == name
            &&& line[b] == ' '
            &&& line.subrange(b + 1, c) == target
            &&& line[c] == ']'
            &&& line[c + 1] == ' '
            &&& line.skip(c + 2) == message
        }),
{
    reveal_strlit("[");
    reveal_strlit(" ");
    reveal_strlit("] ");
    let line = file_text(time, level, target, message);
    let name = level_text(level);
    let a = 1 + time.len() as int;
    let b = a + 1 + name.len();
    let c = b + 1 + target.len();
    assert(line.subrange(1, a) =~= time);
    assert(line.subrange(a + 1, b) =~= name);
    assert(line.subrange(b + 1, c) =~= target);
    assert(line.skip(c + 2) =~= message);
}

/// The level decides over the launcher's own parts and nothing else: filters for
/// two levels differ in these parts only, each of which has the level that was
/// asked for, whatever it is.
pub proof fn law_the_level_decides_over_the_own_parts(
    a: LogFilters,
    b: LogFilters,
    level: LogFilter,
    other: LogFilter,
    target: Seq<char>,
    filter: LogFilter,
)
    requires
        are_for(a, level),
        are_for(b, other),
    ensures
        target == "pandora_launcher"@ || target == "auth"@ || target == "backend"@ || target
            == "frontend"@ || target == "bridge"@ || target == "command"@ ==> has_filter(
            a,
            target,
            level,
        ) && (has_filter(a, target, filter) ==> filter == level || target
            == "gpui_component::text"@),
        has_filter(a, "gpui_component::text"@, LogFilter::Off),
        !(target == "pandora_launcher"@ || target == "auth"@ || target == "backend"@ || target
            == "frontend"@ || target == "bridge"@ || target == "command"@) ==> (has_filter(
            a,
            target,
            filter,
        ) <==> has_filter(b, target, filter)),
        a.others == LogFilter::Warn,
        b.others == LogFilter::Warn,
{
    assert(is_own_part(target) ==> has_filter(a, target, level));
    if !is_own_part(target) {
        if has_filter(a, target, filter) {
            assert(has_filter(b, "gpui_component::text"@, LogFilter::Off));
        }
        if has_filter(b, target, filter) {
            assert(has_filter(a, "gpui_component::text"@, LogFilter::Off));
        }
    }
}

} // verus!
