use pandora_launcher::logging::{
    file_line, format_file_line, format_terminal_line, log_filters, terminal_line, timestamp,
    LogFilter, LogLevel, LAUNCHER_LEVEL,
};

const LEVELS: [(LogLevel, &str, &str); 5] = [
    (LogLevel::Error, "ERROR", "31"),
    (LogLevel::Warn, "WARN", "33"),
    (LogLevel::Info, "INFO", "97"),
    (LogLevel::Debug, "DEBUG", "37"),
    (LogLevel::Trace, "TRACE", "37"),
];

#[test]
fn moments_are_written_in_utc() {
    assert_eq!(timestamp(0).as_deref(), Some("1970-01-01T00:00:00Z"));
    assert_eq!(timestamp(1_518_567_287).as_deref(), Some("2018-02-14T00:14:47Z"));
    assert_eq!(timestamp(951_782_400).as_deref(), Some("2000-02-29T00:00:00Z"));
    assert_eq!(timestamp(253_402_300_799).as_deref(), Some("9999-12-31T23:59:59Z"));
    assert!(timestamp(253_402_300_800).is_none());
    assert!(timestamp(u64::MAX).is_none());
}

#[test]
fn a_file_line_holds_time_level_target_and_message() {
    for (level, name, _) in LEVELS {
        assert_eq!(
            format_file_line("now", level, "backend", "hello"),
            format!("[now {name} backend] hello")
        );
    }
}

#[test]
fn a_terminal_line_is_colored_by_its_level() {
    for (level, name, color) in LEVELS {
        assert_eq!(
            format_terminal_line("now", level, "backend", "hello"),
            format!("\x1B[{color}m[now {name} backend\x1B[{color}m] hello\x1B[0m")
        );
    }
}

#[test]
fn a_terminal_line_without_color_is_the_file_line() {
    for (level, _, color) in LEVELS {
        let line = format_terminal_line("t", level, "auth", "m");
        let plain = line.replace(&format!("\x1B[{color}m"), "").replace("\x1B[0m", "");
        assert_eq!(plain, format_file_line("t", level, "auth", "m"));
    }
}

#[test]
fn lines_are_made_with_the_time_in_seconds() {
    assert_eq!(
        file_line(0, LogLevel::Info, "auth", "in").as_deref(),
        Some("[1970-01-01T00:00:00Z INFO auth] in")
    );
    assert_eq!(
        terminal_line(0, LogLevel::Error, "auth", "in").as_deref(),
        Some("\x1B[31m[1970-01-01T00:00:00Z ERROR auth\x1B[31m] in\x1B[0m")
    );
    assert!(file_line(253_402_300_800, LogLevel::Info, "auth", "in").is_none());
    assert!(terminal_line(253_402_300_800, LogLevel::Info, "auth", "in").is_none());
}

#[test]
fn the_launchers_parts_have_their_own_filters() {
    assert_eq!(LAUNCHER_LEVEL, LogFilter::Debug);
    let filters = log_filters(LAUNCHER_LEVEL);
    let found: Vec<(&str, LogFilter)> =
        filters.targets.iter().map(|t| (t.target, t.filter)).collect();
    assert_eq!(
        found,
        vec![
            ("pandora_launcher", LogFilter::Debug),
            ("auth", LogFilter::Debug),
            ("backend", LogFilter::Debug),
            ("frontend", LogFilter::Debug),
            ("bridge", LogFilter::Debug),
            ("command", LogFilter::Debug),
            ("gpui_component::text", LogFilter::Off),
        ]
    );
    assert_eq!(filters.others, LogFilter::Warn);
}
