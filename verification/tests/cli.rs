use pandora_launcher::cli::{
    parse_cli, run_cli, settle, takes_soon, Cli, CliError, Message, MessageToBackend,
    MessageToFrontend, Refusal,
};

fn args(list: &[&str]) -> Vec<Vec<u8>> {
    list.iter().map(|arg| arg.as_bytes().to_vec()).collect()
}

fn instance(list: &[&str]) -> Option<String> {
    match parse_cli(args(list)) {
        Ok(cli) => cli.run_instance,
        Err(_) => panic!("refused"),
    }
}

fn refusal(list: &[&[u8]]) -> CliError {
    match parse_cli(list.iter().map(|arg| arg.to_vec()).collect()) {
        Ok(_) => panic!("not refused"),
        Err(error) => error,
    }
}

fn exit_code(list: &[&str]) -> i32 {
    match parse_cli(args(list)) {
        Err(CliError::Refused(refusal)) => refusal.exit_code,
        _ => panic!("not refused"),
    }
}

#[test]
fn a_command_line_without_arguments_names_no_instance() {
    assert_eq!(instance(&["launcher"]), None);
    assert_eq!(instance(&[]), None);
}

#[test]
fn an_instance_can_be_named() {
    assert_eq!(instance(&["launcher", "--run-instance", "My World"]).as_deref(), Some("My World"));
    assert_eq!(instance(&["launcher", "--run-instance=a=b"]).as_deref(), Some("a=b"));
    assert_eq!(instance(&["launcher", "--run-instance", ""]).as_deref(), Some(""));
}

#[test]
fn other_arguments_are_refused() {
    assert_eq!(exit_code(&["launcher", "--unknown"]), 2);
    assert_eq!(exit_code(&["launcher", "stray"]), 2);
    assert_eq!(exit_code(&["launcher", "--run-instance"]), 2);
    assert_eq!(exit_code(&["launcher", "--run-instance", "-x"]), 2);
    assert_eq!(exit_code(&["launcher", "--run-instance", "a", "--run-instance", "b"]), 2);
}

#[test]
fn help_is_shown_with_the_option() {
    match parse_cli(args(&["launcher", "--help"])) {
        Err(CliError::Refused(refusal)) => {
            assert_eq!(refusal.exit_code, 0);
            assert!(refusal.message.contains("--run-instance <RUN_INSTANCE>"));
            assert!(refusal
                .message
                .contains("Instance to launch, instead of opening the launcher"));
        }
        _ => panic!("not refused"),
    }
}

#[test]
fn arguments_that_are_not_text_are_refused() {
    let value = refusal(&[b"launcher", b"--run-instance", b"\xff\xfe"]);
    assert!(matches!(value, CliError::NotUnicode(refusal) if refusal.exit_code == 2));
    let attached = refusal(&[b"launcher", b"--run-instance=a\xff"]);
    assert!(matches!(attached, CliError::NotUnicode(refusal) if refusal.exit_code == 2));
    let stray = refusal(&[b"launcher", b"\xff\xfe"]);
    assert!(matches!(stray, CliError::Refused(refusal) if refusal.exit_code == 2));
    let help = refusal(&[b"launcher", b"--help", b"\xff"]);
    assert!(matches!(help, CliError::Refused(refusal) if refusal.exit_code == 0));
    let named = parse_cli(vec![vec![0xff], b"--run-instance".to_vec(), b"x".to_vec()]);
    assert!(matches!(named, Ok(Cli { run_instance: Some(name) }) if name == "x"));
}

#[test]
fn a_value_that_is_not_text_is_found_when_it_is_taken() {
    let option: &[u8] = b"--run-instance";
    for next in [&b"--help"[..], b"-h", b"-hx", b"--run-instance", b"--run-instance=x", b"--"] {
        let error = refusal(&[b"launcher", option, b"\xff", next]);
        assert!(matches!(error, CliError::NotUnicode(_)));
    }
    for next in [&b"--unknown"[..], b"stray", b"--help=x", b"-x"] {
        let error = refusal(&[b"launcher", option, b"\xff", next]);
        assert!(matches!(error, CliError::Refused(refusal) if refusal.exit_code == 2));
        let error = refusal(&[b"launcher", b"--run-instance=\xff", next]);
        assert!(matches!(error, CliError::NotUnicode(_)));
    }
    let error = refusal(&[b"launcher", b"--unknown", option, b"\xff", b"--help"]);
    assert!(matches!(error, CliError::Refused(refusal) if refusal.exit_code == 2));
}

#[test]
fn a_value_is_taken_at_once_or_when_an_option_comes_next() {
    let taken = |list: &[&str], at: usize| {
        takes_soon(&list.iter().map(|arg| arg.to_string()).collect(), at)
    };
    assert!(taken(&["launcher", "--run-instance=x", "stray"], 1));
    assert!(taken(&["launcher", "--run-instance", "x", "--run-instance"], 2));
    assert!(taken(&["launcher", "--run-instance", "x", "--run-instance=y"], 2));
    assert!(taken(&["launcher", "--run-instance", "x", "-hy"], 2));
    assert!(!taken(&["launcher", "--run-instance", "x"], 2));
    assert!(!taken(&["launcher", "--run-instance", "x", "--helpful"], 2));
    assert!(!taken(&["launcher", "--run-instance", "x", "--run-instances"], 2));
    assert!(!taken(&["launcher", "--run-instance", "x", "-"], 2));
}

#[test]
fn what_was_found_decides_what_comes_of_a_command_line() {
    let refusal = |exit_code: i32| Refusal { message: "no".to_string(), exit_code };
    let value = || Ok(Some("x".to_string()));
    assert!(matches!(
        settle(value(), None, false),
        Ok(Cli { run_instance: Some(name) }) if name == "x"
    ));
    assert!(matches!(
        settle(Err(refusal(0)), None, false),
        Err(CliError::Refused(refusal)) if refusal.exit_code == 0
    ));
    assert!(matches!(
        settle(value(), Some(refusal(2)), false),
        Err(CliError::NotUnicode(refusal)) if refusal.exit_code == 2
    ));
    assert!(matches!(
        settle(Err(refusal(0)), Some(refusal(2)), true),
        Err(CliError::NotUnicode(refusal)) if refusal.exit_code == 2
    ));
    assert!(matches!(
        settle(Err(refusal(0)), Some(refusal(2)), false),
        Err(CliError::Refused(refusal)) if refusal.exit_code == 0
    ));
}

#[test]
fn a_refusal_says_what_is_wrong() {
    match refusal(&[b"dir/launcher", b"--unknown"]) {
        CliError::Refused(refusal) => assert_eq!(
            refusal.message,
            "error: unexpected argument '--unknown' found\n\n\
             Usage: launcher [OPTIONS]\n\n\
             For more information, try '--help'.\n"
        ),
        _ => panic!("refused for another reason"),
    }
    match refusal(&[b"dir/launcher", b"--run-instance=\xff"]) {
        CliError::NotUnicode(refusal) => assert_eq!(
            refusal.message,
            "error: invalid UTF-8 was detected in one or more arguments\n\n\
             Usage: launcher [OPTIONS]\n\n\
             For more information, try '--help'.\n"
        ),
        _ => panic!("refused for another reason"),
    }
}

fn refusal_words(list: &[&[u8]]) -> String {
    match refusal(list) {
        CliError::Refused(refusal) => refusal.message,
        CliError::NotUnicode(_) => panic!("refused for another reason"),
    }
}

fn unexpected(name: &str, arg: &str) -> String {
    format!(
        "error: unexpected argument '{arg}' found\n\n\
         Usage: {name} [OPTIONS]\n\n\
         For more information, try '--help'.\n"
    )
}

#[test]
fn the_program_is_named_by_its_file() {
    for (path, name) in [
        (&b"/opt/pandora"[..], "pandora"),
        (b"/home/\xff/pandora", "pandora"),
        (b"/home/\xff/pandora/./", "pandora"),
        (b"/home/\xff", "pandora_launcher"),
        (b"/home/\xff/..", "pandora_launcher"),
        (b"", "pandora_launcher"),
    ] {
        assert_eq!(refusal_words(&[path, b"stray"]), unexpected(name, "stray"));
    }
    match refusal(&[b"/home/\xff/pandora", b"--run-instance=\xff"]) {
        CliError::NotUnicode(refusal) => {
            assert!(refusal.message.contains("\nUsage: pandora [OPTIONS]\n"));
        }
        _ => panic!("refused for another reason"),
    }
}

#[test]
fn an_argument_that_cannot_be_read_is_named_as_a_whole() {
    let option: &[u8] = b"--run-instance";
    for (arg, shown) in [
        (&b"-\xffh"[..], "-\u{fffd}h"),
        (b"-\xe2\x82abc", "-\u{fffd}abc"),
        (b"-\xff", "-\u{fffd}"),
        (b"-a\xffh", "-a"),
    ] {
        let words = unexpected("launcher", shown);
        assert_eq!(refusal_words(&[b"launcher", arg]), words);
        assert_eq!(refusal_words(&[b"launcher", arg, b"-\xff", b"--help"]), words);
        assert_eq!(refusal_words(&[b"launcher", option, arg]), words);
        assert_eq!(refusal_words(&[b"launcher", option, b"x", arg]), words);
        assert_eq!(refusal_words(&[b"launcher", option, b"\xff", arg]), words);
    }
    assert_eq!(
        refusal_words(&[b"launcher", b"--", b"-\xffh"]),
        unexpected("launcher", "-\u{fffd}h")
    );
    assert_eq!(
        refusal_words(&[b"launcher", b"stray", b"-\xffh"]),
        unexpected("launcher", "stray")
    );
    assert_eq!(
        refusal_words(&[b"launcher", "-\u{fffd}h".as_bytes()]),
        unexpected("launcher", "-\u{fffd}")
    );
}

#[test]
fn help_comes_before_what_follows_it() {
    assert_eq!(exit_code(&["launcher", "-h", "--unknown"]), 0);
    assert_eq!(exit_code(&["launcher", "--help", "--run-instance"]), 0);
}

#[test]
fn without_an_instance_the_main_window_is_shown() {
    assert_eq!(
        run_cli(Cli { run_instance: None }),
        vec![Message::ToFrontend(MessageToFrontend::OpenOrFocusMainWindow)]
    );
}

#[test]
fn a_named_instance_is_started_instead_of_showing_the_window() {
    assert_eq!(
        run_cli(Cli { run_instance: Some("World".to_string()) }),
        vec![Message::ToBackend(MessageToBackend::StartInstanceByName {
            name: "World".to_string()
        })]
    );
}
