use pandora_launcher::paths::{join, name_of, LauncherPaths};
use pandora_launcher::portable::{get_portable_dir, mentions_portable, Executable};

fn bytes(text: &str) -> Vec<u8> {
    text.as_bytes().to_vec()
}

#[test]
fn a_name_is_put_behind_its_directory() {
    assert_eq!(join(&bytes("/a"), "b"), bytes("/a/b"));
    assert_eq!(join(&bytes("/a/"), "b"), bytes("/a/b"));
    assert_eq!(join(&bytes(""), "b"), bytes("b"));
    assert_eq!(join(&bytes("/a"), "/b"), bytes("/b"));
    assert_eq!(join(&bytes("/a"), ""), bytes("/a/"));
    assert_eq!(join(&vec![0xff], "b"), vec![0xff, b'/', b'b']);
}

#[test]
fn joining_agrees_with_the_standard_library() {
    for base in ["", "/", "a", "a/", "/a//", "../x"] {
        for name in ["", "b", "/b", "b/c", "."] {
            let expected = std::path::Path::new(base).join(name);
            assert_eq!(join(&bytes(base), name), bytes(expected.to_str().unwrap()));
        }
    }
}

#[test]
fn the_files_lie_in_the_launchers_directory() {
    let paths = LauncherPaths::new(&bytes("/home/me/.local/share"));
    assert_eq!(paths.dir, bytes("/home/me/.local/share/PandoraLauncher"));
    assert_eq!(paths.socket, bytes("/home/me/.local/share/PandoraLauncher/launcher.sock"));
    assert_eq!(paths.lockfile, bytes("/home/me/.local/share/PandoraLauncher/launcher.lock"));
    assert_eq!(paths.log, bytes("/home/me/.local/share/PandoraLauncher/launcher.log"));
    assert_eq!(paths.old_log, bytes("/home/me/.local/share/PandoraLauncher/launcher.log.old"));
}

#[test]
fn an_existing_log_is_renamed() {
    let paths = LauncherPaths::new(&bytes("/d"));
    assert!(paths.log_rotation(false).is_none());
    assert_eq!(
        paths.log_rotation(true),
        Some((
            bytes("/d/PandoraLauncher/launcher.log"),
            bytes("/d/PandoraLauncher/launcher.log.old")
        ))
    );
}

fn dir_of(name: Vec<u8>) -> Option<Vec<u8>> {
    get_portable_dir(Some(Executable { file_name: Some(name), parent: Some(bytes("/usb")) }))
}

#[test]
fn a_portable_name_is_recognized_in_any_case() {
    assert_eq!(dir_of(bytes("PandoraLauncher-Portable")), Some(bytes("/usb")));
    assert_eq!(dir_of(bytes("PORTABLE.exe")), Some(bytes("/usb")));
    assert_eq!(dir_of(bytes("importableX")), Some(bytes("/usb")));
    assert_eq!(dir_of(bytes("\u{c9}Portable")), Some(bytes("/usb")));
    assert_eq!(dir_of(vec![0xff, b'P', b'o', b'r', b't', b'a', b'b', b'l', b'e']), Some(bytes("/usb")));
}

#[test]
fn the_case_of_letters_never_matters() {
    for name in ["Éclair-PORTABLE", "ΟΔΟΣ-PoRtAbLe", "É-launcher", "PortΣable", "AΣ Portable"] {
        let mut small = name.as_bytes().to_vec();
        small.make_ascii_lowercase();
        assert_eq!(dir_of(bytes(name)), dir_of(small));
    }
    for name in [&b"\xe2\x82PORTABLE"[..], b"PORT\xffABLE", b"\xc3A\xffPortable\xe2"] {
        assert_eq!(dir_of(name.to_vec()), dir_of(name.to_ascii_lowercase()));
    }
    assert_eq!(dir_of(bytes("Éclair-PORTABLE")), Some(bytes("/usb")));
    assert_eq!(dir_of(b"\xe2\x82PORTABLE".to_vec()), Some(bytes("/usb")));
    assert_eq!(dir_of(b"PORT\xffABLE".to_vec()), None);
}

#[test]
fn other_names_are_not_portable() {
    assert_eq!(dir_of(bytes("pandora_launcher")), None);
    assert_eq!(dir_of(bytes("port able")), None);
    assert_eq!(dir_of(bytes("portabl")), None);
    assert_eq!(dir_of(bytes("")), None);
    assert_eq!(dir_of(vec![b'p', b'o', b'r', b't', 0xff, b'a', b'b', b'l', b'e']), None);
}

#[test]
fn without_a_name_or_a_parent_there_is_no_directory() {
    assert_eq!(get_portable_dir(None), None);
    assert_eq!(
        get_portable_dir(Some(Executable { file_name: None, parent: Some(bytes("/")) })),
        None
    );
    assert_eq!(
        get_portable_dir(Some(Executable { file_name: Some(bytes("portable")), parent: None })),
        None
    );
}

#[test]
fn the_word_is_searched_everywhere_in_the_name() {
    assert!(mentions_portable("portable"));
    assert!(mentions_portable("xxportable"));
    assert!(mentions_portable("portportable"));
    assert!(!mentions_portable("Portable"));
    assert!(!mentions_portable("table"));
    assert!(!mentions_portable(""));
}

#[test]
fn a_path_ends_with_a_name() {
    for (path, name) in [
        ("/usr/bin/java", Some("java")),
        ("java", Some("java")),
        ("/usr/bin//", Some("bin")),
        ("/usr/bin/./.", Some("bin")),
        ("/usr/.bin", Some(".bin")),
        ("/usr/...", Some("...")),
        ("/usr/bin.", Some("bin.")),
        ("./java", Some("java")),
        ("/usr/..", None),
        ("/usr/../", None),
        ("..", None),
        (".", None),
        ("./", None),
        ("/.", None),
        ("/", None),
        ("", None),
    ] {
        assert_eq!(name_of(&bytes(path)), name.map(bytes));
        let std_name = std::path::Path::new(path).file_name().map(|n| n.to_str().unwrap());
        assert_eq!(std_name, name);
    }
}
