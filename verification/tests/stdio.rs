use pandora_launcher::stdio::{
    list_child_ends, list_ends, OpenRequest, Opened, PandoraStdioReadMode, PandoraStdioWriteMode,
    Stream, Streams, Wiring,
};

fn streams(
    stdin: PandoraStdioWriteMode,
    stdout: PandoraStdioReadMode,
    stderr: PandoraStdioReadMode,
) -> Streams {
    Streams { stdin, stdout, stderr }
}

#[test]
fn inherited_streams_open_nothing() {
    let s = streams(
        PandoraStdioWriteMode::Inherit,
        PandoraStdioReadMode::Inherit,
        PandoraStdioReadMode::Inherit,
    );
    assert_eq!(s.open_requests(), vec![]);
    assert_eq!(
        s.wire(&vec![]),
        Wiring {
            stdin_read: None,
            stdout_write: None,
            stderr_write: None,
            stdin_write: None,
            stdout_read: None,
            stderr_read: None,
        }
    );
}

#[test]
fn the_null_device_is_opened_once() {
    let s = streams(
        PandoraStdioWriteMode::Null,
        PandoraStdioReadMode::Null,
        PandoraStdioReadMode::Null,
    );
    assert_eq!(s.open_requests(), vec![OpenRequest::Null]);
    let wiring = s.wire(&vec![Opened::Null(7)]);
    assert_eq!(wiring.stdin_read, Some(7));
    assert_eq!(wiring.stdout_write, Some(7));
    assert_eq!(wiring.stderr_write, Some(7));
    assert_eq!(wiring.stdin_write, None);
    assert_eq!(wiring.stdout_read, None);
    assert_eq!(wiring.stderr_read, None);
}

#[test]
fn each_piped_stream_has_a_pipe_of_its_own() {
    let s = streams(
        PandoraStdioWriteMode::Pipe,
        PandoraStdioReadMode::Pipe,
        PandoraStdioReadMode::Pipe,
    );
    let requests = s.open_requests();
    assert_eq!(
        requests,
        vec![
            OpenRequest::Pipe(Stream::Stdin),
            OpenRequest::Pipe(Stream::Stdout),
            OpenRequest::Pipe(Stream::Stderr),
        ]
    );
    let opened = vec![
        Opened::Pipe { read: 3, write: 4 },
        Opened::Pipe { read: 5, write: 6 },
        Opened::Pipe { read: 7, write: 8 },
    ];
    assert_eq!(
        s.wire(&opened),
        Wiring {
            stdin_read: Some(3),
            stdout_write: Some(6),
            stderr_write: Some(8),
            stdin_write: Some(4),
            stdout_read: Some(5),
            stderr_read: Some(7),
        }
    );
    assert_eq!(list_ends(&opened), vec![3, 4, 5, 6, 7, 8]);
    assert_eq!(list_ends(&vec![opened[0]]), vec![3, 4]);
    assert_eq!(list_child_ends(&requests, &opened), vec![3, 6, 8]);
}

#[test]
fn the_null_device_is_opened_when_it_is_first_needed() {
    let s = streams(
        PandoraStdioWriteMode::Pipe,
        PandoraStdioReadMode::Null,
        PandoraStdioReadMode::Null,
    );
    let requests = s.open_requests();
    assert_eq!(requests, vec![OpenRequest::Pipe(Stream::Stdin), OpenRequest::Null]);
    let opened = vec![Opened::Pipe { read: 3, write: 4 }, Opened::Null(5)];
    let wiring = s.wire(&opened);
    assert_eq!(wiring.stdin_read, Some(3));
    assert_eq!(wiring.stdout_write, Some(5));
    assert_eq!(wiring.stderr_write, Some(5));
    assert_eq!(list_ends(&opened), vec![3, 4, 5]);
    assert_eq!(list_child_ends(&requests, &opened), vec![3, 5]);
}
