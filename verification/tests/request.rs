use pandora_launcher::request::{decode_request, encode_request};

fn args(list: &[&str]) -> Vec<Vec<u8>> {
    list.iter().map(|arg| arg.as_bytes().to_vec()).collect()
}

#[test]
fn a_request_is_a_count_and_ended_arguments() {
    let sent = encode_request(&args(&["launcher", "--run-instance", ""])).unwrap();
    assert_eq!(sent, b"\x03launcher\0--run-instance\0\0".to_vec());
    assert_eq!(encode_request(&vec![]).unwrap(), vec![0]);
}

#[test]
fn too_many_arguments_are_refused() {
    let most = vec![b"a".to_vec(); 254];
    let sent = encode_request(&most).unwrap();
    assert_eq!(sent[0], 254);
    assert_eq!(sent.len(), 1 + 2 * 254);
    assert!(encode_request(&vec![b"a".to_vec(); 255]).is_none());
    assert!(encode_request(&vec![b"a".to_vec(); 256]).is_none());
}

#[test]
fn what_is_sent_arrives() {
    for list in [args(&[]), args(&["a"]), args(&["", "b c", "\u{e9}"]), vec![vec![0xff, 1]]] {
        let sent = encode_request(&list).unwrap();
        assert_eq!(decode_request(&sent), Some(list));
    }
}

#[test]
fn what_follows_a_request_is_ignored() {
    let mut sent = encode_request(&args(&["a", "b"])).unwrap();
    sent.extend_from_slice(b"more\0bytes");
    assert_eq!(decode_request(&sent), Some(args(&["a", "b"])));
}

#[test]
fn part_of_a_request_carries_nothing() {
    let sent = encode_request(&args(&["launcher", "x"])).unwrap();
    for n in 0..sent.len() {
        assert_eq!(decode_request(&sent[..n].to_vec()), None);
    }
    assert_eq!(decode_request(&vec![1]), None);
    assert_eq!(decode_request(&vec![0]), Some(vec![]));
}

#[test]
fn a_full_count_is_read() {
    let mut received = vec![255u8];
    for _ in 0..255 {
        received.extend_from_slice(b"a\0");
    }
    assert_eq!(decode_request(&received).unwrap().len(), 255);
    received.pop();
    assert!(decode_request(&received).is_none());
}
