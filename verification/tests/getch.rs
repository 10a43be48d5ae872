use sisterm::getch::{copy_key, decode_key, is_malformed_key, Key};

fn key(bytes: &[u8]) -> Option<(Key, usize)> {
    assert!(!is_malformed_key(bytes));
    decode_key(bytes)
}

#[test]
fn incomplete_sequences_ask_for_more() {
    assert_eq!(key(b""), None);
    assert_eq!(key(b"\x1b"), None);
    assert_eq!(key(b"\x1b["), None);
    assert_eq!(key(b"\x1b[1"), None);
    assert_eq!(key(b"\x1b[15;"), None);
    assert_eq!(key(b"\x1bO"), None);
    assert_eq!(key(&[0xE3, 0x81]), None);
}

#[test]
fn keys_are_decoded() {
    assert_eq!(key(b"\x1b[A"), Some((Key::Up, 3)));
    assert_eq!(key(b"\x1b[Z"), Some((Key::BackTab, 3)));
    assert_eq!(key(b"\x1b[15~"), Some((Key::F(5), 5)));
    assert_eq!(key(b"\x1b[24~"), Some((Key::F(12), 5)));
    assert_eq!(key(b"\x1b[3~"), Some((Key::Delete, 4)));
    assert_eq!(key(b"\x1b[7~"), Some((Key::Home, 4)));
    assert_eq!(key(b"\x1b[[B"), Some((Key::F(2), 4)));
    assert_eq!(key(b"\x1bOS"), Some((Key::F(4), 3)));
    assert_eq!(key(b"\x1bx"), Some((Key::Alt('x'), 2)));
    assert_eq!(key(b"\n"), Some((Key::Char('\r'), 1)));
    assert_eq!(key(b"\t"), Some((Key::Char('\t'), 1)));
    assert_eq!(key(b"\x08"), Some((Key::Backspace, 1)));
    assert_eq!(key(b"\x7f"), Some((Key::Delete, 1)));
    assert_eq!(key(b"\x01"), Some((Key::Ctrl('a'), 1)));
    assert_eq!(key(b"\x1a"), Some((Key::Ctrl('z'), 1)));
    assert_eq!(key(b"\x1c"), Some((Key::Ctrl('4'), 1)));
    assert_eq!(key(b"\x00"), Some((Key::Null, 1)));
    assert_eq!(key(b"q"), Some((Key::Char('q'), 1)));
    assert_eq!(key(&[0xE3, 0x81, 0x82]), Some((Key::Char('あ'), 3)));
    assert_eq!(key(&[0x1b, 0xC3, 0xA9]), Some((Key::Alt('é'), 3)));
}

#[test]
fn unknown_sequences_are_kept_as_bytes() {
    assert_eq!(key(b"\x1b[1;5~"), Some((Key::Other(vec![0x1b, b'[', b'1', b';', b'5']), 6)));
    assert_eq!(key(b"\x1b[99~"), Some((Key::Other(vec![0x1b, b'[', b'9', b'9']), 5)));
    assert_eq!(key(b"\x1b[1;5A"), Some((Key::Other(vec![0x1b, b'[', b'1', b';', b'5']), 6)));
    assert_eq!(key(b"\x1b[[x"), Some((Key::Other(vec![0x1b, b'[', b'[', b'x']), 4)));
    assert_eq!(key(b"\x1bOx"), Some((Key::Other(vec![0x1b, b'O', b'x']), 3)));
    assert_eq!(key(b"\x1b[!"), Some((Key::Other(vec![0x1b, b'[', b'!']), 3)));
    assert_eq!(key(&[0xFF, 0xFF, 0xFF, 0xFF]), Some((Key::Other(vec![0xFF; 4]), 4)));
    assert_eq!(key(&[0xFF, 0xFF, 0xFF]), None);
}

#[test]
fn malformed_numbered_sequences_are_recognized() {
    assert!(is_malformed_key(b"\x1b[1;~"));
    assert!(is_malformed_key(b"\x1b[300~"));
    assert!(is_malformed_key(b"\x1b[1:2~"));
    assert!(!is_malformed_key(b"\x1b[300A"));
    assert!(!is_malformed_key(b"\x1b[12;34~"));
}

#[test]
fn keys_are_copied() {
    let k = Key::Other(vec![1, 2, 3]);
    assert_eq!(copy_key(&k), k);
    assert_eq!(copy_key(&Key::F(3)), Key::F(3));
}
