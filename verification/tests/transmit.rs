use sisterm::flag::Flags;
use sisterm::getch::{decode_key, Key};
use sisterm::repl::{
    display_mode, key_is_sendable, key_to_bytes, log_at_exit, log_received, log_record_kind, split_log_lines,
    transmit_step, window_changed, Display, LogWrite, Toggle, TransmitAction,
};

fn flags() -> Flags {
    Flags::new(false, false, false, false, false, None)
}

#[test]
fn keys_are_sent_as_terminal_sequences() {
    assert_eq!(key_to_bytes(&Key::F(1)), vec![0x1b, b'[', b'1', b'1', b'~']);
    assert_eq!(key_to_bytes(&Key::F(6)), vec![0x1b, b'[', b'1', b'7', b'~']);
    assert_eq!(key_to_bytes(&Key::F(9)), vec![0x1b, b'[', b'2', b'0', b'~']);
    assert_eq!(key_to_bytes(&Key::F(12)), vec![0x1b, b'[', b'2', b'4', b'~']);
    assert_eq!(key_to_bytes(&Key::Ctrl('c')), vec![0x03]);
    assert_eq!(key_to_bytes(&Key::Ctrl('5')), vec![0x1b, b'[', b'1', b'5', b';', b'5', b'~']);
    assert_eq!(key_to_bytes(&Key::Char('é')), vec![0xc3, 0xa9]);
    assert_eq!(key_to_bytes(&Key::Char('a')), vec![b'a']);
    assert_eq!(key_to_bytes(&Key::Alt('x')), vec![0x1b, b'x']);
    assert_eq!(key_to_bytes(&Key::Up), vec![0x1b, b'[', b'A']);
    assert_eq!(key_to_bytes(&Key::PageDown), vec![0x1b, b'[', b'6', b'~']);
    assert_eq!(key_to_bytes(&Key::Other(vec![1, 2, 3])), vec![1, 2, 3]);
}

#[test]
fn plain_keys_are_sent() {
    let mut f = flags();
    let (esc, action) = transmit_step(false, &Key::Char('a'), &mut f);
    assert!(!esc);
    assert!(matches!(action, TransmitAction::Send { erase_echo: false, ref bytes } if bytes == &vec![b'a']));
}

#[test]
fn carriage_return_becomes_crlf_when_asked() {
    let mut f = Flags::new(false, false, false, true, false, None);
    let (_, action) = transmit_step(false, &Key::Char('\r'), &mut f);
    assert!(matches!(action, TransmitAction::Send { erase_echo: false, ref bytes } if bytes == &vec![0x0d, 0x0a]));
    let mut g = flags();
    let (_, action) = transmit_step(false, &Key::Char('\r'), &mut g);
    assert!(matches!(action, TransmitAction::Send { erase_echo: false, ref bytes } if bytes == &vec![0x0d]));
}

#[test]
fn escape_sequences_are_recognized() {
    let mut f = flags();
    let (esc, action) = transmit_step(false, &Key::Char('~'), &mut f);
    assert!(esc);
    assert!(matches!(action, TransmitAction::EscapeStarted));

    let (esc, action) = transmit_step(true, &Key::Char('~'), &mut f);
    assert!(!esc);
    assert!(matches!(action, TransmitAction::Send { erase_echo: true, ref bytes } if bytes == &vec![b'~']));

    assert!(matches!(transmit_step(true, &Key::Char('.'), &mut f).1, TransmitAction::Exit));
    assert!(matches!(transmit_step(true, &Key::Ctrl('d'), &mut f).1, TransmitAction::Exit));
    assert!(matches!(transmit_step(true, &Key::Ctrl('z'), &mut f).1, TransmitAction::Suspend));
    assert!(matches!(transmit_step(true, &Key::Char('!'), &mut f).1, TransmitAction::RunCommand));
    assert!(matches!(transmit_step(true, &Key::Char('$'), &mut f).1, TransmitAction::RunCommandAndSend));
    assert!(matches!(transmit_step(true, &Key::Char('?'), &mut f).1, TransmitAction::Help));
    assert!(matches!(transmit_step(true, &Key::Char('x'), &mut f).1, TransmitAction::Unrecognized));
}

#[test]
fn escape_sequences_toggle_switches() {
    let mut f = flags();
    assert!(matches!(transmit_step(true, &Key::Char('h'), &mut f).1, TransmitAction::Toggled(Toggle::Hexdump, true)));
    assert!(*f.hexdump());
    assert!(matches!(transmit_step(true, &Key::Char('h'), &mut f).1, TransmitAction::Toggled(Toggle::Hexdump, false)));
    assert!(!*f.hexdump());
    assert!(matches!(transmit_step(true, &Key::Char('n'), &mut f).1, TransmitAction::Toggled(Toggle::NoColor, true)));
    assert!(*f.nocolor());
    assert!(matches!(transmit_step(true, &Key::Char('t'), &mut f).1, TransmitAction::Toggled(Toggle::TimeStamp, true)));
    assert!(*f.timestamp());
    assert!(matches!(transmit_step(true, &Key::Char('i'), &mut f).1, TransmitAction::Toggled(Toggle::InsteadCrlf, true)));
    assert!(*f.instead_crlf());
    assert!(matches!(transmit_step(true, &Key::Char('d'), &mut f).1, TransmitAction::Toggled(Toggle::Debug, true)));
    assert!(*f.debug());
}

#[test]
fn display_follows_switches() {
    let mut f = flags();
    assert_eq!(display_mode(&f), Display::Colored);
    *f.nocolor_mut() = true;
    assert_eq!(display_mode(&f), Display::Raw);
    *f.hexdump_mut() = true;
    assert_eq!(display_mode(&f), Display::Hexdump);
}

#[test]
fn log_waits_for_a_line_feed() {
    let mut buf = String::new();
    assert!(matches!(log_received(&mut buf, b"abc", true), LogWrite::Nothing));
    assert_eq!(buf, "abc");
    match log_received(&mut buf, b"d\nef\ng", true) {
        LogWrite::Stamped(lines) => assert_eq!(lines, vec!["abcd".to_string(), "ef".to_string()]),
        other => panic!("unexpected {:?}", other),
    }
    assert_eq!(buf, "g");
}

#[test]
fn log_without_timestamps_is_written_whole() {
    let mut buf = String::from("x");
    match log_received(&mut buf, b"y\x08\nz", false) {
        LogWrite::Plain(text) => assert_eq!(text, "x\nz"),
        other => panic!("unexpected {:?}", other),
    }
    assert_eq!(buf, "");
}

#[test]
fn log_rest_is_written_at_exit() {
    match log_at_exit("one\ntwo", true) {
        (LogWrite::Stamped(lines), Some(rest)) => {
            assert_eq!(lines, vec!["one".to_string()]);
            assert_eq!(rest, "two");
        }
        other => panic!("unexpected {:?}", other),
    }
    match log_at_exit("one\ntwo", false) {
        (LogWrite::Plain(text), None) => assert_eq!(text, "one\ntwo"),
        other => panic!("unexpected {:?}", other),
    }
}

#[test]
fn log_lines_split_at_line_feeds() {
    let (lines, rest) = split_log_lines("a\n\nb\n");
    assert_eq!(lines, vec!["a".to_string(), "".to_string(), "b".to_string()]);
    assert_eq!(rest, "");
}

#[test]
fn log_record_kinds() {
    assert_eq!(log_record_kind(true, true), "New");
    assert_eq!(log_record_kind(false, true), "Append");
    assert_eq!(log_record_kind(false, false), "Overwrite");
}

#[test]
fn window_change_is_noticed() {
    assert!(!window_changed(&[0, 80, 0, 24], &[0, 80, 0, 24]));
    assert!(window_changed(&[0, 80, 0, 24], &[0, 81, 0, 24]));
}

#[test]
fn only_known_function_and_control_keys_are_sendable() {
    assert!(key_is_sendable(&Key::F(1)));
    assert!(key_is_sendable(&Key::F(12)));
    assert!(!key_is_sendable(&Key::F(0)));
    assert!(!key_is_sendable(&Key::F(13)));
    assert!(key_is_sendable(&Key::Ctrl('a')));
    assert!(key_is_sendable(&Key::Ctrl('7')));
    assert!(!key_is_sendable(&Key::Ctrl('8')));
    assert!(key_is_sendable(&Key::Char('x')));
}

#[test]
fn backspace_erases_a_typed_character_in_the_log() {
    for c in ['a', 'é', 'あ', '😀'] {
        let mut bytes = key_to_bytes(&Key::Char(c));
        bytes.push(0x08);
        let mut buf = String::from("log");
        assert!(matches!(log_received(&mut buf, &bytes, true), LogWrite::Nothing));
        assert_eq!(buf, "log");
    }
}

#[test]
fn toggling_twice_restores_the_switches() {
    let mut f = Flags::new(true, false, true, false, true, Some("x.log".to_string()));
    for c in ['n', 't', 'i', 'h', 'd'] {
        transmit_step(true, &Key::Char(c), &mut f);
        transmit_step(true, &Key::Char(c), &mut f);
    }
    assert!(*f.nocolor() && !*f.timestamp() && *f.append() && !*f.instead_crlf());
    assert!(!*f.hexdump() && *f.debug());
    assert_eq!(f.write_file(), Some("x.log".to_string()));
}

#[test]
fn tilde_typed_with_alt_starts_an_escape_sequence() {
    let mut f = flags();
    let (esc, action) = transmit_step(false, &Key::Alt('~'), &mut f);
    assert!(esc);
    assert!(matches!(action, TransmitAction::EscapeStarted));
    assert!(matches!(transmit_step(true, &Key::Char('.'), &mut f).1, TransmitAction::Exit));
    let (esc, action) = transmit_step(true, &Key::Alt('~'), &mut f);
    assert!(!esc);
    assert!(matches!(action, TransmitAction::Send { erase_echo: true, ref bytes } if bytes == &vec![0x1b, b'~']));
}

#[test]
fn sent_keys_decode_as_themselves() {
    let keys = vec![
        Key::Char('a'),
        Key::Char(' '),
        Key::Char('é'),
        Key::Char('あ'),
        Key::Char('😀'),
        Key::Up,
        Key::Home,
        Key::Insert,
        Key::PageUp,
        Key::F(1),
        Key::F(5),
        Key::F(6),
        Key::F(10),
        Key::F(12),
        Key::Backspace,
        Key::Delete,
        Key::Null,
    ];
    for k in keys {
        let bytes = key_to_bytes(&k);
        assert_eq!(decode_key(&bytes), Some((k.clone(), bytes.len())), "{:?}", k);
    }
}
