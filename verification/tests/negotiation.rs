use sisterm::negotiation::{
    commands_fit, default_window_size, encode_window_size, init, parse_commands, terminal_size,
    window_size,
    Negotiator,
};

const IAC: u8 = 0xFF;
const WILL: u8 = 0xFB;
const WONT: u8 = 0xFC;
const DO: u8 = 0xFD;
const DONT: u8 = 0xFE;
const SB: u8 = 0xFA;
const SE: u8 = 0xF0;

fn run(buf: &[u8], n: &Negotiator, window: &[u8; 4]) -> (String, Vec<u8>) {
    let mut sent = Vec::new();
    let out = parse_commands(buf.len(), buf, &mut sent, n, window);
    (out, sent)
}

#[test]
fn text_passes_through_and_commands_are_taken_out() {
    let n = Negotiator::new(None, "xterm");
    let w = default_window_size();
    let mut buf = b"hi".to_vec();
    buf.extend_from_slice(&[IAC, WILL, 0x01]);
    buf.extend_from_slice(b"!");
    let (out, sent) = run(&buf, &n, &w);
    assert_eq!(out, "hi!");
    assert_eq!(sent, vec![IAC, DO, 0x01]);

    let (out, sent) = run(b"plain text", &n, &w);
    assert_eq!(out, "plain text");
    assert!(sent.is_empty());

    let (out, sent) = run(&[0xE3, 0x81, 0x82, 0x80, b'x', IAC, 0xF1, b'y'], &n, &w);
    assert_eq!(out, "あxy");
    assert!(sent.is_empty());
}

#[test]
fn requests_are_answered() {
    let n = Negotiator::new(None, "xterm");
    let w = encode_window_size(80, 24);
    let (_, sent) = run(&[IAC, DO, 0x1F], &n, &w);
    assert_eq!(sent, vec![IAC, SB, 0x1F, 0, 80, 0, 24, IAC, SE]);
    let (_, sent) = run(&[IAC, DO, 0x03, IAC, DO, 0x05, IAC, WILL, 0x22], &n, &w);
    assert_eq!(sent, vec![IAC, WILL, 0x03, IAC, WONT, 0x05, IAC, DONT, 0x22]);
    let (_, sent) = run(&[IAC, DO, 0x21, IAC, DO, 0x01], &n, &w);
    assert_eq!(sent, vec![IAC, WONT, 0x01, IAC, WONT, 0x01]);
    let (_, sent) = run(&[IAC, WONT, 0x18, IAC, DONT, 0x20], &n, &w);
    assert_eq!(sent, vec![IAC, WONT, 0x18, IAC, DONT, 0x20]);
    let (_, sent) = run(&[IAC, DO, 0x27], &n, &w);
    assert_eq!(sent, vec![IAC, WONT, 0x27]);
}

#[test]
fn sub_negotiations_are_answered() {
    let n = Negotiator::new(Some("root"), "vt100");
    let w = default_window_size();
    let (out, sent) = run(&[IAC, SB, 0x18, 0x01, IAC, SE, b'o', b'k'], &n, &w);
    assert_eq!(out, "ok");
    let mut expect = vec![IAC, SB, 0x18, 0x00];
    expect.extend_from_slice(b"vt100");
    expect.extend_from_slice(&[IAC, SE]);
    assert_eq!(sent, expect);

    let (_, sent) = run(&[IAC, DO, 0x27, IAC, SB, 0x27, 0x01, IAC, SE], &n, &w);
    let mut expect = vec![IAC, WILL, 0x27, IAC, SB, 0x27, 0x00, 0x00];
    expect.extend_from_slice(b"USER");
    expect.push(0x01);
    expect.extend_from_slice(b"root");
    expect.extend_from_slice(&[IAC, SE]);
    assert_eq!(sent, expect);

    let (_, sent) = run(&[IAC, SB, 0x20, 0x01, IAC, SE], &n, &w);
    let mut expect = vec![IAC, SB, 0x20, 0x00];
    expect.extend_from_slice(b"38400,38400");
    expect.extend_from_slice(&[IAC, SE]);
    assert_eq!(sent, expect);
}

#[test]
fn only_the_first_t_bytes_are_read() {
    let n = Negotiator::new(None, "xterm");
    let w = default_window_size();
    let mut sent = Vec::new();
    let buf = b"abcdef";
    let out = parse_commands(3, buf, &mut sent, &n, &w);
    assert_eq!(out, "abc");
    let mut sent = vec![9];
    let out = parse_commands(1, &[IAC, SB, 0x33, 0x00, SE, b'z'], &mut sent, &n, &w);
    assert_eq!(out, "");
    assert_eq!(sent, vec![9]);
}

#[test]
fn opening_and_window_size() {
    let (n, data) = init(None, "xterm-256color");
    assert_eq!(
        data,
        vec![
            IAC, DO, 0x03, IAC, WILL, 0x18, IAC, WILL, 0x1F, IAC, WILL, 0x20, IAC, WILL, 0x21,
            IAC, WILL, 0x27, IAC, DO, 0x05
        ]
    );
    let w = encode_window_size(300, 1000);
    assert_eq!(w, [1, 44, 3, 232]);
    assert_eq!(terminal_size(&w), (300, 1000));
    assert_eq!(default_window_size(), [0, 0x50, 0, 0x18]);
    assert_eq!(terminal_size(&default_window_size()), (80, 24));
    assert_eq!(window_size(&w), [IAC, SB, 0x1F, 1, 44, 3, 232, IAC, SE]);
    let (_, sent) = run(&[IAC, SB, 0x18, 0x01, IAC, SE], &n, &w);
    let mut expect = vec![IAC, SB, 0x18, 0x00];
    expect.extend_from_slice(b"xterm-256color");
    expect.extend_from_slice(&[IAC, SE]);
    assert_eq!(sent, expect);
}

#[test]
fn incomplete_commands_are_noticed() {
    let n = Negotiator::new(None, "xterm");
    let w = default_window_size();
    assert!(commands_fit(2, b"hi", &n, &w));
    assert!(!commands_fit(1, &[IAC], &n, &w));
    assert!(!commands_fit(2, &[IAC, DO], &n, &w));
    assert!(commands_fit(3, &[IAC, DO, 0x18], &n, &w));
    assert!(!commands_fit(4, &[IAC, SB, 0x18, 0x01], &n, &w));
    assert!(commands_fit(6, &[IAC, SB, 0x18, 0x01, IAC, SE], &n, &w));
    // Only the first `t` bytes are read, but a sub-negotiation is followed to its end.
    assert!(commands_fit(1, &[b'a', IAC], &n, &w));
    assert!(commands_fit(3, &[IAC, SB, 0x18, 0x01, SE, 0, 0], &n, &w));
}

#[test]
fn replies_are_appended_to_what_is_queued() {
    let n = Negotiator::new(None, "vt100");
    let w = default_window_size();
    let mut sent = vec![1, 2, 3];
    let buf = [IAC, WILL, 0x01, IAC, DONT, 0x05, IAC, SB, 0x18, 0x01, IAC, SE];
    let out = parse_commands(buf.len(), &buf, &mut sent, &n, &w);
    assert_eq!(out, "");
    let mut expect = vec![1, 2, 3, IAC, DO, 0x01, IAC, DONT, 0x05, IAC, SB, 0x18, 0x00];
    expect.extend_from_slice(b"vt100");
    expect.extend_from_slice(&[IAC, SE]);
    assert_eq!(sent, expect);
}

#[test]
fn bytes_the_reading_skips_do_not_matter() {
    let n = Negotiator::new(None, "xterm");
    let w = default_window_size();
    // IAC as the option of WILL, and IAC inside a sub-negotiation, are not commands.
    assert!(commands_fit(3, &[IAC, WILL, IAC], &n, &w));
    assert!(commands_fit(5, &[IAC, SB, 0x18, IAC, SE], &n, &w));
    let mut sent = Vec::new();
    let out = parse_commands(3, &[IAC, WILL, IAC], &mut sent, &n, &w);
    assert_eq!(out, "");
    assert_eq!(sent, vec![IAC, DONT, IAC]);
}
