use vstd::prelude::*;
use vstd::utf8::*;
use crate::utf8::{char_at, char_at_reads_encoding, decode_char_at};
use crate::text::{extend_bytes, push_char};

verus! {

// Telnet commands.
pub const SE: u8 = 0xF0;
pub const NOP: u8 = 0xF1;
pub const DM: u8 = 0xF2;
pub const BRK: u8 = 0xF3;
pub const IP: u8 = 0xF4;
pub const AO: u8 = 0xF5;
pub const AYT: u8 = 0xF6;
pub const EC: u8 = 0xF7;
pub const EL: u8 = 0xF8;
pub const GA: u8 = 0xF9;
pub const SB: u8 = 0xFA;
pub const WILL: u8 = 0xFB;
pub const WONT: u8 = 0xFC;
pub const DO: u8 = 0xFD;
pub const DONT: u8 = 0xFE;
pub const IAC: u8 = 0xFF;

// Sub-negotiation codes.
pub const IS: u8 = 0x00;
pub const SEND: u8 = 0x01;
pub const VAR: u8 = 0x00;
pub const VALUE: u8 = 0x01;

// Telnet options.
pub const BINARY_TRANSMISSION: u8 = 0x00;
pub const ECHO: u8 = 0x01;
pub const SUPPRESS_GO_AHEAD: u8 = 0x03;
pub const STATUS: u8 = 0x05;
pub const TIMING_MARK: u8 = 0x06;
pub const TERMINAL_TYPE: u8 = 0x18;
pub const WINDOW_SIZE: u8 = 0x1F;
pub const TERMINAL_SPEED: u8 = 0x20;
pub const REMOTE_FLOW_CONTROL: u8 = 0x21;
pub const LINE_MODE: u8 = 0x22;
pub const X_DISPLAY_LOCATION: u8 = 0x23;
pub const ENVIRONMENT_VARIABLES: u8 = 0x24;
pub const NEW_ENVIRONMENT: u8 = 0x27;

/// What the negotiation remembers between calls: the login user offered through
/// NEW-ENVIRON (empty when none was given) and the terminal type reported through
/// TERMINAL-TYPE.
pub struct NegotiatorView {
    pub login_user: Seq<char>,
    pub terminal_type: Seq<char>,
}

/// The state that the telnet negotiation keeps for one connection.
pub struct Negotiator {
    login_user: String,
    terminal_type: String,
}

impl View for Negotiator {
    type V = NegotiatorView;

    closed spec fn view(&self) -> NegotiatorView {
        NegotiatorView { login_user: self.login_user@, terminal_type: self.terminal_type@ }
    }
}

/// The window-size sub-negotiation for a window whose size is given as the four bytes
/// width-high, width-low, height-high, height-low.
pub open spec fn spec_window_size(size: Seq<u8>) -> Seq<u8> {
    seq![IAC, SB, WINDOW_SIZE] + size + seq![IAC, SE]
}

/// The reply to `IAC WILL opt`.
pub open spec fn will_reply(opt: u8) -> Seq<u8> {
    if opt == ECHO || opt == SUPPRESS_GO_AHEAD || opt == TERMINAL_TYPE {
        seq![IAC, DO, opt]
    } else {
        seq![IAC, DONT, opt]
    }
}

/// The reply to `IAC DO opt`.
pub open spec fn do_reply(opt: u8, login_user: Seq<char>, window: Seq<u8>) -> Seq<u8> {
    if opt == SUPPRESS_GO_AHEAD || opt == TERMINAL_TYPE || opt == TERMINAL_SPEED {
        seq![IAC, WILL, opt]
    } else if opt == WINDOW_SIZE {
        spec_window_size(window)
    } else if opt == REMOTE_FLOW_CONTROL {
        seq![IAC, WONT, ECHO]
    } else if opt == NEW_ENVIRONMENT {
        seq![IAC, if login_user.len() == 0 { WONT } else { WILL }, NEW_ENVIRONMENT]
    } else {
        seq![IAC, WONT, opt]
    }
}

/// The terminal speed reported through TERMINAL-SPEED: "38400,38400".
pub open spec fn speed_text() -> Seq<u8> {
    seq![0x33u8, 0x38, 0x34, 0x30, 0x30, 0x2C, 0x33, 0x38, 0x34, 0x30, 0x30]
}

/// The reply to `IAC SB opt ...`.
pub open spec fn sb_reply(opt: u8, n: NegotiatorView) -> Seq<u8> {
    if opt == TERMINAL_TYPE {
        seq![IAC, SB, TERMINAL_TYPE, IS] + encode_utf8(n.terminal_type) + seq![IAC, SE]
    } else if opt == TERMINAL_SPEED {
        seq![IAC, SB, TERMINAL_SPEED, IS] + speed_text() + seq![IAC, SE]
    } else if opt == NEW_ENVIRONMENT {
        seq![IAC, SB, NEW_ENVIRONMENT, IS, VAR] + seq![0x55u8, 0x53, 0x45, 0x52, VALUE]
            + encode_utf8(n.login_user) + seq![IAC, SE]
    } else {
        Seq::empty()
    }
}

/// Prepends text and negotiation bytes to the outcome of the rest of a scan.
pub open spec fn prepend(
    out: Seq<char>,
    sent: Seq<u8>,
    rest: Option<(Seq<char>, Seq<u8>)>,
) -> Option<(Seq<char>, Seq<u8>)> {
    match rest {
        Some((o, s)) => Some((out + o, sent + s)),
        None => None,
    }
}

/// The scan of the first `t` bytes of `buf` from index `i`: the text that is shown and the
/// negotiation bytes that are sent back. In `skipping` mode the scan is inside a
/// sub-negotiation and looks for its closing SE, whatever `t` is. `None` means that the scan
/// would read past the end of `buf`.
pub open spec fn scan(buf: Seq<u8>, t: int, i: int, n: NegotiatorView, window: Seq<u8>, skipping: bool)
    -> Option<(Seq<char>, Seq<u8>)>
    decreases buf.len() - i, if skipping { 1int } else { 0int },
{
    if i < 0 || i >= buf.len() {
        if !skipping && i >= t {
            Some((Seq::empty(), Seq::empty()))
        } else {
            None
        }
    } else if skipping {
        if buf[i] == SE {
            scan(buf, t, i + 1, n, window, false)
        } else {
            scan(buf, t, i + 1, n, window, true)
        }
    } else if i >= t {
        Some((Seq::empty(), Seq::empty()))
    } else if buf[i] != IAC {
        match char_at(buf, i) {
            Some((c, w)) => prepend(seq![c], Seq::empty(), scan(buf, t, i + w, n, window, false)),
            None => scan(buf, t, i + 1, n, window, false),
        }
    } else if i + 1 >= buf.len() {
        None
    } else {
        let cmd = buf[i + 1];
        if cmd == WILL || cmd == WONT || cmd == DO || cmd == DONT || cmd == SB {
            if i + 2 >= buf.len() {
                None
            } else {
                let opt = buf[i + 2];
                if cmd == WILL {
                    prepend(Seq::empty(), will_reply(opt), scan(buf, t, i + 3, n, window, false))
                } else if cmd == WONT {
                    prepend(Seq::empty(), seq![IAC, WONT, opt], scan(buf, t, i + 3, n, window, false))
                } else if cmd == DO {
                    prepend(Seq::empty(), do_reply(opt, n.login_user, window), scan(buf, t, i + 3, n, window, false))
                } else if cmd == DONT {
                    prepend(Seq::empty(), seq![IAC, DONT, opt], scan(buf, t, i + 3, n, window, false))
                } else {
                    prepend(Seq::empty(), sb_reply(opt, n), scan(buf, t, i + 2, n, window, true))
                }
            }
        } else {
            scan(buf, t, i + 2, n, window, false)
        }
    }
}

} // verus!

verus! {

impl Negotiator {
    /// Records the login user (when one is given) and the terminal type for the session.
    pub fn new(login_user: Option<&str>, terminal_type: &str) -> (r: Self)
        ensures
            r@.login_user == (match login_user {
                Some(u) => u@,
                None => Seq::<char>::empty(),
            }),
            r@.terminal_type == terminal_type@,
    {
        let login_user = match login_user {
            Some(u) => u.to_string(),
            None => String::new(),
        };
        Negotiator { login_user, terminal_type: terminal_type.to_string() }
    }

    /// The reply to `IAC DO opt`.
    fn reply_do(&self, opt: u8, window: &[u8; 4], sent: &mut Vec<u8>)
        ensures
            final(sent)@ == old(sent)@ + do_reply(opt, self@.login_user, window@),
    {
        if opt == SUPPRESS_GO_AHEAD || opt == TERMINAL_TYPE || opt == TERMINAL_SPEED {
            extend_bytes(sent, &[IAC, WILL, opt]);
        } else if opt == WINDOW_SIZE {
            let w = window_size(window);
            extend_bytes(sent, &w);
        } else if opt == REMOTE_FLOW_CONTROL {
            extend_bytes(sent, &[IAC, WONT, ECHO]);
        } else if opt == NEW_ENVIRONMENT {
            let answer = if self.login_user.as_str().is_empty() { WONT } else { WILL };
            extend_bytes(sent, &[IAC, answer, NEW_ENVIRONMENT]);
        } else {
            extend_bytes(sent, &[IAC, WONT, opt]);
        }
        assert(final(sent)@ =~= old(sent)@ + do_reply(opt, self@.login_user, window@));
    }

    /// The reply to `IAC SB opt ...`.
    fn reply_sb(&self, opt: u8, sent: &mut Vec<u8>)
        ensures
            final(sent)@ == old(sent)@ + sb_reply(opt, self@),
    {
        let ghost start = sent@;
        if opt == TERMINAL_TYPE {
            extend_bytes(sent, &[IAC, SB, TERMINAL_TYPE, IS]);
            extend_bytes(sent, self.terminal_type.as_str().as_bytes());
            extend_bytes(sent, &[IAC, SE]);
        } else if opt == TERMINAL_SPEED {
            extend_bytes(sent, &[IAC, SB, TERMINAL_SPEED, IS]);
            extend_bytes(sent, &[0x33, 0x38, 0x34, 0x30, 0x30, 0x2C, 0x33, 0x38, 0x34, 0x30, 0x30]);
            extend_bytes(sent, &[IAC, SE]);
        } else if opt == NEW_ENVIRONMENT {
            extend_bytes(sent, &[IAC, SB, NEW_ENVIRONMENT, IS, VAR]);
            extend_bytes(sent, &[0x55, 0x53, 0x45, 0x52, VALUE]);
            extend_bytes(sent, self.login_user.as_str().as_bytes());
            extend_bytes(sent, &[IAC, SE]);
        }
        assert(sent@ =~= start + sb_reply(opt, self@));
    }
}

/// The window-size sub-negotiation (`IAC SB NAWS <size> IAC SE`) for a window whose size is
/// given as the bytes width-high, width-low, height-high, height-low.
pub fn window_size(size: &[u8; 4]) -> (r: [u8; 9])
    ensures
        r@ == spec_window_size(size@),
{
    let r = [IAC, SB, WINDOW_SIZE, size[0], size[1], size[2], size[3], IAC, SE];
    assert(r@ =~= spec_window_size(size@));
    r
}

} // verus!

verus! {

proof fn lemma_prepend_assoc(
    o1: Seq<char>,
    s1: Seq<u8>,
    o2: Seq<char>,
    s2: Seq<u8>,
    r: Option<(Seq<char>, Seq<u8>)>,
)
    ensures
        prepend(o1, s1, prepend(o2, s2, r)) == prepend(o1 + o2, s1 + s2, r),
{
    match r {
        Some((o, s)) => {
            assert(o1 + (o2 + o) =~= (o1 + o2) + o);
            assert(s1 + (s2 + s) =~= (s1 + s2) + s);
        },
        None => {},
    }
}

/// The character whose UTF-8 encoding starts at `buf[*i]`. When there is one, `*i` moves to
/// the last byte of its encoding; otherwise `*i` stays where it is. A character's own encoding
/// is read as that character, whatever follows it.
fn is_char(buf: &[u8], i: &mut usize) -> (r: Option<char>)
    requires
        *old(i) < buf@.len(),
    ensures
        match char_at(buf@, *old(i) as int) {
            Some((c, w)) => r == Some(c) && *final(i) == *old(i) + w - 1,
            None => r is None && *final(i) == *old(i),
        },
        forall|ch: char|
            *old(i) + (#[trigger] encode_utf8(seq![ch])).len() <= buf@.len() && buf@.subrange(
                *old(i) as int,
                *old(i) + encode_utf8(seq![ch]).len(),
            ) == encode_utf8(seq![ch]) ==> r == Some(ch) && *final(i) == *old(i) + encode_utf8(
                seq![ch],
            ).len() - 1,
{
    proof {
        assert forall|ch: char|
            *old(i) + (#[trigger] encode_utf8(seq![ch])).len() <= buf@.len() && buf@.subrange(
                *old(i) as int,
                *old(i) + encode_utf8(seq![ch]).len(),
            ) == encode_utf8(seq![ch]) implies char_at(buf@, *old(i) as int) == Some(
            (ch, encode_utf8(seq![ch]).len() as int),
        ) by {
            char_at_reads_encoding(buf@, *old(i) as int, ch);
        }
    }
    match decode_char_at(buf, *i) {
        Some((c, w)) => {
            let n = buf.len();
            assert(*i + w <= n);
            *i = *i + (w - 1);
            Some(c)
        },
        None => None,
    }
}

#[verifier::rlimit(40)]
/// Reads the first `t` bytes of `serial_buf` as telnet data: returns the text to show, with
/// every telnet command taken out, and appends to `send_neg` the negotiation replies that the
/// commands call for.
pub fn parse_commands(
    t: usize,
    serial_buf: &[u8],
    send_neg: &mut Vec<u8>,
    negotiator: &Negotiator,
    window: &[u8; 4],
) -> (output: String)
    requires
        scan(serial_buf@, t as int, 0, negotiator@, window@, false) is Some,
    ensures
        scan(serial_buf@, t as int, 0, negotiator@, window@, false) matches Some((shown, replies))
            && output@ == shown && final(send_neg)@ == old(send_neg)@ + replies,
{
    let ghost buf = serial_buf@;
    let ghost n = negotiator@;
    let ghost w = window@;
    let ghost total = scan(buf, t as int, 0, n, w, false);
    let ghost start = send_neg@;
    let mut output = String::new();
    let mut i: usize = 0;
    let len = serial_buf.len();
    assert(prepend(Seq::empty(), Seq::empty(), scan(buf, t as int, 0, n, w, false)) =~= total) by {
        match total {
            Some((o, s)) => {
                assert(Seq::<char>::empty() + o =~= o);
                assert(Seq::<u8>::empty() + s =~= s);
            },
            None => {},
        }
    }
    assert(send_neg@ =~= start + Seq::<u8>::empty());
    while i < t
        invariant
            len == buf.len(),
            serial_buf@ == buf,
            n == negotiator@,
            w == window@,
            send_neg@.len() >= start.len(),
            send_neg@.subrange(0, start.len() as int) == start,
            scan(buf, t as int, i as int, n, w, false) is Some,
            total == prepend(
                output@,
                send_neg@.subrange(start.len() as int, send_neg@.len() as int),
                scan(buf, t as int, i as int, n, w, false),
            ),
        decreases len - i,
    {
        let ghost out0 = output@;
        let ghost sent0 = send_neg@;
        assert(i < len);
        if serial_buf[i] != IAC {
            let ghost i0 = i;
            match is_char(serial_buf, &mut i) {
                Some(c) => {
                    push_char(&mut output, c);
                    proof {
                        let width = (i - i0 + 1) as int;
                        lemma_prepend_assoc(out0, sent0.subrange(start.len() as int, sent0.len() as int), seq![c], Seq::empty(), scan(buf, t as int, i0 + width, n, w, false));
                        assert(out0 + seq![c] =~= out0.push(c));
                        assert(sent0.subrange(start.len() as int, sent0.len() as int) + Seq::<u8>::empty() =~= sent0.subrange(start.len() as int, sent0.len() as int));
                    }
                },
                None => {},
            }
            i = i + 1;
        } else {
            let cmd = serial_buf[i + 1];
            if cmd == WILL || cmd == WONT || cmd == DO || cmd == DONT || cmd == SB {
                let opt = serial_buf[i + 2];
                let ghost before = send_neg@.subrange(start.len() as int, send_neg@.len() as int);
                if cmd == WILL {
                    if opt == ECHO || opt == SUPPRESS_GO_AHEAD || opt == TERMINAL_TYPE {
                        extend_bytes(send_neg, &[IAC, DO, opt]);
                    } else {
                        extend_bytes(send_neg, &[IAC, DONT, opt]);
                    }
                    assert(send_neg@ =~= sent0 + will_reply(opt));
                } else if cmd == WONT {
                    extend_bytes(send_neg, &[IAC, WONT, opt]);
                } else if cmd == DO {
                    negotiator.reply_do(opt, window, send_neg);
                } else if cmd == DONT {
                    extend_bytes(send_neg, &[IAC, DONT, opt]);
                } else {
                    negotiator.reply_sb(opt, send_neg);
                }
                let ghost reply = send_neg@.subrange(sent0.len() as int, send_neg@.len() as int);
                proof {
                    assert(send_neg@.subrange(0, start.len() as int) =~= start);
                    assert(send_neg@.subrange(start.len() as int, send_neg@.len() as int) =~= before + reply);
                    if cmd != SB {
                        lemma_prepend_assoc(out0, before, Seq::empty(), reply, scan(buf, t as int, i + 3, n, w, false));
                        assert(out0 + Seq::<char>::empty() =~= out0);
                    } else {
                        lemma_prepend_assoc(out0, before, Seq::empty(), reply, scan(buf, t as int, i + 2, n, w, true));
                        assert(out0 + Seq::<char>::empty() =~= out0);
                    }
                }
                if cmd == SB {
                    let mut j: usize = i + 2;
                    while serial_buf[j] != SE
                        invariant
                            len == buf.len(),
                            serial_buf@ == buf,
                            i + 2 <= j,
                            scan(buf, t as int, j as int, n, w, true) is Some,
                            total == prepend(
                                output@,
                                send_neg@.subrange(start.len() as int, send_neg@.len() as int),
                                scan(buf, t as int, j as int, n, w, true),
                            ),
                        decreases len - j,
                    {
                        j = j + 1;
                    }
                    i = j + 1;
                } else {
                    i = i + 3;
                }
            } else {
                i = i + 2;
            }
        }
    }
    proof {
        match total {
            Some((o, s)) => {
                assert(o =~= output@ + Seq::<char>::empty());
                assert(s =~= send_neg@.subrange(start.len() as int, send_neg@.len() as int) + Seq::<u8>::empty());
                assert(send_neg@ =~= start + s);
            },
            None => {},
        }
    }
    output
}

/// Whether `parse_commands` can read the first `t` bytes of `serial_buf` without running past
/// its end: every command is complete, and every sub-negotiation is closed by an SE.
pub fn commands_fit(t: usize, serial_buf: &[u8], negotiator: &Negotiator, window: &[u8; 4]) -> (r: bool)
    ensures
        r == (scan(serial_buf@, t as int, 0, negotiator@, window@, false) is Some),
{
    let ghost buf = serial_buf@;
    let ghost n = negotiator@;
    let ghost w = window@;
    let len = serial_buf.len();
    let mut i: usize = 0;
    let mut skipping = false;
    loop
        invariant
            len == buf.len(),
            serial_buf@ == buf,
            n == negotiator@,
            w == window@,
            i <= len,
            (scan(buf, t as int, 0, n, w, false) is Some) == (scan(buf, t as int, i as int, n, w, skipping) is Some),
        decreases len - i,
    {
        if i >= len {
            return !skipping && i >= t;
        }
        if skipping {
            skipping = serial_buf[i] != SE;
            i = i + 1;
        } else if i >= t {
            return true;
        } else if serial_buf[i] != IAC {
            match decode_char_at(serial_buf, i) {
                Some((_c, width)) => {
                    i = i + width;
                },
                None => {
                    i = i + 1;
                },
            }
        } else if i + 1 >= len {
            return false;
        } else {
            let cmd = serial_buf[i + 1];
            if cmd == WILL || cmd == WONT || cmd == DO || cmd == DONT || cmd == SB {
                if i + 2 >= len {
                    return false;
                }
                if cmd == SB {
                    skipping = true;
                    i = i + 2;
                } else {
                    i = i + 3;
                }
            } else {
                i = i + 2;
            }
        }
    }
}

} // verus!

verus! {

/// The negotiations that the client opens a telnet session with: it asks the server to
/// suppress go-ahead and to report its status, and offers terminal type, window size,
/// terminal speed, remote flow control and environment.
pub open spec fn opening_negotiation() -> Seq<u8> {
    seq![
        IAC, DO, SUPPRESS_GO_AHEAD,
        IAC, WILL, TERMINAL_TYPE,
        IAC, WILL, WINDOW_SIZE,
        IAC, WILL, TERMINAL_SPEED,
        IAC, WILL, REMOTE_FLOW_CONTROL,
        IAC, WILL, NEW_ENVIRONMENT,
        IAC, DO, STATUS,
    ]
}

/// Starts the negotiation of a telnet session: the state that later replies draw on, and the
/// bytes to send to the server first.
pub fn init(login_user: Option<&str>, terminal_type: &str) -> (r: (Negotiator, Vec<u8>))
    ensures
        r.0@.login_user == (match login_user {
            Some(u) => u@,
            None => Seq::<char>::empty(),
        }),
        r.0@.terminal_type == terminal_type@,
        r.1@ == opening_negotiation(),
{
    let negotiator = Negotiator::new(login_user, terminal_type);
    let data = vec![
        IAC, DO, SUPPRESS_GO_AHEAD,
        IAC, WILL, TERMINAL_TYPE,
        IAC, WILL, WINDOW_SIZE,
        IAC, WILL, TERMINAL_SPEED,
        IAC, WILL, REMOTE_FLOW_CONTROL,
        IAC, WILL, NEW_ENVIRONMENT,
        IAC, DO, STATUS,
    ];
    assert(data@ =~= opening_negotiation());
    (negotiator, data)
}

/// The size that is reported when the terminal's size cannot be read: 80 columns, 24 rows.
pub fn default_window_size() -> (r: [u8; 4])
    ensures
        r@ == seq![0u8, 0x50, 0, 0x18],
{
    let r = [0, 0x50, 0, 0x18];
    assert(r@ =~= seq![0u8, 0x50, 0, 0x18]);
    r
}

/// The bytes width-high, width-low, height-high, height-low of a terminal of `width`
/// columns and `height` rows.
pub open spec fn window_bytes(width: u16, height: u16) -> Seq<u8> {
    seq![(width / 256) as u8, (width % 256) as u8, (height / 256) as u8, (height % 256) as u8]
}

/// The width and height of a terminal whose size is given as the bytes width-high,
/// width-low, height-high, height-low.
pub open spec fn size_of_window_bytes(bytes: Seq<u8>) -> (u32, u32) {
    ((bytes[0] * 256 + bytes[1]) as u32, (bytes[2] * 256 + bytes[3]) as u32)
}

/// The size bytes of a terminal of `width` columns and `height` rows.
pub fn encode_window_size(width: u16, height: u16) -> (r: [u8; 4])
    ensures
        r@ == window_bytes(width, height),
{
    let r = [
        ((width & 0xff00) >> 8) as u8,
        (width & 0x00ff) as u8,
        ((height & 0xff00) >> 8) as u8,
        (height & 0x00ff) as u8,
    ];
    assert(((width & 0xff00) >> 8) as u8 == (width / 256) as u8) by (bit_vector);
    assert((width & 0x00ff) as u8 == (width % 256) as u8) by (bit_vector);
    assert(((height & 0xff00) >> 8) as u8 == (height / 256) as u8) by (bit_vector);
    assert((height & 0x00ff) as u8 == (height % 256) as u8) by (bit_vector);
    assert(r@ =~= window_bytes(width, height));
    r
}

/// The width and height of the terminal whose size is given as the bytes width-high,
/// width-low, height-high, height-low.
pub fn terminal_size(window_size: &[u8; 4]) -> (r: (u32, u32))
    ensures
        r == size_of_window_bytes(window_size@),
{
    let width = (window_size[0] as u32) * 256 + window_size[1] as u32;
    let height = (window_size[2] as u32) * 256 + window_size[3] as u32;
    (width, height)
}

/// Reading back the size bytes of a terminal gives its width and height.
pub proof fn terminal_size_reads_window_bytes(width: u16, height: u16)
    ensures
        size_of_window_bytes(window_bytes(width, height)) == (width as u32, height as u32),
{
    let b = window_bytes(width, height);
    assert((width / 256) as u8 * 256 + (width % 256) as u8 == width) by (nonlinear_arith);
    assert((height / 256) as u8 * 256 + (height % 256) as u8 == height) by (nonlinear_arith);
}

} // verus!

verus! {

proof fn lemma_plain_scan(buf: Seq<u8>, t: int, i: int, n: NegotiatorView, window: Seq<u8>)
    requires
        0 <= i <= t <= buf.len(),
        forall|k: int| 0 <= k < t ==> #[trigger] buf[k] <= 0x7f,
    ensures
        scan(buf, t, i, n, window, false) == Some((buf.subrange(i, t).map_values(|b: u8| b as char), Seq::<u8>::empty())),
    decreases t - i,
{
    if i < t {
        lemma_plain_scan(buf, t, i + 1, n, window);
        let rest = buf.subrange(i, buf.len() as int);
        assert(rest[0] == buf[i]);
        assert(valid_first_scalar(rest));
        crate::utf8::lemma_width_1(buf[i]);
        assert(char_at(buf, i) == Some((buf[i] as char, 1int)));
        assert(buf.subrange(i, t).map_values(|b: u8| b as char) =~= seq![buf[i] as char] + buf.subrange(i + 1, t).map_values(|b: u8| b as char));
        assert(Seq::<u8>::empty() + Seq::<u8>::empty() =~= Seq::<u8>::empty());
    } else {
        assert(buf.subrange(i, t).map_values(|b: u8| b as char) =~= Seq::<char>::empty());
    }
}

/// Text without telnet commands passes through: when the first `t` received bytes are
/// ASCII, they are shown as they are and nothing is sent back.
pub proof fn plain_text_passes_through(buf: Seq<u8>, t: int, n: NegotiatorView, window: Seq<u8>)
    requires
        0 <= t <= buf.len(),
        forall|k: int| 0 <= k < t ==> #[trigger] buf[k] <= 0x7f,
    ensures
        scan(buf, t, 0, n, window, false) == Some((buf.take(t).map_values(|b: u8| b as char), Seq::<u8>::empty())),
{
    lemma_plain_scan(buf, t, 0, n, window);
    assert(buf.subrange(0, t) =~= buf.take(t));
}

/// The options the client takes part in when the server asks it to (`DO`).
pub open spec fn client_supports(opt: u8) -> bool {
    opt == SUPPRESS_GO_AHEAD || opt == TERMINAL_TYPE || opt == TERMINAL_SPEED || opt == WINDOW_SIZE
        || opt == REMOTE_FLOW_CONTROL || opt == NEW_ENVIRONMENT
}

/// A request for an option that the client does not support is refused: `IAC DO opt` is
/// answered `IAC WONT opt`, and `IAC WILL opt` for an option other than echo, suppress
/// go-ahead and terminal type is answered `IAC DONT opt`; neither shows any text.
pub proof fn unsupported_options_are_refused(opt: u8, n: NegotiatorView, window: Seq<u8>)
    ensures
        !client_supports(opt) ==> scan(seq![IAC, DO, opt], 3, 0, n, window, false) == Some(
            (Seq::<char>::empty(), seq![IAC, WONT, opt]),
        ),
        !(opt == ECHO || opt == SUPPRESS_GO_AHEAD || opt == TERMINAL_TYPE) ==> scan(
            seq![IAC, WILL, opt],
            3,
            0,
            n,
            window,
            false,
        ) == Some((Seq::<char>::empty(), seq![IAC, DONT, opt])),
{
    let d = seq![IAC, DO, opt];
    let w = seq![IAC, WILL, opt];
    assert(scan(d, 3, 3, n, window, false) == Some((Seq::<char>::empty(), Seq::<u8>::empty())));
    assert(scan(w, 3, 3, n, window, false) == Some((Seq::<char>::empty(), Seq::<u8>::empty())));
    assert(Seq::<char>::empty() + Seq::<char>::empty() =~= Seq::<char>::empty());
    assert(seq![IAC, WONT, opt] + Seq::<u8>::empty() =~= seq![IAC, WONT, opt]);
    assert(seq![IAC, DONT, opt] + Seq::<u8>::empty() =~= seq![IAC, DONT, opt]);
}

/// A server that stops an option (`WONT`, `DONT`) is answered in kind.
pub proof fn withdrawals_are_acknowledged(cmd: u8, opt: u8, n: NegotiatorView, window: Seq<u8>)
    requires
        cmd == WONT || cmd == DONT,
    ensures
        scan(seq![IAC, cmd, opt], 3, 0, n, window, false) == Some((Seq::<char>::empty(), seq![IAC, cmd, opt])),
{
    let b = seq![IAC, cmd, opt];
    assert(scan(b, 3, 3, n, window, false) == Some((Seq::<char>::empty(), Seq::<u8>::empty())));
    assert(Seq::<char>::empty() + Seq::<char>::empty() =~= Seq::<char>::empty());
    assert(seq![IAC, cmd, opt] + Seq::<u8>::empty() =~= seq![IAC, cmd, opt]);
}

} // verus!

verus! {

/// Whether the command verb `cmd` takes an option byte: `WILL`, `WONT`, `DO`, `DONT`, `SB`.
pub open spec fn takes_option(cmd: u8) -> bool {
    cmd == WILL || cmd == WONT || cmd == DO || cmd == DONT || cmd == SB
}

/// Whether every telnet command that starts among the first `t` bytes of `buf` is complete:
/// its verb, and its option where the verb takes one, are in `buf`, and a sub-negotiation is
/// closed by an SE somewhere after its option.
pub open spec fn commands_complete(buf: Seq<u8>, t: int) -> bool {
    forall|p: int|
        0 <= p < t && #[trigger] buf[p] == IAC ==> {
            &&& p + 1 < buf.len()
            &&& takes_option(buf[p + 1]) ==> p + 2 < buf.len()
            &&& buf[p + 1] == SB ==> exists|q: int| p + 2 <= q < buf.len() && #[trigger] buf[q] == SE
        }
}

proof fn lemma_scan_complete(buf: Seq<u8>, t: int, i: int, n: NegotiatorView, window: Seq<u8>)
    requires
        0 <= i,
        t <= buf.len(),
        commands_complete(buf, t),
    ensures
        scan(buf, t, i, n, window, false) is Some,
    decreases buf.len() - i, 1int,
{
    if i >= buf.len() || i >= t {
    } else if buf[i] != IAC {
        match char_at(buf, i) {
            Some((c, w)) => {
                let rest = buf.subrange(i, buf.len() as int);
                assert(1 <= w <= rest.len());
                lemma_scan_complete(buf, t, i + w, n, window);
            },
            None => lemma_scan_complete(buf, t, i + 1, n, window),
        }
    } else {
        assert(buf[i] == IAC);
        let cmd = buf[i + 1];
        if takes_option(cmd) {
            if cmd == SB {
                let q = choose|q: int| i + 2 <= q < buf.len() && #[trigger] buf[q] == SE;
                lemma_skip_complete(buf, t, i + 2, q, n, window);
            } else {
                lemma_scan_complete(buf, t, i + 3, n, window);
            }
        } else {
            lemma_scan_complete(buf, t, i + 2, n, window);
        }
    }
}

proof fn lemma_skip_complete(buf: Seq<u8>, t: int, j: int, q: int, n: NegotiatorView, window: Seq<u8>)
    requires
        0 <= j <= q < buf.len(),
        buf[q] == SE,
        t <= buf.len(),
        commands_complete(buf, t),
    ensures
        scan(buf, t, j, n, window, true) is Some,
    decreases buf.len() - j, 0int,
{
    if buf[j] == SE {
        lemma_scan_complete(buf, t, j + 1, n, window);
    } else {
        lemma_skip_complete(buf, t, j + 1, q, n, window);
    }
}

/// Reading telnet data whose commands are all complete never runs past the end of the
/// buffer: `parse_commands` can be called on it.
pub proof fn complete_commands_can_be_read(buf: Seq<u8>, t: int, n: NegotiatorView, window: Seq<u8>)
    requires
        t <= buf.len(),
        commands_complete(buf, t),
    ensures
        scan(buf, t, 0, n, window, false) is Some,
{
    lemma_scan_complete(buf, t, 0, n, window);
}

/// Whether, reading the first `t` bytes of `buf` from index `i` as `parse_commands` reads
/// them (inside a sub-negotiation when `skipping`), every command reached has its verb and
/// option in `buf` (the two bytes after its IAC) and every sub-negotiation reached is closed
/// by an SE. Bytes the reading skips (the inside of a sub-negotiation, a command's option)
/// are not looked at.
pub open spec fn reached_commands_complete(buf: Seq<u8>, t: int, i: int, skipping: bool) -> bool
    decreases buf.len() - i, if skipping { 1int } else { 0int },
{
    if i < 0 || i >= buf.len() {
        !skipping
    } else if skipping {
        if buf[i] == SE {
            reached_commands_complete(buf, t, i + 1, false)
        } else {
            reached_commands_complete(buf, t, i + 1, true)
        }
    } else if i >= t {
        true
    } else if buf[i] != IAC {
        match char_at(buf, i) {
            Some((c, w)) => reached_commands_complete(buf, t, i + w, false),
            None => reached_commands_complete(buf, t, i + 1, false),
        }
    } else if i + 2 >= buf.len() {
        false
    } else if buf[i + 1] == SB {
        reached_commands_complete(buf, t, i + 2, true)
    } else if takes_option(buf[i + 1]) {
        reached_commands_complete(buf, t, i + 3, false)
    } else {
        reached_commands_complete(buf, t, i + 2, false)
    }
}

proof fn lemma_reached_complete(buf: Seq<u8>, t: int, i: int, skipping: bool, n: NegotiatorView, window: Seq<u8>)
    requires
        0 <= i,
        t <= buf.len(),
        reached_commands_complete(buf, t, i, skipping),
    ensures
        scan(buf, t, i, n, window, skipping) is Some,
    decreases buf.len() - i, if skipping { 1int } else { 0int },
{
    if i < 0 || i >= buf.len() {
    } else if skipping {
        if buf[i] == SE {
            lemma_reached_complete(buf, t, i + 1, false, n, window);
        } else {
            lemma_reached_complete(buf, t, i + 1, true, n, window);
        }
    } else if i >= t {
    } else if buf[i] != IAC {
        match char_at(buf, i) {
            Some((c, w)) => lemma_reached_complete(buf, t, i + w, false, n, window),
            None => lemma_reached_complete(buf, t, i + 1, false, n, window),
        }
    } else {
        let cmd = buf[i + 1];
        if cmd == SB {
            lemma_reached_complete(buf, t, i + 2, true, n, window);
        } else if takes_option(cmd) {
            lemma_reached_complete(buf, t, i + 3, false, n, window);
        } else {
            lemma_reached_complete(buf, t, i + 2, false, n, window);
        }
    }
}

/// Reading telnet data never runs past the end of the buffer when every command that the
/// reading reaches among the first `t` bytes is complete: `parse_commands` can be called on
/// it, whatever the bytes it skips hold.
pub proof fn reached_commands_can_be_read(buf: Seq<u8>, t: int, n: NegotiatorView, window: Seq<u8>)
    requires
        t <= buf.len(),
        reached_commands_complete(buf, t, 0, false),
    ensures
        scan(buf, t, 0, n, window, false) is Some,
{
    lemma_reached_complete(buf, t, 0, false, n, window);
}

} // verus!

verus! {

proof fn lemma_three_byte_command(b: Seq<u8>, n: NegotiatorView, window: Seq<u8>, reply: Seq<u8>)
    requires
        b.len() == 3,
        b[0] == 0xFFu8,
        scan(b, 3, 3, n, window, false) == Some((Seq::<char>::empty(), Seq::<u8>::empty())),
    ensures
        prepend(Seq::empty(), reply, scan(b, 3, 3, n, window, false)) == Some((Seq::<char>::empty(), reply)),
{
    assert(Seq::<char>::empty() + Seq::<char>::empty() =~= Seq::<char>::empty());
    assert(reply + Seq::<u8>::empty() =~= reply);
}

/// The server's offers of echo (1), suppress-go-ahead (3) and terminal type (24) are
/// accepted: `IAC WILL opt` is answered `IAC DO opt`, and no text is shown.
pub proof fn offered_options_are_accepted(opt: u8, n: NegotiatorView, window: Seq<u8>)
    requires
        opt == 1 || opt == 3 || opt == 24,
    ensures
        scan(seq![0xFFu8, 0xFB, opt], 3, 0, n, window, false) == Some(
            (Seq::<char>::empty(), seq![0xFFu8, 0xFD, opt]),
        ),
{
    let b = seq![0xFFu8, 0xFB, opt];
    assert(scan(b, 3, 3, n, window, false) == Some((Seq::<char>::empty(), Seq::<u8>::empty())));
    lemma_three_byte_command(b, n, window, seq![0xFFu8, 0xFD, opt]);
}

/// The server's requests for the options the client offers are answered: suppress-go-ahead
/// (3), terminal type (24) and terminal speed (32) with `IAC WILL opt`; window size (31) with
/// the window-size sub-negotiation `IAC SB 31 <size> IAC SE`; remote flow control (33) with
/// `IAC WONT ECHO`; the environment (39) with `IAC WILL 39` when a login user is known and
/// `IAC WONT 39` otherwise.
pub proof fn requested_options_are_answered(opt: u8, n: NegotiatorView, window: Seq<u8>)
    ensures
        (opt == 3 || opt == 24 || opt == 32) ==> scan(seq![0xFFu8, 0xFD, opt], 3, 0, n, window, false)
            == Some((Seq::<char>::empty(), seq![0xFFu8, 0xFB, opt])),
        opt == 31 ==> scan(seq![0xFFu8, 0xFD, opt], 3, 0, n, window, false) == Some(
            (Seq::<char>::empty(), seq![0xFFu8, 0xFA, 31] + window + seq![0xFFu8, 0xF0]),
        ),
        opt == 33 ==> scan(seq![0xFFu8, 0xFD, opt], 3, 0, n, window, false) == Some(
            (Seq::<char>::empty(), seq![0xFFu8, 0xFC, 1]),
        ),
        opt == 39 ==> scan(seq![0xFFu8, 0xFD, opt], 3, 0, n, window, false) == Some(
            (
                Seq::<char>::empty(),
                seq![0xFFu8, if n.login_user.len() == 0 { 0xFCu8 } else { 0xFBu8 }, 39],
            ),
        ),
{
    let b = seq![0xFFu8, 0xFD, opt];
    assert(scan(b, 3, 3, n, window, false) == Some((Seq::<char>::empty(), Seq::<u8>::empty())));
    lemma_three_byte_command(b, n, window, do_reply(opt, n.login_user, window));
    if opt == 31 {
        assert(do_reply(opt, n.login_user, window) =~= seq![0xFFu8, 0xFA, 31] + window + seq![0xFFu8, 0xF0]);
    }
}

} // verus!
