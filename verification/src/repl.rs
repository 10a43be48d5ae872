use vstd::prelude::*;
use crate::flag::{Flags, FlagsView};
use crate::getch::{bytes_as_chars, final_byte_from, numbered_key, read_key, split_bytes, split_from, Key, KeyRead, KeyView};
use crate::number::{self, parse_u8};
use crate::text::{chars_of, pop_char, push_char};
use crate::utf8::encode_char;
use vstd::utf8::encode_utf8;
use crate::utf8::{char_at, decode_char_at};

verus! {

/// What the log shows after the bytes of `buf` from index `i` on have been received, starting
/// from the text `log`: a backspace (0x08) erases the last character, an ASCII byte is
/// appended, and a well-formed UTF-8 sequence appends its character. A byte that starts no
/// well-formed sequence is dropped when at least four bytes follow it; otherwise the rest of
/// the buffer is dropped.
pub open spec fn log_appearance(log: Seq<char>, buf: Seq<u8>, i: int) -> Seq<char>
    decreases buf.len() - i,
{
    if i < 0 || i >= buf.len() {
        log
    } else if buf[i] == 0x08 {
        log_appearance(if log.len() > 0 { log.drop_last() } else { log }, buf, i + 1)
    } else if buf[i] <= 0x7f {
        log_appearance(log.push(buf[i] as char), buf, i + 1)
    } else {
        match char_at(buf, i) {
            Some((c, w)) => log_appearance(log.push(c), buf, i + w),
            None => if i + 4 < buf.len() {
                log_appearance(log, buf, i + 1)
            } else {
                log
            },
        }
    }
}

/// Appends to `log_buf` the text that the received bytes `serial_buf` show, as a terminal
/// would show it: backspaces erase, undecodable bytes are dropped.
pub fn string_from_utf8_appearance(log_buf: &mut String, serial_buf: &[u8])
    ensures
        final(log_buf)@ == log_appearance(old(log_buf)@, serial_buf@, 0),
{
    let ghost total = log_appearance(log_buf@, serial_buf@, 0);
    let n = serial_buf.len();
    let mut i: usize = 0;
    while i < n
        invariant
            n == serial_buf@.len(),
            i <= n,
            total == log_appearance(log_buf@, serial_buf@, i as int),
            total == log_appearance(old(log_buf)@, serial_buf@, 0),
        decreases n - i,
    {
        let c = serial_buf[i];
        if c == 0x08 {
            let _ = pop_char(log_buf);
            i = i + 1;
        } else if c <= 0x7f {
            push_char(log_buf, c as char);
            i = i + 1;
        } else {
            match decode_char_at(serial_buf, i) {
                Some((ch, w)) => {
                    push_char(log_buf, ch);
                    i = i + w;
                },
                None => {
                    if n - i > 4 {
                        i = i + 1;
                    } else {
                        assert(log_appearance(log_buf@, serial_buf@, i as int) == log_buf@);
                        return;
                    }
                },
            }
        }
    }
}

} // verus!

verus! {

/// The key that starts an escape sequence: `~`.
pub open spec fn escape_signal() -> KeyView {
    KeyView::Char('~')
}

/// The keys that the transmitter takes as the escape signal: `~`, also when the keyboard
/// reports it with Alt (as layouts that type `~` with AltGr do).
pub open spec fn is_escape_signal(k: KeyView) -> bool {
    k == escape_signal() || k == KeyView::Alt('~')
}

/// The keys that, after `~`, drop the connection: `.` and Ctrl-D.
pub open spec fn is_exit_char(k: KeyView) -> bool {
    k == KeyView::Char('.') || k == KeyView::Ctrl('d')
}

/// The keys that can be sent to the remote side: function keys 1 to 12, and Ctrl with a
/// letter or with 4 to 7 (as the terminal reports them); any other key.
pub open spec fn is_sendable(k: KeyView) -> bool {
    match k {
        KeyView::F(n) => 1 <= n <= 12,
        KeyView::Ctrl(c) => ('a' <= c <= 'z') || ('4' <= c <= '7'),
        _ => true,
    }
}

/// The bytes that are sent for the key `k`.
pub open spec fn key_bytes(k: KeyView) -> Seq<u8> {
    match k {
        KeyView::Null => seq![0x00u8],
        KeyView::Backspace => seq![0x08u8],
        KeyView::Delete => seq![0x7fu8],
        KeyView::Esc => seq![0x1bu8],
        KeyView::Up => seq![0x1bu8, 0x5b, 0x41],
        KeyView::Down => seq![0x1bu8, 0x5b, 0x42],
        KeyView::Right => seq![0x1bu8, 0x5b, 0x43],
        KeyView::Left => seq![0x1bu8, 0x5b, 0x44],
        KeyView::End => seq![0x1bu8, 0x5b, 0x46],
        KeyView::Home => seq![0x1bu8, 0x5b, 0x48],
        KeyView::BackTab => seq![0x1bu8, 0x5b, 0x5a],
        KeyView::Insert => seq![0x1bu8, 0x5b, 0x32, 0x7e],
        KeyView::PageUp => seq![0x1bu8, 0x5b, 0x35, 0x7e],
        KeyView::PageDown => seq![0x1bu8, 0x5b, 0x36, 0x7e],
        KeyView::F(n) => if 1 <= n <= 5 {
            seq![0x1bu8, 0x5b, 0x31, (n + 0x30) as u8, 0x7e]
        } else if 6 <= n <= 8 {
            seq![0x1bu8, 0x5b, 0x31, (n + 0x31) as u8, 0x7e]
        } else if 9 <= n <= 10 {
            seq![0x1bu8, 0x5b, 0x32, (n + 0x30 - 9) as u8, 0x7e]
        } else {
            seq![0x1bu8, 0x5b, 0x32, (n + 0x30 - 8) as u8, 0x7e]
        },
        KeyView::Char(c) => encode_utf8(seq![c]),
        KeyView::Alt(c) => seq![0x1bu8, c as u8],
        KeyView::Ctrl(c) => if 'a' <= c <= 'z' {
            seq![(c as u8 - 0x61 + 1) as u8]
        } else if c == '4' {
            seq![0x1bu8, 0x5b, 0x31, 0x3b, 0x35, 0x53]
        } else if c == '5' {
            seq![0x1bu8, 0x5b, 0x31, 0x35, 0x3b, 0x35, 0x7e]
        } else if c == '6' {
            seq![0x1bu8, 0x5b, 0x31, 0x37, 0x3b, 0x35, 0x7e]
        } else {
            seq![0x1bu8, 0x5b, 0x31, 0x38, 0x3b, 0x35, 0x7e]
        },
        KeyView::Other(b) => b,
    }
}

/// Whether the key `key` can be sent to the remote side.
pub fn key_is_sendable(key: &Key) -> (r: bool)
    ensures
        r == is_sendable(key@),
{
    match key {
        Key::F(n) => 1 <= *n && *n <= 12,
        Key::Ctrl(c) => ('a' <= *c && *c <= 'z') || ('4' <= *c && *c <= '7'),
        _ => true,
    }
}

/// The bytes to send to the remote side for the key `key`.
pub fn key_to_bytes(key: &Key) -> (r: Vec<u8>)
    requires
        is_sendable(key@),
    ensures
        r@ == key_bytes(key@),
{
    let r = match key {
        Key::Null => vec![0x00],
        Key::Backspace => vec![0x08],
        Key::Delete => vec![0x7f],
        Key::Esc => vec![0x1b],
        Key::Up => vec![0x1b, 0x5b, 0x41],
        Key::Down => vec![0x1b, 0x5b, 0x42],
        Key::Right => vec![0x1b, 0x5b, 0x43],
        Key::Left => vec![0x1b, 0x5b, 0x44],
        Key::End => vec![0x1b, 0x5b, 0x46],
        Key::Home => vec![0x1b, 0x5b, 0x48],
        Key::BackTab => vec![0x1b, 0x5b, 0x5a],
        Key::Insert => vec![0x1b, 0x5b, 0x32, 0x7e],
        Key::PageUp => vec![0x1b, 0x5b, 0x35, 0x7e],
        Key::PageDown => vec![0x1b, 0x5b, 0x36, 0x7e],
        Key::F(n) => {
            let n = *n;
            if n <= 5 {
                vec![0x1b, 0x5b, 0x31, n + 0x30, 0x7e]
            } else if n <= 8 {
                vec![0x1b, 0x5b, 0x31, n + 0x31, 0x7e]
            } else if n <= 10 {
                vec![0x1b, 0x5b, 0x32, n + 0x30 - 9, 0x7e]
            } else {
                vec![0x1b, 0x5b, 0x32, n + 0x30 - 8, 0x7e]
            }
        },
        Key::Char(c) => encode_char(*c),
        Key::Alt(c) => vec![0x1b, *c as u8],
        Key::Ctrl(c) => {
            let c = *c;
            if 'a' <= c && c <= 'z' {
                vec![(c as u8) - 0x61 + 1]
            } else if c == '4' {
                vec![0x1b, 0x5b, 0x31, 0x3b, 0x35, 0x53]
            } else if c == '5' {
                vec![0x1b, 0x5b, 0x31, 0x35, 0x3b, 0x35, 0x7e]
            } else if c == '6' {
                vec![0x1b, 0x5b, 0x31, 0x37, 0x3b, 0x35, 0x7e]
            } else {
                vec![0x1b, 0x5b, 0x31, 0x38, 0x3b, 0x35, 0x7e]
            }
        },
        Key::Other(b) => b.clone(),
    };
    assert(r@ =~= key_bytes(key@));
    r
}

} // verus!

verus! {

/// A switch that an escape sequence toggles.
#[derive(Debug, Clone, Copy, PartialEq, Eq)]
pub enum Toggle {
    NoColor,
    TimeStamp,
    InsteadCrlf,
    Hexdump,
    Debug,
}

/// What the transmitting side does with one key typed by the user.
#[derive(Debug)]
pub enum TransmitAction {
    /// `~` was typed: echo it and wait for the key that follows.
    EscapeStarted,
    /// Send `bytes`; `erase_echo` asks to erase the echoed `~` first (`~~` sends `~`).
    Send { erase_echo: bool, bytes: Vec<u8> },
    /// Drop the connection and exit (`~.`, `~^D`).
    Exit,
    /// Suspend the program (`~^Z`).
    Suspend,
    /// The switch was toggled and now has the given value (`~n`, `~t`, `~i`, `~h`, `~d`).
    Toggled(Toggle, bool),
    /// Read a command line and run it (`~!`).
    RunCommand,
    /// Read a command line, run it and send its output (`~$`).
    RunCommandAndSend,
    /// Print the list of escape sequences (`~?`).
    Help,
    /// An escape sequence that means nothing.
    Unrecognized,
}

/// The switch that `~c` toggles, for the character `c`.
pub open spec fn toggle_of(k: KeyView) -> Option<Toggle> {
    if k == KeyView::Char('n') {
        Some(Toggle::NoColor)
    } else if k == KeyView::Char('t') {
        Some(Toggle::TimeStamp)
    } else if k == KeyView::Char('i') {
        Some(Toggle::InsteadCrlf)
    } else if k == KeyView::Char('h') {
        Some(Toggle::Hexdump)
    } else if k == KeyView::Char('d') {
        Some(Toggle::Debug)
    } else {
        None
    }
}

/// The value of the switch `t` in `f`.
pub open spec fn switch_value(f: FlagsView, t: Toggle) -> bool {
    match t {
        Toggle::NoColor => f.nocolor,
        Toggle::TimeStamp => f.timestamp,
        Toggle::InsteadCrlf => f.instead_crlf,
        Toggle::Hexdump => f.hexdump,
        Toggle::Debug => f.debug,
    }
}

/// `f` with the switch `t` set to `v`.
pub open spec fn with_switch(f: FlagsView, t: Toggle, v: bool) -> FlagsView {
    match t {
        Toggle::NoColor => FlagsView { nocolor: v, ..f },
        Toggle::TimeStamp => FlagsView { timestamp: v, ..f },
        Toggle::InsteadCrlf => FlagsView { instead_crlf: v, ..f },
        Toggle::Hexdump => FlagsView { hexdump: v, ..f },
        Toggle::Debug => FlagsView { debug: v, ..f },
    }
}

fn key_is_char(key: &Key, c: char) -> (r: bool)
    ensures
        r == (key@ == KeyView::Char(c)),
{
    match key {
        Key::Char(k) => *k == c,
        _ => false,
    }
}

fn key_is_alt_tilde(key: &Key) -> (r: bool)
    ensures
        r == (key@ == KeyView::Alt('~')),
{
    match key {
        Key::Alt(k) => *k == '~',
        _ => false,
    }
}

fn key_is_ctrl(key: &Key, c: char) -> (r: bool)
    ensures
        r == (key@ == KeyView::Ctrl(c)),
{
    match key {
        Key::Ctrl(k) => *k == c,
        _ => false,
    }
}

fn toggle(flags: &mut Flags, t: Toggle) -> (v: bool)
    ensures
        v == !switch_value(old(flags)@, t),
        final(flags)@ == with_switch(old(flags)@, t, v),
{
    let r = match t {
        Toggle::NoColor => flags.nocolor_mut(),
        Toggle::TimeStamp => flags.timestamp_mut(),
        Toggle::InsteadCrlf => flags.instead_crlf_mut(),
        Toggle::Hexdump => flags.hexdump_mut(),
        Toggle::Debug => flags.debug_mut(),
    };
    *r = !*r;
    *r
}

/// One key typed by the user, given whether the key before it was the escape signal (`~`,
/// or `~` with Alt): whether this key is the escape signal awaiting its follower, and what to
/// do. The escape sequences `~n`, `~t`, `~i`, `~h`, `~d` toggle the switches in `flags`.
pub fn transmit_step(last_is_escape_signal: bool, key: &Key, flags: &mut Flags) -> (r: (
    bool,
    TransmitAction,
))
    requires
        !last_is_escape_signal ==> is_sendable(key@),
    ensures
        !last_is_escape_signal && is_escape_signal(key@) ==> r.0 && r.1 is EscapeStarted
            && final(flags)@ == old(flags)@,
        !last_is_escape_signal && !is_escape_signal(key@) ==> !r.0 && final(flags)@ == old(flags)@ && (r.1 matches TransmitAction::Send { erase_echo, bytes } && !erase_echo && bytes@ == (
            if old(flags)@.instead_crlf && key@ == KeyView::Char('\r') {
                seq![0x0du8, 0x0a]
            } else {
                key_bytes(key@)
            })),
        last_is_escape_signal ==> !r.0,
        last_is_escape_signal && is_escape_signal(key@) ==> final(flags)@ == old(flags)@ && (
        r.1 matches TransmitAction::Send { erase_echo, bytes } && erase_echo && bytes@ == key_bytes(
            key@,
        )),
        last_is_escape_signal && is_exit_char(key@) ==> r.1 is Exit && final(flags)@ == old(flags)@,
        last_is_escape_signal && key@ == KeyView::Ctrl('z') ==> r.1 is Suspend && final(flags)@
            == old(flags)@,
        last_is_escape_signal && toggle_of(key@) is Some ==> ({
            let t = toggle_of(key@)->0;
            let v = !switch_value(old(flags)@, t);
            r.1 == TransmitAction::Toggled(t, v) && final(flags)@ == with_switch(old(flags)@, t, v)
        }),
        last_is_escape_signal && key@ == KeyView::Char('!') ==> r.1 is RunCommand && final(flags)@ == old(flags)@,
        last_is_escape_signal && key@ == KeyView::Char('$') ==> r.1 is RunCommandAndSend && final(flags)@ == old(flags)@,
        last_is_escape_signal && key@ == KeyView::Char('?') ==> r.1 is Help && final(flags)@
            == old(flags)@,
        last_is_escape_signal && !(is_escape_signal(key@) || is_exit_char(key@) || key@
            == KeyView::Ctrl('z') || toggle_of(key@) is Some || key@ == KeyView::Char('!') || key@
            == KeyView::Char('$') || key@ == KeyView::Char('?')) ==> r.1 is Unrecognized && final(flags)@ == old(flags)@,
{
    let is_escape = key_is_char(key, '~') || key_is_alt_tilde(key);
    if !last_is_escape_signal {
        if is_escape {
            return (true, TransmitAction::EscapeStarted);
        }
        if *flags.instead_crlf() && key_is_char(key, '\r') {
            return (false, TransmitAction::Send { erase_echo: false, bytes: vec![0x0d, 0x0a] });
        }
        let bytes = key_to_bytes(key);
        return (false, TransmitAction::Send { erase_echo: false, bytes });
    }
    if is_escape {
        let bytes = key_to_bytes(key);
        return (false, TransmitAction::Send { erase_echo: true, bytes });
    }
    if key_is_char(key, '.') || key_is_ctrl(key, 'd') {
        return (false, TransmitAction::Exit);
    }
    if key_is_ctrl(key, 'z') {
        return (false, TransmitAction::Suspend);
    }
    let t = if key_is_char(key, 'n') {
        Some(Toggle::NoColor)
    } else if key_is_char(key, 't') {
        Some(Toggle::TimeStamp)
    } else if key_is_char(key, 'i') {
        Some(Toggle::InsteadCrlf)
    } else if key_is_char(key, 'h') {
        Some(Toggle::Hexdump)
    } else if key_is_char(key, 'd') {
        Some(Toggle::Debug)
    } else {
        None
    };
    if let Some(t) = t {
        let v = toggle(flags, t);
        return (false, TransmitAction::Toggled(t, v));
    }
    if key_is_char(key, '!') {
        (false, TransmitAction::RunCommand)
    } else if key_is_char(key, '$') {
        (false, TransmitAction::RunCommandAndSend)
    } else if key_is_char(key, '?') {
        (false, TransmitAction::Help)
    } else {
        (false, TransmitAction::Unrecognized)
    }
}

} // verus!

verus! {

/// The pieces of `s[i..]` between line feeds, following the pieces `acc` and the unfinished
/// piece `cur`, as `str::split('\n')` gives them (one more piece than there are line feeds).
pub open spec fn split_lf_from(s: Seq<char>, i: int, cur: Seq<char>, acc: Seq<Seq<char>>) -> Seq<Seq<char>>
    decreases s.len() - i,
{
    if i < 0 || i >= s.len() {
        acc.push(cur)
    } else if s[i] == '\n' {
        split_lf_from(s, i + 1, Seq::empty(), acc.push(cur))
    } else {
        split_lf_from(s, i + 1, cur.push(s[i]), acc)
    }
}

/// The pieces of `s` between line feeds.
pub open spec fn split_lf(s: Seq<char>) -> Seq<Seq<char>> {
    split_lf_from(s, 0, Seq::empty(), Seq::empty())
}

/// The text of the log split at line feeds: the finished lines, and the unfinished rest.
pub fn split_log_lines(log_buf: &str) -> (r: (Vec<String>, String))
    ensures
        r.0@.map_values(|l: String| l@) == split_lf(log_buf@).drop_last(),
        r.1@ == split_lf(log_buf@).last(),
{
    let chars = chars_of(log_buf);
    let mut acc: Vec<String> = Vec::new();
    let mut cur = String::new();
    let mut k: usize = 0;
    assert(acc@.map_values(|l: String| l@) =~= Seq::<Seq<char>>::empty());
    while k < chars.len()
        invariant
            k <= chars@.len(),
            chars@ == log_buf@,
            split_lf(log_buf@) == split_lf_from(log_buf@, k as int, cur@, acc@.map_values(|l: String| l@)),
        decreases chars@.len() - k,
    {
        let c = chars[k];
        if c == '\n' {
            let ghost before = acc@.map_values(|l: String| l@);
            let line = cur;
            acc.push(line);
            cur = String::new();
            assert(acc@.map_values(|l: String| l@) =~= before.push(line@));
        } else {
            push_char(&mut cur, c);
        }
        k += 1;
    }
    proof {
        let all = acc@.map_values(|l: String| l@).push(cur@);
        assert(all.drop_last() =~= acc@.map_values(|l: String| l@));
    }
    (acc, cur)
}

/// Whether the bytes hold a line feed.
pub fn contains_newline(bytes: &[u8]) -> (r: bool)
    ensures
        r == bytes@.contains(0x0au8),
{
    let mut k: usize = 0;
    while k < bytes.len()
        invariant
            k <= bytes@.len(),
            forall|j: int| 0 <= j < k ==> bytes@[j] != 0x0au8,
        decreases bytes@.len() - k,
    {
        if bytes[k] == 0x0a {
            return true;
        }
        k += 1;
    }
    false
}

/// What is written to the log file.
#[derive(Debug)]
pub enum LogWrite {
    /// Nothing yet.
    Nothing,
    /// These finished lines, each after a timestamp and followed by a line feed.
    Stamped(Vec<String>),
    /// This text as it is.
    Plain(String),
}

/// Records in the log the bytes `received` as they appear; once they hold a line feed, hands
/// out what is to be written: the finished lines for timestamping (the unfinished rest stays),
/// or without timestamps the whole text (and the log starts over).
pub fn log_received(log_buf: &mut String, received: &[u8], timestamp: bool) -> (r: LogWrite)
    ensures
        ({
            let shown = log_appearance(old(log_buf)@, received@, 0);
            if !received@.contains(0x0au8) {
                r is Nothing && final(log_buf)@ == shown
            } else if timestamp {
                r matches LogWrite::Stamped(lines) && lines@.map_values(|l: String| l@)
                    == split_lf(shown).drop_last() && final(log_buf)@ == split_lf(shown).last()
            } else {
                r matches LogWrite::Plain(text) && text@ == shown && final(log_buf)@
                    == Seq::<char>::empty()
            }
        }),
{
    let write = contains_newline(received);
    string_from_utf8_appearance(log_buf, received);
    if !write {
        return LogWrite::Nothing;
    }
    if timestamp {
        let (lines, rest) = split_log_lines(log_buf.as_str());
        *log_buf = rest;
        LogWrite::Stamped(lines)
    } else {
        let text = log_buf.clone();
        *log_buf = String::new();
        LogWrite::Plain(text)
    }
}

/// What is left to write to the log when the session ends: with timestamps, the finished
/// lines and then the rest, each after a timestamp (the rest without a line feed); else the
/// text as it is.
pub fn log_at_exit(log_buf: &str, timestamp: bool) -> (r: (LogWrite, Option<String>))
    ensures
        timestamp ==> (r.0 matches LogWrite::Stamped(lines) && lines@.map_values(|l: String| l@)
            == split_lf(log_buf@).drop_last()),
        timestamp ==> (r.1 matches Some(last) && last@ == split_lf(log_buf@).last()),
        !timestamp ==> (r.0 matches LogWrite::Plain(text) && text@ == log_buf@ && r.1 is None),
{
    if timestamp {
        let (lines, rest) = split_log_lines(log_buf);
        (LogWrite::Stamped(lines), Some(rest))
    } else {
        (LogWrite::Plain(log_buf.to_string()), None)
    }
}

} // verus!

verus! {

/// How received data is shown.
#[derive(Debug, Clone, Copy, PartialEq, Eq)]
pub enum Display {
    /// As a hexdump.
    Hexdump,
    /// As it came.
    Raw,
    /// Highlighted by the configuration's rules.
    Colored,
}

/// How received data is shown under the switches `flags`: the hexdump mode comes first, then
/// the no-color switch.
pub fn display_mode(flags: &Flags) -> (r: Display)
    ensures
        r == (if flags@.hexdump {
            Display::Hexdump
        } else if flags@.nocolor {
            Display::Raw
        } else {
            Display::Colored
        }),
{
    if *flags.hexdump() {
        Display::Hexdump
    } else if *flags.nocolor() {
        Display::Raw
    } else {
        Display::Colored
    }
}

/// How the log file is opened, as the session announces it: a new file, appended to, or
/// overwritten.
pub fn log_record_kind(is_new: bool, append: bool) -> (r: &'static str)
    ensures
        r@ == (if is_new {
            seq!['N', 'e', 'w']
        } else if append {
            seq!['A', 'p', 'p', 'e', 'n', 'd']
        } else {
            seq!['O', 'v', 'e', 'r', 'w', 'r', 'i', 't', 'e']
        }),
{
    proof {
        reveal_strlit("New");
        reveal_strlit("Append");
        reveal_strlit("Overwrite");
    }
    if is_new {
        "New"
    } else if append {
        "Append"
    } else {
        "Overwrite"
    }
}

/// Whether the terminal's size changed since it was last reported.
pub fn window_changed(reported: &[u8; 4], current: &[u8; 4]) -> (r: bool)
    ensures
        r == (reported@ != current@),
{
    let changed = reported[0] != current[0] || reported[1] != current[1] || reported[2] != current[2]
        || reported[3] != current[3];
    if !changed {
        assert(reported@ =~= current@);
    }
    changed
}

} // verus!

verus! {

/// Every key that is read from the terminal can be sent: function keys come out numbered 1 to
/// 12, and Ctrl only with a letter or with 4 to 7.
pub proof fn read_keys_are_sendable(s: Seq<u8>)
    ensures
        read_key(s) matches KeyRead::Done(k, n) ==> is_sendable(k),
{
    if s.len() >= 3 && s[0] == 0x1b && s[1] == 0x5b && 0x30 <= s[2] <= 0x39 {
        match final_byte_from(s, 3) {
            Some(j) => {
                let body = s.subrange(2, j);
                let parts = split_bytes(body, 0x3b);
                if s[j] == 0x7e && parts.len() == 1 {
                    let v = parse_u8(bytes_as_chars(parts[0]));
                    if v is Some {
                        let other = KeyView::Other(seq![0x1bu8, 0x5b] + body);
                        assert(is_sendable(numbered_key(v->0, other)));
                    }
                }
            },
            None => {},
        }
    }
}

} // verus!

verus! {

proof fn lemma_two_digit_sequence(d1: u8, d2: u8)
    requires
        0x30 <= d1 <= 0x39,
        0x30 <= d2 <= 0x39,
    ensures
        read_key(seq![0x1bu8, 0x5b, d1, d2, 0x7e]) == KeyRead::Done(
            numbered_key(((d1 - 0x30) * 10 + (d2 - 0x30)) as u8, KeyView::Other(seq![0x1bu8, 0x5b, d1, d2])),
            5,
        ),
{
    let s = seq![0x1bu8, 0x5b, d1, d2, 0x7e];
    assert(final_byte_from(s, 4) == Some(4int));
    assert(final_byte_from(s, 3) == Some(4int));
    let body = s.subrange(2, 4);
    assert(body =~= seq![d1, d2]);
    assert(split_bytes(body, 0x3b) =~= seq![seq![d1, d2]]) by {
        let e = Seq::<Seq<u8>>::empty();
        assert(Seq::<u8>::empty().push(d1) =~= seq![d1]);
        assert(seq![d1].push(d2) =~= seq![d1, d2]);
        assert(split_from(body, 0x3b, 2, seq![d1, d2], e) == e.push(seq![d1, d2]));
        assert(split_from(body, 0x3b, 1, seq![d1], e) == split_from(body, 0x3b, 2, seq![d1, d2], e));
        assert(split_from(body, 0x3b, 0, Seq::empty(), e) == split_from(body, 0x3b, 1, seq![d1], e));
        assert(e.push(seq![d1, d2]) =~= seq![seq![d1, d2]]);
    }
    let cs = bytes_as_chars(seq![d1, d2]);
    assert(cs =~= seq![d1 as char, d2 as char]);
    assert(cs.drop_last() =~= seq![d1 as char]);
    assert(number::digits_value(seq![d1 as char], 10) == Some((d1 - 0x30) as int));
    assert(number::digits_value(cs, 10) == Some(((d1 - 0x30) * 10 + (d2 - 0x30)) as int));
    assert(cs[0] != '+');
    assert(parse_u8(cs) == Some(((d1 - 0x30) * 10 + (d2 - 0x30)) as u8));
    let parts = split_bytes(body, 0x3b);
    assert(parts[0] == seq![d1, d2]);
    assert(forall|k: int| 0 <= k < parts.len() ==> (#[trigger] parse_u8(bytes_as_chars(parts[k]))) is Some);
    assert(seq![0x1bu8, 0x5b] + body =~= seq![0x1bu8, 0x5b, d1, d2]);
}

proof fn lemma_one_digit_sequence(d: u8)
    requires
        0x30 <= d <= 0x39,
    ensures
        read_key(seq![0x1bu8, 0x5b, d, 0x7e]) == KeyRead::Done(
            numbered_key((d - 0x30) as u8, KeyView::Other(seq![0x1bu8, 0x5b, d])),
            4,
        ),
{
    let s = seq![0x1bu8, 0x5b, d, 0x7e];
    assert(final_byte_from(s, 3) == Some(3int));
    let body = s.subrange(2, 3);
    assert(body =~= seq![d]);
    assert(split_bytes(body, 0x3b) =~= seq![seq![d]]) by {
        let e = Seq::<Seq<u8>>::empty();
        assert(Seq::<u8>::empty().push(d) =~= seq![d]);
        assert(split_from(body, 0x3b, 1, seq![d], e) == e.push(seq![d]));
        assert(split_from(body, 0x3b, 0, Seq::empty(), e) == split_from(body, 0x3b, 1, seq![d], e));
        assert(e.push(seq![d]) =~= seq![seq![d]]);
    }
    let cs = bytes_as_chars(seq![d]);
    assert(cs =~= seq![d as char]);
    assert(parse_u8(cs) == Some((d - 0x30) as u8));
    let parts = split_bytes(body, 0x3b);
    assert(parts[0] == seq![d]);
    assert(forall|k: int| 0 <= k < parts.len() ==> (#[trigger] parse_u8(bytes_as_chars(parts[k]))) is Some);
    assert(seq![0x1bu8, 0x5b] + body =~= seq![0x1bu8, 0x5b, d]);
}

/// The numbered sequences of the editing keys read as those keys: `ESC [ d ~` is Home for
/// d = 1 or 7, Insert for 2, Delete for 3, End for 4 or 8, Page Up for 5, Page Down for 6.
pub proof fn editing_keys_read_back(d: u8)
    requires
        0x31 <= d <= 0x38,
    ensures
        read_key(seq![0x1bu8, 0x5b, d, 0x7e]) == KeyRead::Done(
            if d == 0x31 || d == 0x37 {
                KeyView::Home
            } else if d == 0x32 {
                KeyView::Insert
            } else if d == 0x33 {
                KeyView::Delete
            } else if d == 0x34 || d == 0x38 {
                KeyView::End
            } else if d == 0x35 {
                KeyView::PageUp
            } else {
                KeyView::PageDown
            },
            4,
        ),
{
    lemma_one_digit_sequence(d);
}

/// The numbered sequences of the function keys read as those keys: `ESC [ 1 1 ~` to
/// `ESC [ 1 5 ~` are F1 to F5, `ESC [ 1 7 ~` to `ESC [ 2 1 ~` are F6 to F10, and
/// `ESC [ 2 3 ~`, `ESC [ 2 4 ~` are F11 and F12.
pub proof fn function_keys_read_back(v: u8)
    requires
        11 <= v <= 15 || 17 <= v <= 21 || 23 <= v <= 24,
    ensures
        read_key(seq![0x1bu8, 0x5b, (0x30 + v / 10) as u8, (0x30 + v % 10) as u8, 0x7e]) == KeyRead::Done(
            KeyView::F(
                (if v <= 15 {
                    v - 10
                } else if v <= 21 {
                    v - 11
                } else {
                    v - 12
                }) as u8,
            ),
            5,
        ),
{
    lemma_two_digit_sequence((0x30 + v / 10) as u8, (0x30 + v % 10) as u8);
}

/// The keys that the transmitter sends as escape sequences or single control bytes.
pub open spec fn is_navigation_key(k: KeyView) -> bool {
    match k {
        KeyView::Null | KeyView::Backspace | KeyView::Delete | KeyView::Up | KeyView::Down
        | KeyView::Right | KeyView::Left | KeyView::End | KeyView::Home | KeyView::BackTab
        | KeyView::Insert | KeyView::PageUp | KeyView::PageDown => true,
        KeyView::F(n) => 1 <= n <= 12,
        _ => false,
    }
}

/// What the transmitter sends for a navigation, editing or function key reads back, as a
/// terminal's input, as that same key.
pub proof fn sent_keys_read_back(k: KeyView)
    requires
        is_navigation_key(k),
    ensures
        read_key(key_bytes(k)) == KeyRead::Done(k, key_bytes(k).len()),
{
    match k {
        KeyView::Insert => lemma_one_digit_sequence(0x32),
        KeyView::PageUp => lemma_one_digit_sequence(0x35),
        KeyView::PageDown => lemma_one_digit_sequence(0x36),
        KeyView::F(n) => {
            if n <= 5 {
                lemma_two_digit_sequence(0x31, (n + 0x30) as u8);
            } else if n <= 8 {
                lemma_two_digit_sequence(0x31, (n + 0x31) as u8);
            } else if n <= 10 {
                lemma_two_digit_sequence(0x32, (n + 0x30 - 9) as u8);
            } else {
                lemma_two_digit_sequence(0x32, (n + 0x30 - 8) as u8);
            }
        },
        _ => {},
    }
}

/// A printable character that the transmitter sends (as its UTF-8 encoding) reads back, as a
/// terminal's input, as that same character.
pub proof fn sent_characters_read_back(c: char)
    requires
        c >= ' ',
        c != '\x7f',
    ensures
        read_key(key_bytes(KeyView::Char(c))) == KeyRead::Done(KeyView::Char(c), key_bytes(KeyView::Char(c)).len()),
{
    let bytes = encode_utf8(seq![c]);
    vstd::utf8::encode_utf8_first_scalar(seq![c]);
    assert(seq![c].drop_first() =~= Seq::<char>::empty());
    assert(bytes =~= vstd::utf8::encode_scalar(c as u32) + encode_utf8(Seq::<char>::empty()));
    assert(encode_utf8(Seq::<char>::empty()) =~= Seq::<u8>::empty());
    vstd::utf8::char_u32_cast(c, vstd::utf8::decode_first_scalar(bytes));
    if bytes[0] <= 0x7f {
        crate::utf8::lemma_width_1(bytes[0]);
        assert(bytes[0] as u32 == c as u32);
        vstd::utf8::char_u32_cast(c, bytes[0] as u32);
        assert(bytes.len() == 1);
    } else {
        let w = bytes.len() as int;
        assert(bytes.subrange(0, w) =~= bytes);
        assert(bytes.subrange(0, bytes.len() as int) =~= bytes);
        assert(char_at(bytes, 0) == Some((c, w)));
    }
}

} // verus!

verus! {

/// A character that the user types is sent as its UTF-8 encoding, and the log shows that
/// encoding as the character itself (backspace aside, which erases).
pub proof fn typed_character_is_logged_as_itself(log: Seq<char>, c: char)
    requires
        c != '\x08',
    ensures
        log_appearance(log, key_bytes(KeyView::Char(c)), 0) == log.push(c),
{
    let bytes = encode_utf8(seq![c]);
    vstd::utf8::encode_utf8_first_scalar(seq![c]);
    assert(seq![c].drop_first() =~= Seq::<char>::empty());
    assert(bytes =~= vstd::utf8::encode_scalar(c as u32) + encode_utf8(Seq::<char>::empty()));
    assert(encode_utf8(Seq::<char>::empty()) =~= Seq::<u8>::empty());
    let w = vstd::utf8::length_of_first_scalar(bytes);
    assert(bytes.subrange(0, bytes.len() as int) =~= bytes);
    vstd::utf8::char_u32_cast(c, vstd::utf8::decode_first_scalar(bytes));
    if bytes[0] <= 0x7f {
        crate::utf8::lemma_width_1(bytes[0]);
        assert(bytes[0] as u32 == c as u32);
        vstd::utf8::char_u32_cast(c, bytes[0] as u32);
        assert(log_appearance(log.push(c), bytes, 1) == log.push(c));
    } else {
        assert(char_at(bytes, 0) == Some((c, w)));
        assert(log_appearance(log.push(c), bytes, w) == log.push(c));
    }
}

} // verus!

verus! {

/// The pieces joined with line feeds between them.
pub open spec fn join_lf(pieces: Seq<Seq<char>>) -> Seq<char>
    decreases pieces.len(),
{
    if pieces.len() == 0 {
        Seq::empty()
    } else if pieces.len() == 1 {
        pieces[0]
    } else {
        join_lf(pieces.drop_last()) + seq!['\n'] + pieces.last()
    }
}

proof fn lemma_join_push_char(acc: Seq<Seq<char>>, cur: Seq<char>, c: char)
    ensures
        join_lf(acc.push(cur.push(c))) == join_lf(acc.push(cur)) + seq![c],
{
    assert(acc.push(cur.push(c)).drop_last() =~= acc);
    assert(acc.push(cur).drop_last() =~= acc);
    if acc.len() == 0 {
        assert(cur.push(c) =~= cur + seq![c]);
    } else {
        assert(join_lf(acc) + seq!['\n'] + cur.push(c) =~= join_lf(acc) + seq!['\n'] + cur + seq![c]);
    }
}

proof fn lemma_split_lf_rejoin(s: Seq<char>, i: int, cur: Seq<char>, acc: Seq<Seq<char>>)
    requires
        0 <= i <= s.len(),
    ensures
        join_lf(split_lf_from(s, i, cur, acc)) == join_lf(acc.push(cur)) + s.skip(i),
    decreases s.len() - i,
{
    if i == s.len() {
        assert(s.skip(i) =~= Seq::<char>::empty());
        assert(join_lf(acc.push(cur)) + Seq::<char>::empty() =~= join_lf(acc.push(cur)));
    } else if s[i] == '\n' {
        lemma_split_lf_rejoin(s, i + 1, Seq::empty(), acc.push(cur));
        let a2 = acc.push(cur).push(Seq::empty());
        assert(a2.drop_last() =~= acc.push(cur));
        assert(join_lf(a2) =~= join_lf(acc.push(cur)) + seq!['\n']);
        assert(s.skip(i) =~= seq!['\n'] + s.skip(i + 1));
        assert(join_lf(a2) + s.skip(i + 1) =~= join_lf(acc.push(cur)) + s.skip(i));
    } else {
        lemma_split_lf_rejoin(s, i + 1, cur.push(s[i]), acc);
        lemma_join_push_char(acc, cur, s[i]);
        assert(s.skip(i) =~= seq![s[i]] + s.skip(i + 1));
        assert(join_lf(acc.push(cur)) + seq![s[i]] + s.skip(i + 1) =~= join_lf(acc.push(cur)) + s.skip(i));
    }
}

/// Splitting the log at line feeds loses nothing: the pieces, joined again with line feeds,
/// give back the text. (The finished lines that are written with timestamps, each followed by
/// a line feed, and the rest that stays, are these pieces.)
pub proof fn log_lines_rejoin(s: Seq<char>)
    ensures
        join_lf(split_lf(s)) == s,
{
    lemma_split_lf_rejoin(s, 0, Seq::empty(), Seq::empty());
    assert(Seq::<Seq<char>>::empty().push(Seq::<char>::empty()) =~= seq![Seq::<char>::empty()]);
    assert(s.skip(0) =~= s);
    assert(Seq::<char>::empty() + s =~= s);
}

} // verus!

verus! {

/// An escape sequence that toggles a switch changes that switch and no other: the switch
/// takes the value given, every other switch and the log file stay.
pub proof fn toggle_changes_only_its_switch(f: FlagsView, t: Toggle, u: Toggle, v: bool)
    ensures
        switch_value(with_switch(f, t, v), t) == v,
        u != t ==> switch_value(with_switch(f, t, v), u) == switch_value(f, u),
        with_switch(f, t, v).append == f.append,
        with_switch(f, t, v).write_file == f.write_file,
{
}

/// Typing the same toggling escape sequence twice leaves the switches as they were.
pub proof fn toggling_twice_restores(f: FlagsView, t: Toggle)
    ensures
        ({
            let f1 = with_switch(f, t, !switch_value(f, t));
            with_switch(f1, t, !switch_value(f1, t)) == f
        }),
{
}

/// A backspace that follows a typed character erases it from the log.
pub proof fn backspace_erases_typed_character(log: Seq<char>, c: char)
    requires
        c != '\x08',
    ensures
        log_appearance(log, key_bytes(KeyView::Char(c)) + seq![0x08u8], 0) == log,
{
    let bytes = encode_utf8(seq![c]);
    let all = bytes + seq![0x08u8];
    vstd::utf8::encode_utf8_first_scalar(seq![c]);
    assert(seq![c].drop_first() =~= Seq::<char>::empty());
    assert(bytes =~= vstd::utf8::encode_scalar(c as u32) + encode_utf8(Seq::<char>::empty()));
    assert(encode_utf8(Seq::<char>::empty()) =~= Seq::<u8>::empty());
    let w = bytes.len() as int;
    assert(log_appearance(log, all, w + 1) == log);
    assert(log_appearance(log.push(c), all, w) == log) by {
        assert(all[w] == 0x08u8);
        assert(log.push(c).drop_last() =~= log);
    }
    vstd::utf8::char_u32_cast(c, vstd::utf8::decode_first_scalar(bytes));
    if bytes[0] <= 0x7f {
        crate::utf8::lemma_width_1(bytes[0]);
        assert(bytes[0] as u32 == c as u32);
        vstd::utf8::char_u32_cast(c, bytes[0] as u32);
        assert(all[0] == bytes[0]);
    } else {
        assert(all.subrange(0, all.len() as int) =~= all);
        assert(bytes.subrange(0, bytes.len() as int) =~= bytes);
        assert(char_at(all, 0) == Some((c, w)));
    }
}

} // verus!
