use vstd::prelude::*;
use crate::number::{self, parse_u8, parse_u8_chars};
use crate::utf8::{self, decode_char_at};

verus! {

/// A key.
#[derive(Debug, Clone, PartialEq, Eq, Hash)]
pub enum Key {
    /// Null byte.
    Null,
    /// Backspace.
    Backspace,
    /// Delete key.
    Delete,
    /// Esc key.
    Esc,
    /// Up arrow.
    Up,
    /// Down arrow.
    Down,
    /// Right arrow.
    Right,
    /// Left arrow.
    Left,
    /// End key.
    End,
    /// Home key.
    Home,
    /// Backward Tab key.
    BackTab,
    /// Insert key.
    Insert,
    /// Page Up key.
    PageUp,
    /// Page Down key.
    PageDown,
    /// Function keys.
    ///
    /// Only function keys 1 through 12 are supported.
    F(u8),
    /// Normal character.
    Char(char),
    /// Alt modified character.
    Alt(char),
    /// Ctrl modified character.
    ///
    /// Note that certain keys may not be modifiable with `ctrl`, due to limitations of terminals.
    Ctrl(char),
    /// Other key.
    Other(Vec<u8>),
}

/// A key as a plain value: the bytes of `Other` are a sequence.
pub enum KeyView {
    Null,
    Backspace,
    Delete,
    Esc,
    Up,
    Down,
    Right,
    Left,
    End,
    Home,
    BackTab,
    Insert,
    PageUp,
    PageDown,
    F(u8),
    Char(char),
    Alt(char),
    Ctrl(char),
    Other(Seq<u8>),
}

impl View for Key {
    type V = KeyView;

    open spec fn view(&self) -> KeyView {
        match self {
            Key::Null => KeyView::Null,
            Key::Backspace => KeyView::Backspace,
            Key::Delete => KeyView::Delete,
            Key::Esc => KeyView::Esc,
            Key::Up => KeyView::Up,
            Key::Down => KeyView::Down,
            Key::Right => KeyView::Right,
            Key::Left => KeyView::Left,
            Key::End => KeyView::End,
            Key::Home => KeyView::Home,
            Key::BackTab => KeyView::BackTab,
            Key::Insert => KeyView::Insert,
            Key::PageUp => KeyView::PageUp,
            Key::PageDown => KeyView::PageDown,
            Key::F(n) => KeyView::F(*n),
            Key::Char(c) => KeyView::Char(*c),
            Key::Alt(c) => KeyView::Alt(*c),
            Key::Ctrl(c) => KeyView::Ctrl(*c),
            Key::Other(v) => KeyView::Other(v@),
        }
    }
}

/// A copy of `k`.
pub fn copy_key(k: &Key) -> (r: Key)
    ensures
        r@ == k@,
{
    match k {
        Key::Null => Key::Null,
        Key::Backspace => Key::Backspace,
        Key::Delete => Key::Delete,
        Key::Esc => Key::Esc,
        Key::Up => Key::Up,
        Key::Down => Key::Down,
        Key::Right => Key::Right,
        Key::Left => Key::Left,
        Key::End => Key::End,
        Key::Home => Key::Home,
        Key::BackTab => Key::BackTab,
        Key::Insert => Key::Insert,
        Key::PageUp => Key::PageUp,
        Key::PageDown => Key::PageDown,
        Key::F(n) => Key::F(*n),
        Key::Char(c) => Key::Char(*c),
        Key::Alt(c) => Key::Alt(*c),
        Key::Ctrl(c) => Key::Ctrl(*c),
        Key::Other(v) => Key::Other(v.clone()),
    }
}

} // verus!

verus! {

/// Where reading a key from a byte stream stands once the bytes `s` have arrived.
pub enum KeyRead {
    /// More bytes are needed.
    More,
    /// The key is complete after the first `n` bytes.
    Done(KeyView, nat),
    /// A numbered escape sequence that does not read as `;`-separated bytes: reading it
    /// stops the program.
    Malformed,
}

/// The parts of `s[i..]` between the separators `sep`, following the parts `acc` and the
/// unfinished part `cur`; two separators in a row give an empty part, as `str::split` does.
pub open spec fn split_from(s: Seq<u8>, sep: u8, i: int, cur: Seq<u8>, acc: Seq<Seq<u8>>) -> Seq<Seq<u8>>
    decreases s.len() - i,
{
    if i < 0 || i >= s.len() {
        acc.push(cur)
    } else if s[i] == sep {
        split_from(s, sep, i + 1, Seq::empty(), acc.push(cur))
    } else {
        split_from(s, sep, i + 1, cur.push(s[i]), acc)
    }
}

/// The parts of `s` separated by `sep`.
pub open spec fn split_bytes(s: Seq<u8>, sep: u8) -> Seq<Seq<u8>> {
    split_from(s, sep, 0, Seq::empty(), Seq::empty())
}

/// Bytes read as characters of the same code.
pub open spec fn bytes_as_chars(s: Seq<u8>) -> Seq<char> {
    s.map_values(|b: u8| b as char)
}

/// The character whose UTF-8 encoding starts at `s[start]`, read as `getch` reads one: an
/// ASCII byte alone, otherwise up to four bytes until they decode. `alt` marks a character
/// typed with Alt (after ESC).
pub open spec fn read_utf8(s: Seq<u8>, start: int, alt: bool) -> KeyRead {
    if start >= s.len() {
        KeyRead::More
    } else if s[start] <= 0x7f {
        let c = s[start] as char;
        KeyRead::Done(if alt { KeyView::Alt(c) } else { KeyView::Char(c) }, (start + 1) as nat)
    } else {
        let avail = s.len() - start;
        let m = if avail < 4 { avail } else { 4 };
        match utf8::char_at(s.subrange(start, start + m), 0) {
            Some((c, w)) => KeyRead::Done(
                if alt { KeyView::Alt(c) } else { KeyView::Char(c) },
                (start + w) as nat,
            ),
            None => if avail >= 4 {
                KeyRead::Done(KeyView::Other(s.subrange(start, start + 4)), (start + 4) as nat)
            } else {
                KeyRead::More
            },
        }
    }
}

/// The first index from `j` on whose byte ends a numbered escape sequence (64..=126).
pub open spec fn final_byte_from(s: Seq<u8>, j: int) -> Option<int>
    decreases s.len() - j,
{
    if j < 0 || j >= s.len() {
        None
    } else if 64 <= s[j] <= 126 {
        Some(j)
    } else {
        final_byte_from(s, j + 1)
    }
}

/// The key of the numbered escape sequence `ESC [ <nums> ~` with a single number `n`.
pub open spec fn numbered_key(n: u8, other: KeyView) -> KeyView {
    if n == 1 || n == 7 {
        KeyView::Home
    } else if n == 2 {
        KeyView::Insert
    } else if n == 3 {
        KeyView::Delete
    } else if n == 4 || n == 8 {
        KeyView::End
    } else if n == 5 {
        KeyView::PageUp
    } else if n == 6 {
        KeyView::PageDown
    } else if 11 <= n <= 15 {
        KeyView::F((n - 10) as u8)
    } else if 17 <= n <= 21 {
        KeyView::F((n - 11) as u8)
    } else if 23 <= n <= 24 {
        KeyView::F((n - 12) as u8)
    } else {
        other
    }
}

/// A numbered escape sequence `ESC [ <digit> ...` up to its final byte.
pub open spec fn read_numbered(s: Seq<u8>) -> KeyRead {
    match final_byte_from(s, 3) {
        None => KeyRead::More,
        Some(j) => {
            let body = s.subrange(2, j);
            let other = KeyView::Other(seq![0x1bu8, 0x5b] + body);
            if s[j] == 0x7e {
                let parts = split_bytes(body, 0x3b);
                if exists|k: int| 0 <= k < parts.len() && (#[trigger] parse_u8(bytes_as_chars(parts[k]))) is None {
                    KeyRead::Malformed
                } else if parts.len() != 1 {
                    KeyRead::Done(other, (j + 1) as nat)
                } else {
                    KeyRead::Done(numbered_key(parse_u8(bytes_as_chars(parts[0]))->0, other), (j + 1) as nat)
                }
            } else {
                KeyRead::Done(other, (j + 1) as nat)
            }
        },
    }
}

/// A control sequence `ESC [ ...`.
pub open spec fn read_csi(s: Seq<u8>) -> KeyRead {
    if s.len() < 3 {
        KeyRead::More
    } else {
        let c = s[2];
        if c == 0x5b {
            if s.len() < 4 {
                KeyRead::More
            } else if 0x41 <= s[3] <= 0x45 {
                KeyRead::Done(KeyView::F((1 + s[3] - 0x41) as u8), 4)
            } else {
                KeyRead::Done(KeyView::Other(seq![0x1bu8, 0x5b, 0x5b, s[3]]), 4)
            }
        } else if c == 0x41 {
            KeyRead::Done(KeyView::Up, 3)
        } else if c == 0x42 {
            KeyRead::Done(KeyView::Down, 3)
        } else if c == 0x43 {
            KeyRead::Done(KeyView::Right, 3)
        } else if c == 0x44 {
            KeyRead::Done(KeyView::Left, 3)
        } else if c == 0x46 {
            KeyRead::Done(KeyView::End, 3)
        } else if c == 0x48 {
            KeyRead::Done(KeyView::Home, 3)
        } else if c == 0x5a {
            KeyRead::Done(KeyView::BackTab, 3)
        } else if 0x30 <= c <= 0x39 {
            read_numbered(s)
        } else {
            KeyRead::Done(KeyView::Other(seq![0x1bu8, 0x5b, c]), 3)
        }
    }
}

/// The key that the terminal sends as the bytes `s` (so far), as `getch` reads it.
pub open spec fn read_key(s: Seq<u8>) -> KeyRead {
    if s.len() == 0 {
        KeyRead::More
    } else {
        let b = s[0];
        if b == 0x1b {
            if s.len() < 2 {
                KeyRead::More
            } else if s[1] == 0x5b {
                read_csi(s)
            } else if s[1] == 0x4f {
                if s.len() < 3 {
                    KeyRead::More
                } else if 0x50 <= s[2] <= 0x53 {
                    KeyRead::Done(KeyView::F((1 + s[2] - 0x50) as u8), 3)
                } else {
                    KeyRead::Done(KeyView::Other(seq![0x1bu8, 0x4f, s[2]]), 3)
                }
            } else {
                read_utf8(s, 1, true)
            }
        } else if b == 0x0a || b == 0x0d {
            KeyRead::Done(KeyView::Char('\r'), 1)
        } else if b == 0x09 {
            KeyRead::Done(KeyView::Char('\t'), 1)
        } else if b == 0x08 {
            KeyRead::Done(KeyView::Backspace, 1)
        } else if b == 0x7f {
            KeyRead::Done(KeyView::Delete, 1)
        } else if 0x01 <= b <= 0x1a {
            KeyRead::Done(KeyView::Ctrl(((b - 0x01 + 0x61) as u8) as char), 1)
        } else if 0x1c <= b <= 0x1f {
            KeyRead::Done(KeyView::Ctrl(((b - 0x1c + 0x34) as u8) as char), 1)
        } else if b == 0 {
            KeyRead::Done(KeyView::Null, 1)
        } else {
            read_utf8(s, 0, false)
        }
    }
}

} // verus!

verus! {

fn key_char(c: char, alt: bool) -> (r: Key)
    ensures
        r@ == (if alt { KeyView::Alt(c) } else { KeyView::Char(c) }),
{
    if alt {
        Key::Alt(c)
    } else {
        Key::Char(c)
    }
}

fn bytes_range(s: &[u8], from: usize, to: usize) -> (r: Vec<u8>)
    requires
        from <= to <= s@.len(),
    ensures
        r@ == s@.subrange(from as int, to as int),
{
    let mut r: Vec<u8> = Vec::new();
    let mut k = from;
    while k < to
        invariant
            from <= k <= to <= s@.len(),
            r@ == s@.subrange(from as int, k as int),
        decreases to - k,
    {
        r.push(s[k]);
        k += 1;
        assert(r@ =~= s@.subrange(from as int, k as int));
    }
    r
}

/// Reads the character whose encoding starts at `s[start]`.
fn exec_read_utf8(s: &[u8], start: usize, alt: bool) -> (r: Option<(Key, usize)>)
    ensures
        match read_utf8(s@, start as int, alt) {
            KeyRead::More => r is None,
            KeyRead::Done(k, n) => r matches Some((key, m)) && key@ == k && m == n,
            KeyRead::Malformed => false,
        },
{
    let n = s.len();
    if start >= n {
        return None;
    }
    let b = s[start];
    if b <= 0x7f {
        return Some((key_char(b as char, alt), start + 1));
    }
    let avail = n - start;
    let m = if avail < 4 { avail } else { 4 };
    let window = bytes_range(s, start, start + m);
    match decode_char_at(window.as_slice(), 0) {
        Some((c, w)) => Some((key_char(c, alt), start + w)),
        None => {
            if avail >= 4 {
                Some((Key::Other(bytes_range(s, start, start + 4)), start + 4))
            } else {
                None
            }
        },
    }
}

/// The parts of `s` separated by `sep`.
fn split_on(s: &Vec<u8>, sep: u8) -> (r: Vec<Vec<u8>>)
    ensures
        r@.map_values(|p: Vec<u8>| p@) == split_bytes(s@, sep),
{
    let mut acc: Vec<Vec<u8>> = Vec::new();
    let mut cur: Vec<u8> = Vec::new();
    let mut k: usize = 0;
    assert(acc@.map_values(|p: Vec<u8>| p@) =~= Seq::<Seq<u8>>::empty());
    assert(cur@ =~= Seq::<u8>::empty());
    while k < s.len()
        invariant
            k <= s@.len(),
            split_bytes(s@, sep) == split_from(s@, sep, k as int, cur@, acc@.map_values(|p: Vec<u8>| p@)),
        decreases s@.len() - k,
    {
        if s[k] == sep {
            let ghost before = acc@.map_values(|p: Vec<u8>| p@);
            let part = cur;
            acc.push(part);
            cur = Vec::new();
            assert(acc@.map_values(|p: Vec<u8>| p@) =~= before.push(part@));
            assert(cur@ =~= Seq::<u8>::empty());
        } else {
            cur.push(s[k]);
        }
        k += 1;
    }
    let ghost before = acc@.map_values(|p: Vec<u8>| p@);
    let part = cur;
    acc.push(part);
    assert(acc@.map_values(|p: Vec<u8>| p@) =~= before.push(part@));
    acc
}

fn chars_of_bytes(s: &Vec<u8>) -> (r: Vec<char>)
    ensures
        r@ == bytes_as_chars(s@),
{
    let mut r: Vec<char> = Vec::new();
    let mut k: usize = 0;
    while k < s.len()
        invariant
            k <= s@.len(),
            r@ == bytes_as_chars(s@.subrange(0, k as int)),
        decreases s@.len() - k,
    {
        r.push(s[k] as char);
        k += 1;
        assert(r@ =~= bytes_as_chars(s@.subrange(0, k as int)));
    }
    assert(s@.subrange(0, k as int) =~= s@);
    r
}

fn exec_numbered_key(n: u8, other: Key) -> (r: Key)
    ensures
        r@ == numbered_key(n, other@),
{
    if n == 1 || n == 7 {
        Key::Home
    } else if n == 2 {
        Key::Insert
    } else if n == 3 {
        Key::Delete
    } else if n == 4 || n == 8 {
        Key::End
    } else if n == 5 {
        Key::PageUp
    } else if n == 6 {
        Key::PageDown
    } else if 11 <= n && n <= 15 {
        Key::F(n - 10)
    } else if 17 <= n && n <= 21 {
        Key::F(n - 11)
    } else if 23 <= n && n <= 24 {
        Key::F(n - 12)
    } else {
        other
    }
}

/// Reads a numbered escape sequence `ESC [ <digit> ...`.
fn exec_read_numbered(s: &[u8]) -> (r: Option<(Key, usize)>)
    requires
        s@.len() >= 3,
        !(read_numbered(s@) is Malformed),
    ensures
        match read_numbered(s@) {
            KeyRead::More => r is None,
            KeyRead::Done(k, n) => r matches Some((key, m)) && key@ == k && m == n,
            KeyRead::Malformed => false,
        },
{
    let n = s.len();
    let mut j: usize = 3;
    while j < n && !(64 <= s[j] && s[j] <= 126)
        invariant
            3 <= j <= n,
            n == s@.len(),
            final_byte_from(s@, 3) == final_byte_from(s@, j as int),
        decreases n - j,
    {
        j += 1;
    }
    if j >= n {
        return None;
    }
    assert(final_byte_from(s@, 3) == Some(j as int));
    let body = bytes_range(s, 2, j);
    let mut other_bytes: Vec<u8> = vec![0x1b, 0x5b];
    let mut k: usize = 0;
    while k < body.len()
        invariant
            k <= body@.len(),
            other_bytes@ == seq![0x1bu8, 0x5b] + body@.subrange(0, k as int),
        decreases body@.len() - k,
    {
        other_bytes.push(body[k]);
        k += 1;
        assert(other_bytes@ =~= seq![0x1bu8, 0x5b] + body@.subrange(0, k as int));
    }
    assert(body@.subrange(0, body@.len() as int) =~= body@);
    let other = Key::Other(other_bytes);
    if s[j] != 0x7e {
        return Some((other, j + 1));
    }
    match parse_parts(&body) {
        None => {
            assert(read_numbered(s@) is Malformed);
            None
        },
        Some((count, first)) => {
            if count != 1 {
                Some((other, j + 1))
            } else {
                Some((exec_numbered_key(first, other), j + 1))
            }
        },
    }
}

/// Whether every `;`-separated part of `body` reads as a byte value; if so, how many parts
/// there are and the value of the first.
fn parse_parts(body: &Vec<u8>) -> (r: Option<(usize, u8)>)
    ensures
        ({
            let ps = split_bytes(body@, 0x3b);
            match r {
                None => exists|k: int| 0 <= k < ps.len() && (#[trigger] parse_u8(bytes_as_chars(ps[k]))) is None,
                Some((count, first)) => {
                    &&& count == ps.len()
                    &&& forall|k: int| 0 <= k < ps.len() ==> (#[trigger] parse_u8(bytes_as_chars(ps[k]))) is Some
                    &&& count >= 1 ==> parse_u8(bytes_as_chars(ps[0])) == Some(first)
                },
            }
        }),
{
    let parts = split_on(body, 0x3b);
    let ghost ps = parts@.map_values(|p: Vec<u8>| p@);
    let mut first: u8 = 0;
    let mut i: usize = 0;
    while i < parts.len()
        invariant
            i <= parts@.len(),
            ps == split_bytes(body@, 0x3b),
            ps == parts@.map_values(|p: Vec<u8>| p@),
            i > 0 ==> parse_u8(bytes_as_chars(ps[0])) == Some(first),
            forall|x: int| 0 <= x < i ==> (#[trigger] parse_u8(bytes_as_chars(ps[x]))) is Some,
        decreases parts@.len() - i,
    {
        assert(ps[i as int] == parts@[i as int]@);
        let cs = chars_of_bytes(&parts[i]);
        match parse_u8_chars(&cs) {
            Some(v) => {
                if i == 0 {
                    first = v;
                }
            },
            None => {
                assert(parse_u8(bytes_as_chars(ps[i as int])) is None);
                return None;
            },
        }
        i += 1;
    }
    assert(ps.len() == parts@.len());
    Some((parts.len(), first))
}

/// Reads a control sequence `ESC [ ...`.
fn exec_read_csi(s: &[u8]) -> (r: Option<(Key, usize)>)
    requires
        !(read_csi(s@) is Malformed),
    ensures
        match read_csi(s@) {
            KeyRead::More => r is None,
            KeyRead::Done(k, n) => r matches Some((key, m)) && key@ == k && m == n,
            KeyRead::Malformed => false,
        },
{
    let n = s.len();
    if n < 3 {
        return None;
    }
    let c = s[2];
    if c == 0x5b {
        if n < 4 {
            None
        } else if 0x41 <= s[3] && s[3] <= 0x45 {
            Some((Key::F(1 + s[3] - 0x41), 4))
        } else {
            let v = vec![0x1b, 0x5b, 0x5b, s[3]];
            assert(v@ =~= seq![0x1bu8, 0x5b, 0x5b, s@[3]]);
            Some((Key::Other(v), 4))
        }
    } else if c == 0x41 {
        Some((Key::Up, 3))
    } else if c == 0x42 {
        Some((Key::Down, 3))
    } else if c == 0x43 {
        Some((Key::Right, 3))
    } else if c == 0x44 {
        Some((Key::Left, 3))
    } else if c == 0x46 {
        Some((Key::End, 3))
    } else if c == 0x48 {
        Some((Key::Home, 3))
    } else if c == 0x5a {
        Some((Key::BackTab, 3))
    } else if 0x30 <= c && c <= 0x39 {
        exec_read_numbered(s)
    } else {
        let v = vec![0x1b, 0x5b, c];
        assert(v@ =~= seq![0x1bu8, 0x5b, c]);
        Some((Key::Other(v), 3))
    }
}

/// The key that the bytes `s`, received from the terminal so far, stand for, and how many of
/// them it takes; `None` while the key is not complete yet.
pub fn decode_key(s: &[u8]) -> (r: Option<(Key, usize)>)
    requires
        !(read_key(s@) is Malformed),
    ensures
        match read_key(s@) {
            KeyRead::More => r is None,
            KeyRead::Done(k, n) => r matches Some((key, m)) && key@ == k && m == n,
            KeyRead::Malformed => false,
        },
{
    let n = s.len();
    if n == 0 {
        return None;
    }
    let b = s[0];
    if b == 0x1b {
        if n < 2 {
            None
        } else if s[1] == 0x5b {
            exec_read_csi(s)
        } else if s[1] == 0x4f {
            if n < 3 {
                None
            } else if 0x50 <= s[2] && s[2] <= 0x53 {
                Some((Key::F(1 + s[2] - 0x50), 3))
            } else {
                let v = vec![0x1b, 0x4f, s[2]];
                assert(v@ =~= seq![0x1bu8, 0x4f, s@[2]]);
                Some((Key::Other(v), 3))
            }
        } else {
            exec_read_utf8(s, 1, true)
        }
    } else if b == 0x0a || b == 0x0d {
        Some((Key::Char('\r'), 1))
    } else if b == 0x09 {
        Some((Key::Char('\t'), 1))
    } else if b == 0x08 {
        Some((Key::Backspace, 1))
    } else if b == 0x7f {
        Some((Key::Delete, 1))
    } else if 0x01 <= b && b <= 0x1a {
        Some((Key::Ctrl((b - 0x01 + 0x61) as char), 1))
    } else if 0x1c <= b && b <= 0x1f {
        Some((Key::Ctrl((b - 0x1c + 0x34) as char), 1))
    } else if b == 0 {
        Some((Key::Null, 1))
    } else {
        exec_read_utf8(s, 0, false)
    }
}

} // verus!

verus! {

/// Whether the bytes `s` hold a numbered escape sequence whose numbers do not read as bytes:
/// the one input on which reading a key stops the program.
pub fn is_malformed_key(s: &[u8]) -> (r: bool)
    ensures
        r == (read_key(s@) is Malformed),
{
    let n = s.len();
    if n < 3 || s[0] != 0x1b || s[1] != 0x5b || !(0x30 <= s[2] && s[2] <= 0x39) {
        return false;
    }
    let mut j: usize = 3;
    while j < n && !(64 <= s[j] && s[j] <= 126)
        invariant
            3 <= j <= n,
            n == s@.len(),
            final_byte_from(s@, 3) == final_byte_from(s@, j as int),
        decreases n - j,
    {
        j += 1;
    }
    if j >= n || s[j] != 0x7e {
        return false;
    }
    let body = bytes_range(s, 2, j);
    parse_parts(&body).is_none()
}

} // verus!
