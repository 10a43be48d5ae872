use vstd::prelude::*;
use crate::text::{push_char, push_chars};

verus! {

/// The lowercase hexadecimal digit of `d` (0 to 15).
pub open spec fn hex_digit(d: nat) -> char {
    if d < 10 {
        (d + '0' as nat) as char
    } else {
        (d - 10 + 'a' as nat) as char
    }
}

/// A byte as two lowercase hexadecimal digits (`{:02x}`).
pub open spec fn hex_byte(b: u8) -> Seq<char> {
    seq![hex_digit(b as nat / 16), hex_digit(b as nat % 16)]
}

/// The bytes as two-digit hexadecimal numbers separated by spaces, with one more space
/// after the eighth.
pub open spec fn hex_repr(bytes: Seq<u8>) -> Seq<char>
    decreases bytes.len(),
{
    if bytes.len() == 0 {
        Seq::empty()
    } else {
        let i = bytes.len() - 1;
        hex_repr(bytes.drop_last()) + (if i > 0 { seq![' '] } else { Seq::empty() })
            + hex_byte(bytes.last()) + (if i == 7 { seq![' '] } else { Seq::empty() })
    }
}

/// The character that the hexdump shows for a byte: itself when printable ASCII, `.` else.
pub open spec fn shown_char(b: u8) -> char {
    if 32 <= b <= 126 {
        b as char
    } else {
        '.'
    }
}

/// The bytes as printable characters, one per byte.
pub open spec fn ascii_repr(bytes: Seq<u8>) -> Seq<char> {
    bytes.map_values(|b: u8| shown_char(b))
}

fn hex_digit_of(d: u8) -> (c: char)
    requires
        d < 16,
    ensures
        c == hex_digit(d as nat),
{
    if d < 10 {
        (d + 48) as char
    } else {
        (d - 10 + 97) as char
    }
}

/// The bytes as hexadecimal numbers, as the hexdump shows them.
pub fn get_hex_representation(byte_array: &[u8]) -> (r: String)
    ensures
        r@ == hex_repr(byte_array@),
{
    let mut r = String::new();
    let mut i: usize = 0;
    while i < byte_array.len()
        invariant
            i <= byte_array@.len(),
            r@ == hex_repr(byte_array@.subrange(0, i as int)),
        decreases byte_array@.len() - i,
    {
        let ghost before = r@;
        let b = byte_array[i];
        if i > 0 {
            push_char(&mut r, ' ');
        }
        push_char(&mut r, hex_digit_of(b / 16));
        push_char(&mut r, hex_digit_of(b % 16));
        if i == 7 {
            push_char(&mut r, ' ');
        }
        proof {
            let pre = byte_array@.subrange(0, i + 1);
            assert(pre.drop_last() =~= byte_array@.subrange(0, i as int));
            assert(pre.last() == b);
            assert(r@ =~= hex_repr(pre));
        }
        i += 1;
    }
    assert(byte_array@.subrange(0, i as int) =~= byte_array@);
    r
}

/// The bytes as printable characters, as the hexdump shows them.
pub fn get_ascii_representation(byte_array: &[u8]) -> (r: String)
    ensures
        r@ == ascii_repr(byte_array@),
{
    let mut r = String::new();
    let mut i: usize = 0;
    while i < byte_array.len()
        invariant
            i <= byte_array@.len(),
            r@ == ascii_repr(byte_array@.subrange(0, i as int)),
        decreases byte_array@.len() - i,
    {
        let b = byte_array[i];
        if 32 <= b && b <= 126 {
            push_char(&mut r, b as char);
        } else {
            push_char(&mut r, '.');
        }
        i += 1;
        assert(r@ =~= ascii_repr(byte_array@.subrange(0, i as int)));
    }
    assert(byte_array@.subrange(0, i as int) =~= byte_array@);
    r
}

} // verus!

verus! {

/// The lowercase hexadecimal digits of `n`, without leading zeros.
pub open spec fn hex_number(n: nat) -> Seq<char>
    decreases n,
{
    if n < 16 {
        seq![hex_digit(n)]
    } else {
        hex_number(n / 16).push(hex_digit(n % 16))
    }
}

/// `s` with `c` added in front until it is `width` characters long.
pub open spec fn pad_left(s: Seq<char>, width: nat, c: char) -> Seq<char> {
    if s.len() >= width {
        s
    } else {
        Seq::new((width - s.len()) as nat, |i: int| c) + s
    }
}

/// `s` with spaces added behind until it is `width` characters long (`{:width}`).
pub open spec fn pad_right(s: Seq<char>, width: nat) -> Seq<char> {
    if s.len() >= width {
        s
    } else {
        s + Seq::new((width - s.len()) as nat, |i: int| ' ')
    }
}

/// One line of the hexdump: the offset in at least eight hexadecimal digits, the bytes in
/// hexadecimal padded to 49 characters, and the bytes as characters padded to 16.
pub open spec fn hexdump_line(offset: nat, chunk: Seq<u8>) -> Seq<char> {
    pad_left(hex_number(offset), 8, '0') + seq![':', ' '] + pad_right(hex_repr(chunk), 49)
        + seq![' '] + pad_right(ascii_repr(chunk), 16)
}

/// The bytes of the line that starts at `offset`: sixteen, or fewer at the end.
pub open spec fn hexdump_chunk(bytes: Seq<u8>, offset: int) -> Seq<u8> {
    bytes.subrange(offset, if offset + 16 <= bytes.len() { offset + 16 } else { bytes.len() as int })
}

/// The lines of the hexdump of `bytes`, sixteen bytes to a line.
pub open spec fn hexdump_lines(bytes: Seq<u8>) -> Seq<Seq<char>> {
    Seq::new(
        ((bytes.len() + 15) / 16) as nat,
        |k: int| hexdump_line((16 * k) as nat, hexdump_chunk(bytes, 16 * k)),
    )
}

fn push_hex_number(out: &mut String, n: usize)
    ensures
        final(out)@ == old(out)@ + hex_number(n as nat),
    decreases n,
{
    if n >= 16 {
        push_hex_number(out, n / 16);
    }
    push_char(out, hex_digit_of((n % 16) as u8));
    proof {
        if n >= 16 {
            assert(hex_number(n as nat) == hex_number((n / 16) as nat).push(hex_digit((n % 16) as nat)));
        }
    }
    assert(final(out)@ =~= old(out)@ + hex_number(n as nat)) by {
        if n < 16 {
            assert(hex_number(n as nat) == seq![hex_digit(n as nat)]);
        }
    }
}

fn push_padded(out: &mut String, s: &String, width: usize, c: char, left: bool)
    requires
        !left ==> c == ' ',
    ensures
        final(out)@ == old(out)@ + (if left { pad_left(s@, width as nat, c) } else { pad_right(s@, width as nat) }),
{
    let chars = crate::text::chars_of(s.as_str());
    let ghost start = out@;
    let fill = if chars.len() < width { width - chars.len() } else { 0 };
    let mut pad: Vec<char> = Vec::new();
    let mut k: usize = 0;
    while k < fill
        invariant
            k <= fill,
            pad@ == Seq::new(k as nat, |i: int| c),
        decreases fill - k,
    {
        pad.push(c);
        k += 1;
        assert(pad@ =~= Seq::new(k as nat, |i: int| c));
    }
    if left {
        push_chars(out, pad.as_slice());
        push_chars(out, chars.as_slice());
    } else {
        push_chars(out, chars.as_slice());
        push_chars(out, pad.as_slice());
    }
    proof {
        if chars@.len() >= width {
            assert(pad@ =~= Seq::<char>::empty());
        }
        assert(out@ =~= start + (if left { pad_left(s@, width as nat, c) } else { pad_right(s@, width as nat) }));
    }
}

/// The line of the hexdump for the bytes `chunk` found at `offset`.
pub fn get_hexdump_line(offset: usize, chunk: &[u8]) -> (r: String)
    ensures
        r@ == hexdump_line(offset as nat, chunk@),
{
    let mut digits = String::new();
    push_hex_number(&mut digits, offset);
    let mut r = String::new();
    push_padded(&mut r, &digits, 8, '0', true);
    push_chars(&mut r, &[':', ' ']);
    let hex = get_hex_representation(chunk);
    push_padded(&mut r, &hex, 49, ' ', false);
    push_chars(&mut r, &[' ']);
    let ascii = get_ascii_representation(chunk);
    push_padded(&mut r, &ascii, 16, ' ', false);
    assert(r@ =~= hexdump_line(offset as nat, chunk@));
    r
}

/// The hexdump of `byte_array`, one line for every sixteen bytes.
pub fn hexdump(byte_array: &[u8]) -> (r: Vec<String>)
    ensures
        r@.map_values(|s: String| s@) == hexdump_lines(byte_array@),
{
    let n = byte_array.len();
    let count = n / 16 + if n % 16 == 0 { 0 } else { 1 };
    assert(count == (n + 15) / 16);
    let mut lines: Vec<String> = Vec::new();
    let mut line_no: usize = 0;
    while line_no < count
        invariant
            n == byte_array@.len(),
            count == (n + 15) / 16,
            line_no <= count,
            lines@.len() == line_no,
            forall|k: int| 0 <= k < lines@.len() ==> (#[trigger] lines@[k])@ == hexdump_line((16 * k) as nat, hexdump_chunk(byte_array@, 16 * k)),
        decreases count - line_no,
    {
        let offset = 16 * line_no;
        let length = if n - offset < 16 { n - offset } else { 16 };
        let mut chunk: Vec<u8> = Vec::new();
        let mut k: usize = 0;
        while k < length
            invariant
                k <= length,
                offset + length <= n,
                n == byte_array@.len(),
                chunk@ == byte_array@.subrange(offset as int, offset + k),
            decreases length - k,
        {
            chunk.push(byte_array[offset + k]);
            k += 1;
            assert(chunk@ =~= byte_array@.subrange(offset as int, offset + k));
        }
        assert(chunk@ =~= hexdump_chunk(byte_array@, offset as int));
        let line = get_hexdump_line(offset, chunk.as_slice());
        lines.push(line);
        line_no += 1;
    }
    assert(lines@.map_values(|s: String| s@) =~= hexdump_lines(byte_array@));
    lines
}

} // verus!

verus! {

/// The bytes of the lines from the one at `offset` on, one line after the other.
pub open spec fn chunks_from(bytes: Seq<u8>, offset: int) -> Seq<u8>
    decreases bytes.len() + 16 - offset,
{
    if offset < 0 || offset >= bytes.len() {
        Seq::empty()
    } else {
        hexdump_chunk(bytes, offset) + chunks_from(bytes, offset + 16)
    }
}

proof fn lemma_chunks_from(bytes: Seq<u8>, offset: int)
    requires
        0 <= offset,
    ensures
        chunks_from(bytes, offset) == (if offset < bytes.len() { bytes.skip(offset) } else { Seq::empty() }),
    decreases bytes.len() + 16 - offset,
{
    if offset < bytes.len() {
        lemma_chunks_from(bytes, offset + 16);
        if offset + 16 < bytes.len() {
            assert(bytes.skip(offset) =~= hexdump_chunk(bytes, offset) + bytes.skip(offset + 16));
        } else {
            assert(bytes.skip(offset) =~= hexdump_chunk(bytes, offset) + Seq::<u8>::empty());
        }
    }
}

/// The hexdump shows every byte once, in order: its lines hold the bytes sixteen at a time
/// (the last line the rest), and there are as many lines as that takes.
pub proof fn hexdump_shows_every_byte(bytes: Seq<u8>)
    ensures
        chunks_from(bytes, 0) == bytes,
        hexdump_lines(bytes).len() == (bytes.len() + 15) / 16,
        forall|k: int| 0 <= 16 * k < bytes.len() ==> (#[trigger] hexdump_chunk(bytes, 16 * k)).len() <= 16,
{
    lemma_chunks_from(bytes, 0);
    assert(bytes.skip(0) =~= bytes);
}

} // verus!

verus! {

/// 16 to the power `k`.
pub open spec fn pow16(k: nat) -> nat
    decreases k,
{
    if k == 0 {
        1
    } else {
        16 * pow16((k - 1) as nat)
    }
}

proof fn lemma_hex_number_len(n: nat, k: nat)
    requires
        k >= 1,
        n < pow16(k),
    ensures
        1 <= hex_number(n).len() <= k,
    decreases n,
{
    if n >= 16 {
        if k == 1 {
            assert(pow16(1) == 16 * pow16(0));
        }
        assert(n / 16 < pow16((k - 1) as nat));
        lemma_hex_number_len(n / 16, (k - 1) as nat);
    }
}

proof fn lemma_hex_repr_len(bytes: Seq<u8>)
    ensures
        hex_repr(bytes).len() == if bytes.len() == 0 {
            0int
        } else if bytes.len() >= 8 {
            3 * bytes.len() as int
        } else {
            3 * bytes.len() as int - 1
        },
    decreases bytes.len(),
{
    if bytes.len() > 0 {
        lemma_hex_repr_len(bytes.drop_last());
    }
}

/// Below an offset of 4 GiB every line of the hexdump is 76 characters wide: eight digits
/// of offset, a colon and a space, 49 columns of hexadecimal, a space and 16 columns of text.
pub proof fn hexdump_lines_have_one_width(offset: nat, chunk: Seq<u8>)
    requires
        offset < 0x1_0000_0000,
        chunk.len() <= 16,
    ensures
        hexdump_line(offset, chunk).len() == 76,
{
    assert(pow16(8) == 0x1_0000_0000) by {
        reveal_with_fuel(pow16, 9);
    }
    lemma_hex_number_len(offset, 8);
    lemma_hex_repr_len(chunk);
}

} // verus!
