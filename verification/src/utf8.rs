use vstd::prelude::*;
use vstd::utf8::*;

verus! {

/// `core::char::from_u32`: by its documentation, the `char` whose code is `i` when `i` is a
/// Unicode scalar value (`0..=0xD7FF` or `0xE000..=0x10FFFF`), and `None` otherwise.
pub assume_specification[ core::char::from_u32 ](i: u32) -> (r: Option<char>)
    ensures
        r == (if is_scalar(i) { Some(i as char) } else { None::<char> }),
;

/// The character whose UTF-8 encoding starts at byte `i` of `bytes`, with the number of bytes
/// that encoding takes; `None` when no well-formed encoding of one character starts there
/// (a stray continuation byte, a truncated sequence, an overlong form or a surrogate).
pub open spec fn char_at(bytes: Seq<u8>, i: int) -> Option<(char, int)> {
    let rest = bytes.subrange(i, bytes.len() as int);
    if valid_first_scalar(rest) {
        Some((decode_first_scalar(rest) as char, length_of_first_scalar(rest)))
    } else {
        None
    }
}

proof fn lemma_width_2(b0: u8, b1: u8)
    requires
        0xc0 <= b0 <= 0xdf,
        0x80 <= b1 <= 0xbf,
    ensures
        ((((b0 & 0x1f) as u32) << 6) | ((b1 & 0x3f) as u32)) <= 0x7ff,
{
    assert(0xc0 <= b0 <= 0xdf && 0x80 <= b1 <= 0xbf ==> ((((b0 & 0x1f) as u32) << 6) | ((b1
        & 0x3f) as u32)) <= 0x7ff) by (bit_vector);
}

proof fn lemma_width_3(b0: u8, b1: u8, b2: u8)
    requires
        0xe0 <= b0 <= 0xef,
    ensures
        ((((b0 & 0x0f) as u32) << 12) | (((b1 & 0x3f) as u32) << 6) | ((b2 & 0x3f) as u32))
            <= 0xffff,
{
    assert(0xe0 <= b0 <= 0xef ==> ((((b0 & 0x0f) as u32) << 12) | (((b1 & 0x3f) as u32) << 6)
        | ((b2 & 0x3f) as u32)) <= 0xffff) by (bit_vector);
}

pub(crate) proof fn lemma_width_1(b0: u8)
    requires
        b0 <= 0x7f,
    ensures
        ((b0 & 0x7f) as u32) == b0 as u32,
{
    assert(b0 <= 0x7f ==> ((b0 & 0x7f) as u32) == b0 as u32) by (bit_vector);
}

/// Decodes the character whose UTF-8 encoding starts at `buf[i]`, looking no further than the
/// end of `buf`.
pub fn decode_char_at(buf: &[u8], i: usize) -> (r: Option<(char, usize)>)
    requires
        i < buf@.len(),
    ensures
        match r {
            Some((c, w)) => char_at(buf@, i as int) == Some((c, w as int)) && 1 <= w <= 4 && i
                + w <= buf@.len(),
            None => char_at(buf@, i as int) is None,
        },
{
    let ghost rest = buf@.subrange(i as int, buf@.len() as int);
    let n = buf.len();
    let b0 = buf[i];
    if b0 <= 0x7f {
        proof {
            lemma_width_1(b0);
        }
        return Some((b0 as char, 1));
    }
    if b0 < 0xc0 || b0 > 0xf7 {
        return None;
    }
    if b0 <= 0xdf {
        if n - i < 2 {
            return None;
        }
        let b1 = buf[i + 1];
        if b1 < 0x80 || b1 > 0xbf {
            return None;
        }
        let cp: u32 = (((b0 & 0x1f) as u32) << 6) | ((b1 & 0x3f) as u32);
        proof {
            lemma_width_2(b0, b1);
            assert(rest[0] == b0 && rest[1] == b1);
            assert(decode_first_codepoint(rest) == cp);
        }
        if cp < 0x80 {
            return None;
        }
        match core::char::from_u32(cp) {
            Some(c) => Some((c, 2)),
            None => None,
        }
    } else if b0 <= 0xef {
        if n - i < 3 {
            return None;
        }
        let b1 = buf[i + 1];
        let b2 = buf[i + 2];
        if b1 < 0x80 || b1 > 0xbf || b2 < 0x80 || b2 > 0xbf {
            return None;
        }
        let cp: u32 = (((b0 & 0x0f) as u32) << 12) | (((b1 & 0x3f) as u32) << 6) | ((b2
            & 0x3f) as u32);
        proof {
            lemma_width_3(b0, b1, b2);
            assert(rest[0] == b0 && rest[1] == b1 && rest[2] == b2);
            assert(decode_first_codepoint(rest) == cp);
        }
        if cp < 0x800 || (0xd800 <= cp && cp <= 0xdfff) {
            return None;
        }
        match core::char::from_u32(cp) {
            Some(c) => Some((c, 3)),
            None => None,
        }
    } else {
        if n - i < 4 {
            return None;
        }
        let b1 = buf[i + 1];
        let b2 = buf[i + 2];
        let b3 = buf[i + 3];
        if b1 < 0x80 || b1 > 0xbf || b2 < 0x80 || b2 > 0xbf || b3 < 0x80 || b3 > 0xbf {
            return None;
        }
        let cp: u32 = (((b0 & 0x07) as u32) << 18) | (((b1 & 0x3f) as u32) << 12) | (((b2
            & 0x3f) as u32) << 6) | ((b3 & 0x3f) as u32);
        proof {
            assert(rest[0] == b0 && rest[1] == b1 && rest[2] == b2 && rest[3] == b3);
            assert(decode_first_codepoint(rest) == cp);
        }
        if cp < 0x10000 || cp > 0x10ffff {
            return None;
        }
        match core::char::from_u32(cp) {
            Some(c) => Some((c, 4)),
            None => None,
        }
    }
}

} // verus!

verus! {

/// The UTF-8 encoding of `c`.
pub fn encode_char(c: char) -> (r: Vec<u8>)
    ensures
        r@ == encode_utf8(seq![c]),
{
    let v = c as u32;
    proof {
        char_is_scalar(c);
        assert(encode_utf8(seq![c]) =~= encode_scalar(c as u32) + encode_utf8(seq![c].drop_first()));
        assert(encode_utf8(seq![c].drop_first()) =~= Seq::<u8>::empty());
        assert(encode_utf8(seq![c]) =~= encode_scalar(v));
    }
    if v <= 0x7f {
        vec![(v & 0x7f) as u8]
    } else if v <= 0x7ff {
        vec![0xC0 | ((v >> 6) & 0x1F) as u8, 0x80 | (v & 0x3F) as u8]
    } else if v <= 0xffff {
        vec![0xE0 | ((v >> 12) & 0x0F) as u8, 0x80 | ((v >> 6) & 0x3F) as u8, 0x80 | (v & 0x3F) as u8]
    } else {
        vec![
            0xF0 | ((v >> 18) & 0x7) as u8,
            0x80 | ((v >> 12) & 0x3F) as u8,
            0x80 | ((v >> 6) & 0x3F) as u8,
            0x80 | (v & 0x3F) as u8,
        ]
    }
}

} // verus!

verus! {

/// A character's own UTF-8 encoding, wherever it stands in a buffer and whatever follows it,
/// is read back as that character, taking the encoding's length.
pub proof fn char_at_reads_encoding(buf: Seq<u8>, i: int, c: char)
    requires
        0 <= i,
        i + encode_utf8(seq![c]).len() <= buf.len(),
        buf.subrange(i, i + encode_utf8(seq![c]).len()) == encode_utf8(seq![c]),
    ensures
        char_at(buf, i) == Some((c, encode_utf8(seq![c]).len() as int)),
{
    let bytes = encode_utf8(seq![c]);
    let w = bytes.len() as int;
    let rest = buf.subrange(i, buf.len() as int);
    encode_utf8_first_scalar(seq![c]);
    assert(seq![c].drop_first() =~= Seq::<char>::empty());
    assert(bytes =~= encode_scalar(c as u32) + encode_utf8(Seq::<char>::empty()));
    assert(encode_utf8(Seq::<char>::empty()) =~= Seq::<u8>::empty());
    assert(length_of_first_scalar(bytes) == w);
    assert(forall|k: int| 0 <= k < w ==> rest[k] == bytes[k]) by {
        assert forall|k: int| 0 <= k < w implies rest[k] == bytes[k] by {
            assert(buf.subrange(i, i + w)[k] == buf[i + k]);
        }
    }
    assert(rest.len() >= w);
    assert(rest[0] == bytes[0]);
    if w >= 2 {
        assert(rest[1] == bytes[1]);
    }
    if w >= 3 {
        assert(rest[2] == bytes[2]);
    }
    if w >= 4 {
        assert(rest[3] == bytes[3]);
    }
    char_u32_cast(c, decode_first_scalar(bytes));
}

} // verus!
