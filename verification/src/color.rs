use vstd::prelude::*;
use crate::number::{self, decimal, is_hex_i32, parse_hex_u8, parse_signed, parse_u8, parse_u8_chars, parse_unsigned, u8_decimal};
use crate::setting::{self, regex_match, Coloring, Params, Pattern, SyntaxDefinition, SyntaxView};
use vstd::utf8::encode_utf8;
use crate::utf8::encode_char;
use crate::text::{chars_eq, chars_of, pop_char, push_all, push_char, push_chars, string_of, sub_chars};

verus! {

/// The start of a color escape sequence, with the underline attribute when asked for.
pub open spec fn esc_start(underlined: bool) -> Seq<char> {
    if underlined {
        seq!['\x1b', '[', '4', ';']
    } else {
        seq!['\x1b', '[']
    }
}

/// The escape sequence that selects the graphic rendition `code`.
pub open spec fn sgr(code: nat) -> Seq<char> {
    seq!['\x1b', '['] + decimal(code) + seq!['m']
}

/// The rendition code of a predefined color name (`RESET` and the eight basic colors).
pub open spec fn predefined_code(name: Seq<char>) -> Option<nat> {
    if name == seq!['R', 'E', 'S', 'E', 'T'] {
        Some(0)
    } else if name == seq!['B', 'L', 'A', 'C', 'K'] {
        Some(30)
    } else if name == seq!['R', 'E', 'D'] {
        Some(31)
    } else if name == seq!['G', 'R', 'E', 'E', 'N'] {
        Some(32)
    } else if name == seq!['Y', 'E', 'L', 'L', 'O', 'W'] {
        Some(33)
    } else if name == seq!['B', 'L', 'U', 'E'] {
        Some(34)
    } else if name == seq!['M', 'A', 'G', 'E', 'N', 'T', 'A'] {
        Some(35)
    } else if name == seq!['C', 'Y', 'A', 'N'] {
        Some(36)
    } else if name == seq!['W', 'H', 'I', 'T', 'E'] {
        Some(37)
    } else {
        None
    }
}

/// `char::is_whitespace`: the characters with the Unicode White_Space property.
pub open spec fn is_whitespace(c: char) -> bool {
    ||| '\u{9}' <= c <= '\u{d}'
    ||| c == ' '
    ||| c == '\u{85}'
    ||| c == '\u{a0}'
    ||| c == '\u{1680}'
    ||| '\u{2000}' <= c <= '\u{200a}'
    ||| c == '\u{2028}'
    ||| c == '\u{2029}'
    ||| c == '\u{202f}'
    ||| c == '\u{205f}'
    ||| c == '\u{3000}'
}

/// A separator between the numbers of an `(r, g, b)` color: a comma or white space.
pub open spec fn is_rgb_separator(c: char) -> bool {
    c == ',' || is_whitespace(c)
}

/// The words of `s[i..]` that follow the words `acc` and the unfinished word `cur`: the
/// maximal runs of characters that are not separators.
pub open spec fn words_from(s: Seq<char>, i: int, cur: Seq<char>, acc: Seq<Seq<char>>) -> Seq<Seq<char>>
    decreases s.len() - i,
{
    if i < 0 || i >= s.len() {
        if cur.len() > 0 { acc.push(cur) } else { acc }
    } else if is_rgb_separator(s[i]) {
        words_from(s, i + 1, Seq::empty(), if cur.len() > 0 { acc.push(cur) } else { acc })
    } else {
        words_from(s, i + 1, cur.push(s[i]), acc)
    }
}

/// The numbers of an `(r, g, b)` color, split at commas and white space.
pub open spec fn rgb_words(color: Seq<char>) -> Seq<Seq<char>> {
    words_from(color.subrange(1, color.len() - 1), 0, Seq::empty(), Seq::empty())
}

/// Whether `color` is parenthesized, so that its inside can be split into words.
pub open spec fn is_parenthesized(color: Seq<char>) -> bool {
    color.len() >= 2 && color[0] == '(' && color.last() == ')'
}

pub open spec fn spec_is_predefined_color(color: Seq<char>) -> bool {
    predefined_code(color) is Some
}

pub open spec fn spec_is_8bit_color(color: Seq<char>) -> bool {
    parse_u8(color) is Some
}

/// `i32::from_str_radix(s, 16)` succeeds.
pub open spec fn is_hex_number(s: Seq<char>) -> bool {
    parse_signed(s, 16, -0x8000_0000, 0x7fff_ffff) is Some
}

/// Six characters that read as a hexadecimal number. (A string that reads as a number is
/// ASCII, so six characters are six bytes.)
pub open spec fn spec_is_24bit_color(color: Seq<char>) -> bool {
    color.len() == 6 && is_hex_number(color)
}

/// `#` and six characters that read as a hexadecimal number.
pub open spec fn spec_is_24bit_color_hash(color: Seq<char>) -> bool {
    color.len() == 7 && color[0] == '#' && is_hex_number(color.skip(1))
}

/// Three decimal numbers from 0 to 255 in parentheses, separated by commas or spaces.
pub open spec fn spec_is_rgb_color(color: Seq<char>) -> bool {
    &&& is_parenthesized(color)
    &&& rgb_words(color).len() == 3
    &&& forall|k: int| 0 <= k < 3 ==> (#[trigger] parse_u8(rgb_words(color)[k])) is Some
}

/// The red, green and blue components of a hexadecimal color `RRGGBB`: the first two, the next
/// two and the remaining characters, each read as an unsigned byte in base 16.
pub open spec fn hex_triplet(color: Seq<char>) -> Option<(u8, u8, u8)> {
    if color.len() < 4 {
        None
    } else {
        match (
            parse_unsigned(color.take(2), 16, 255),
            parse_unsigned(color.subrange(2, 4), 16, 255),
            parse_unsigned(color.skip(4), 16, 255),
        ) {
            (Some(r), Some(g), Some(b)) => Some((r as u8, g as u8, b as u8)),
            _ => None,
        }
    }
}

pub open spec fn spec_to_8bit_color(color: Seq<char>, underlined: bool) -> Seq<char> {
    esc_start(underlined) + seq!['3', '8', ';', '5', ';'] + color + seq!['m']
}

pub open spec fn true_color(underlined: bool, r: Seq<char>, g: Seq<char>, b: Seq<char>) -> Seq<char> {
    esc_start(underlined) + seq!['3', '8', ';', '2', ';'] + r + seq![';'] + g + seq![';'] + b
        + seq!['m']
}

pub open spec fn spec_to_24bit_color(rgb: (u8, u8, u8), underlined: bool) -> Seq<char> {
    true_color(underlined, decimal(rgb.0 as nat), decimal(rgb.1 as nat), decimal(rgb.2 as nat))
}

pub open spec fn spec_to_rgb_color(color: Seq<char>, underlined: bool) -> Seq<char> {
    let w = rgb_words(color);
    true_color(underlined, w[0], w[1], w[2])
}

/// The message for a color that matches no syntax.
pub open spec fn invalid_color_message(color: Seq<char>) -> Seq<char> {
    seq!['i', 'n', 'v', 'a', 'l', 'i', 'd', ' ', 'c', 'o', 'l', 'o', 'r', ' ', 's', 'y', 'n', 't',
        'a', 'x', ':', ' ', '"'] + color + seq!['"']
}

/// The escape sequence for a color of the configuration file, tried in this order: empty
/// (reset, or underline alone), predefined name, 8-bit palette index, `RRGGBB`, `#RRGGBB`,
/// `(r, g, b)`; an error message for anything else, a hexadecimal color whose components do
/// not read as bytes (one with a minus sign) among them.
pub open spec fn color_escape(c: Seq<char>, underlined: bool) -> Result<Seq<char>, Seq<char>> {
    if c.len() == 0 {
        Ok(if underlined { seq!['\x1b', '[', '4', 'm'] } else { seq!['\x1b', '[', '0', 'm'] })
    } else if spec_is_predefined_color(c) {
        let code = sgr(predefined_code(c)->0);
        Ok(if underlined { seq!['\x1b', '[', '4', 'm'] + code } else { code })
    } else if spec_is_8bit_color(c) {
        Ok(spec_to_8bit_color(c, underlined))
    } else if spec_is_24bit_color(c) {
        match hex_triplet(c) {
            Some(rgb) => Ok(spec_to_24bit_color(rgb, underlined)),
            None => Err(invalid_color_message(c)),
        }
    } else if spec_is_24bit_color_hash(c) {
        match hex_triplet(c.skip(1)) {
            Some(rgb) => Ok(spec_to_24bit_color(rgb, underlined)),
            None => Err(invalid_color_message(c)),
        }
    } else if spec_is_rgb_color(c) {
        Ok(spec_to_rgb_color(c, underlined))
    } else {
        Err(invalid_color_message(c))
    }
}

} // verus!

verus! {

fn predefined_lookup(name: &Vec<char>) -> (r: Option<u8>)
    ensures
        match predefined_code(name@) {
            Some(code) => r == Some(code as u8),
            None => r is None,
        },
{
    if chars_eq(name, &['R', 'E', 'S', 'E', 'T']) {
        Some(0)
    } else if chars_eq(name, &['B', 'L', 'A', 'C', 'K']) {
        Some(30)
    } else if chars_eq(name, &['R', 'E', 'D']) {
        Some(31)
    } else if chars_eq(name, &['G', 'R', 'E', 'E', 'N']) {
        Some(32)
    } else if chars_eq(name, &['Y', 'E', 'L', 'L', 'O', 'W']) {
        Some(33)
    } else if chars_eq(name, &['B', 'L', 'U', 'E']) {
        Some(34)
    } else if chars_eq(name, &['M', 'A', 'G', 'E', 'N', 'T', 'A']) {
        Some(35)
    } else if chars_eq(name, &['C', 'Y', 'A', 'N']) {
        Some(36)
    } else if chars_eq(name, &['W', 'H', 'I', 'T', 'E']) {
        Some(37)
    } else {
        None
    }
}

/// The escape sequence of a predefined color name, if `name` is one.
pub fn predefined_color(name: &str) -> (r: Option<String>)
    ensures
        match predefined_code(name@) {
            Some(code) => r matches Some(s) && s@ == sgr(code),
            None => r is None,
        },
{
    let chars = chars_of(name);
    match predefined_lookup(&chars) {
        Some(code) => {
            let mut s = string_of(&['\x1b', '[']);
            let digits = u8_decimal(code);
            push_chars(&mut s, digits.as_slice());
            push_chars(&mut s, &['m']);
            Some(s)
        },
        None => None,
    }
}

pub fn is_predefined_color(color: &str) -> (r: bool)
    ensures
        r == spec_is_predefined_color(color@),
{
    let chars = chars_of(color);
    predefined_lookup(&chars).is_some()
}

pub fn is_8bit_color(color: &str) -> (r: bool)
    ensures
        r == spec_is_8bit_color(color@),
{
    let chars = chars_of(color);
    parse_u8_chars(&chars).is_some()
}

pub fn is_24bit_color(color: &str) -> (r: bool)
    ensures
        r == spec_is_24bit_color(color@),
{
    let chars = chars_of(color);
    chars.len() == 6 && is_hex_i32(&chars)
}

pub fn is_24bit_color_hash(color: &str) -> (r: bool)
    ensures
        r == spec_is_24bit_color_hash(color@),
{
    let chars = chars_of(color);
    if chars.len() == 7 && chars[0] == '#' {
        let rest = sub_chars(&chars, 1, chars.len());
        is_hex_i32(&rest)
    } else {
        false
    }
}

/// The words of `s`: its maximal runs of characters that are neither commas nor white space.
fn split_words(s: &Vec<char>) -> (r: Vec<Vec<char>>)
    ensures
        r@.map_values(|w: Vec<char>| w@) == words_from(s@, 0, Seq::empty(), Seq::empty()),
{
    let mut acc: Vec<Vec<char>> = Vec::new();
    let mut cur: Vec<char> = Vec::new();
    let mut k: usize = 0;
    assert(acc@.map_values(|w: Vec<char>| w@) =~= Seq::<Seq<char>>::empty());
    assert(cur@ =~= Seq::<char>::empty());
    while k < s.len()
        invariant
            k <= s@.len(),
            words_from(s@, 0, Seq::empty(), Seq::empty()) == words_from(
                s@,
                k as int,
                cur@,
                acc@.map_values(|w: Vec<char>| w@),
            ),
        decreases s@.len() - k,
    {
        let c = s[k];
        if c == ',' || is_whitespace_char(c) {
            if cur.len() > 0 {
                let ghost before = acc@.map_values(|w: Vec<char>| w@);
                let w = cur;
                acc.push(w);
                cur = Vec::new();
                assert(acc@.map_values(|w: Vec<char>| w@) =~= before.push(w@));
            }
            assert(cur@ =~= Seq::<char>::empty());
        } else {
            cur.push(c);
        }
        k += 1;
    }
    if cur.len() > 0 {
        let ghost before = acc@.map_values(|w: Vec<char>| w@);
        let w = cur;
        acc.push(w);
        assert(acc@.map_values(|w: Vec<char>| w@) =~= before.push(w@));
    }
    acc
}

/// `char::is_whitespace`.
fn is_whitespace_char(c: char) -> (r: bool)
    ensures
        r == is_whitespace(c),
{
    ('\u{9}' <= c && c <= '\u{d}') || c == ' ' || c == '\u{85}' || c == '\u{a0}' || c
        == '\u{1680}' || ('\u{2000}' <= c && c <= '\u{200a}') || c == '\u{2028}' || c
        == '\u{2029}' || c == '\u{202f}' || c == '\u{205f}' || c == '\u{3000}'
}

/// The words between the parentheses of `color`.
fn rgb_words_of(color: &Vec<char>) -> (r: Vec<Vec<char>>)
    requires
        is_parenthesized(color@),
    ensures
        r@.map_values(|w: Vec<char>| w@) == rgb_words(color@),
{
    let inner = sub_chars(color, 1, color.len() - 1);
    split_words(&inner)
}

pub fn is_rgb_color(color: &str) -> (r: bool)
    ensures
        r == spec_is_rgb_color(color@),
{
    let chars = chars_of(color);
    let n = chars.len();
    if !(n >= 2 && chars[0] == '(' && chars[n - 1] == ')') {
        return false;
    }
    let words = rgb_words_of(&chars);
    let ghost ws = words@.map_values(|w: Vec<char>| w@);
    if words.len() != 3 {
        assert(ws.len() == words@.len());
        return false;
    }
    let mut k: usize = 0;
    while k < 3
        invariant
            words@.len() == 3,
            chars@ == color@,
            ws == rgb_words(chars@),
            ws == words@.map_values(|w: Vec<char>| w@),
            k <= 3,
            forall|j: int| 0 <= j < k ==> (#[trigger] parse_u8(ws[j])) is Some,
        decreases 3 - k,
    {
        assert(ws[k as int] == words@[k as int]@);
        if parse_u8_chars(&words[k]).is_none() {
            assert(parse_u8(rgb_words(color@)[k as int]) is None);
            return false;
        }
        k += 1;
    }
    true
}

} // verus!

verus! {

fn push_esc_start(out: &mut String, underlined: bool)
    ensures
        final(out)@ == old(out)@ + esc_start(underlined),
{
    if underlined {
        push_chars(out, &['\x1b', '[', '4', ';']);
    } else {
        push_chars(out, &['\x1b', '[']);
    }
}

/// The escape sequence for the palette color `color` (a decimal index, kept as written).
pub fn to_8bit_color(color: &str, underlined: bool) -> (r: String)
    ensures
        r@ == spec_to_8bit_color(color@, underlined),
{
    let mut s = String::new();
    push_esc_start(&mut s, underlined);
    push_chars(&mut s, &['3', '8', ';', '5', ';']);
    push_all(&mut s, color);
    push_chars(&mut s, &['m']);
    assert(s@ =~= spec_to_8bit_color(color@, underlined));
    s
}

fn push_true_color(out: &mut String, underlined: bool, r: &[char], g: &[char], b: &[char])
    ensures
        final(out)@ == old(out)@ + true_color(underlined, r@, g@, b@),
{
    let ghost start = out@;
    push_esc_start(out, underlined);
    push_chars(out, &['3', '8', ';', '2', ';']);
    push_chars(out, r);
    push_chars(out, &[';']);
    push_chars(out, g);
    push_chars(out, &[';']);
    push_chars(out, b);
    push_chars(out, &['m']);
    assert(out@ =~= start + true_color(underlined, r@, g@, b@));
}

/// The red, green and blue bytes of a hexadecimal color `RRGGBB`.
fn hex_triplet_of(color: &Vec<char>) -> (r: Option<(u8, u8, u8)>)
    ensures
        r == hex_triplet(color@),
{
    let n = color.len();
    if n < 4 {
        return None;
    }
    let rs = sub_chars(color, 0, 2);
    let gs = sub_chars(color, 2, 4);
    let bs = sub_chars(color, 4, n);
    assert(rs@ =~= color@.take(2));
    assert(bs@ =~= color@.skip(4));
    match (parse_hex_u8(&rs), parse_hex_u8(&gs), parse_hex_u8(&bs)) {
        (Some(r), Some(g), Some(b)) => Some((r, g, b)),
        _ => None,
    }
}

/// The escape sequence for the hexadecimal color `RRGGBB`, with its components in decimal.
pub fn to_24bit_color(color: &str, underlined: bool) -> (r: String)
    requires
        hex_triplet(color@) is Some,
    ensures
        r@ == spec_to_24bit_color(hex_triplet(color@)->0, underlined),
{
    let chars = chars_of(color);
    let (r, g, b) = match hex_triplet_of(&chars) {
        Some(t) => t,
        None => (0, 0, 0),
    };
    let rd = u8_decimal(r);
    let gd = u8_decimal(g);
    let bd = u8_decimal(b);
    let mut s = String::new();
    push_true_color(&mut s, underlined, rd.as_slice(), gd.as_slice(), bd.as_slice());
    assert(s@ =~= spec_to_24bit_color(hex_triplet(color@)->0, underlined));
    s
}

/// The escape sequence for the color `(r, g, b)`, with the numbers kept as written.
pub fn to_rgb_color(color: &str, underlined: bool) -> (r: String)
    requires
        is_parenthesized(color@),
        rgb_words(color@).len() >= 3,
    ensures
        r@ == spec_to_rgb_color(color@, underlined),
{
    let chars = chars_of(color);
    let words = rgb_words_of(&chars);
    let ghost ws = words@.map_values(|w: Vec<char>| w@);
    assert(ws[0] == words@[0]@ && ws[1] == words@[1]@ && ws[2] == words@[2]@);
    let mut s = String::new();
    push_true_color(&mut s, underlined, words[0].as_slice(), words[1].as_slice(), words[2].as_slice());
    assert(s@ =~= spec_to_rgb_color(color@, underlined));
    s
}

/// The escape sequence that a `[[colorings]]` table asks for, or the message that says why
/// its color is not valid.
pub fn valid_color_syntax(coloring: &Coloring) -> (r: Result<String, String>)
    ensures
        match color_escape(coloring@.color, coloring@.underlined == Some(true)) {
            Ok(s) => r matches Ok(x) && x@ == s,
            Err(m) => r matches Err(x) && x@ == m,
        },
{
    let color = coloring.color();
    let underlined = coloring.underlined();
    let chars = chars_of(color);
    if chars.len() == 0 {
        if underlined {
            return Ok(string_of(&['\x1b', '[', '4', 'm']));
        } else {
            return Ok(string_of(&['\x1b', '[', '0', 'm']));
        }
    }
    if let Some(code) = predefined_color(color) {
        if underlined {
            let mut s = string_of(&['\x1b', '[', '4', 'm']);
            push_all(&mut s, code.as_str());
            return Ok(s);
        } else {
            return Ok(code);
        }
    }
    if is_8bit_color(color) {
        return Ok(to_8bit_color(color, underlined));
    }
    let hex = if is_24bit_color(color) {
        Some(chars.clone())
    } else if is_24bit_color_hash(color) {
        let rest = sub_chars(&chars, 1, chars.len());
        assert(rest@ =~= color@.skip(1));
        Some(rest)
    } else {
        None
    };
    if let Some(digits) = hex {
        if let Some((r, g, b)) = hex_triplet_of(&digits) {
            let rd = u8_decimal(r);
            let gd = u8_decimal(g);
            let bd = u8_decimal(b);
            let mut s = String::new();
            push_true_color(&mut s, underlined, rd.as_slice(), gd.as_slice(), bd.as_slice());
            return Ok(s);
        }
        return Err(invalid_color_text(color));
    }
    if is_rgb_color(color) {
        return Ok(to_rgb_color(color, underlined));
    }
    Err(invalid_color_text(color))
}

/// The message for a color that matches no syntax.
fn invalid_color_text(color: &str) -> (m: String)
    ensures
        m@ == invalid_color_message(color@),
{
    let mut m = string_of(
        &['i', 'n', 'v', 'a', 'l', 'i', 'd', ' ', 'c', 'o', 'l', 'o', 'r', ' ', 's', 'y', 'n', 't', 'a', 'x', ':', ' ', '"'],
    );
    push_all(&mut m, color);
    push_chars(&mut m, &['"']);
    assert(m@ =~= invalid_color_message(color@));
    m
}

} // verus!


verus! {

/// The escape sequence that ends a colored stretch: `ESC [ 0 m`.
pub open spec fn reset() -> Seq<char> {
    seq!['\x1b', '[', '0', 'm']
}

/// The number of bytes of the UTF-8 encoding of `s`, as `str::len` gives it.
pub open spec fn byte_len(s: Seq<char>) -> usize {
    encode_utf8(s).len() as usize
}

/// The match of the first of `patterns`, in order, that matches `text`.
pub open spec fn first_match_in(patterns: Seq<Seq<char>>, text: Seq<char>) -> Option<Seq<char>>
    decreases patterns.len(),
{
    if patterns.len() == 0 {
        None
    } else {
        match regex_match(patterns[0], text) {
            Some(m) => Some(m),
            None => first_match_in(patterns.drop_first(), text),
        }
    }
}

/// The first rule, in order, with a pattern that matches `text`: its index and the match.
pub open spec fn first_match(syntaxes: Seq<SyntaxView>, text: Seq<char>) -> Option<(int, Seq<char>)>
    decreases syntaxes.len(),
{
    if syntaxes.len() == 0 {
        None
    } else {
        match first_match_in(syntaxes[0].patterns, text) {
            Some(m) => Some((0, m)),
            None => match first_match(syntaxes.drop_first(), text) {
                Some((i, m)) => Some((i + 1, m)),
                None => None,
            },
        }
    }
}

/// `n` backspaces.
pub open spec fn backspaces(n: nat) -> Seq<char> {
    Seq::new(n, |i: int| '\x08')
}

/// The state that highlighting carries from one received character to the next: the word
/// being matched, whether it is colored now, whether spaces are part of the match, the byte
/// length of the last match, and the text produced so far.
pub struct HighlightState {
    pub word: Seq<char>,
    pub matched: bool,
    pub comment: bool,
    pub match_len: usize,
    pub out: Seq<char>,
}

/// One received character `c`, highlighted as it arrives. `None` where a rule matches an
/// empty text, on which no output is made.
pub open spec fn words_step(syntaxes: Seq<SyntaxView>, st: HighlightState, c: char) -> Option<HighlightState> {
    if (c == ' ' && !st.comment) || c == '\r' || c == '\n' {
        Some(HighlightState {
            word: Seq::empty(),
            matched: false,
            out: st.out + (if st.matched { reset() } else { Seq::empty() }) + seq![c],
            ..st
        })
    } else if c == '\x08' {
        Some(HighlightState {
            word: if st.word.len() > 0 { st.word.drop_last() } else { st.word },
            out: st.out.push(c),
            ..st
        })
    } else {
        let word = st.word.push(c);
        match first_match(syntaxes, word) {
            Some((i, m)) => if st.matched {
                if st.match_len == byte_len(m) {
                    Some(HighlightState {
                        matched: false,
                        out: st.out + reset() + seq![c],
                        match_len: 0,
                        word: seq![c],
                        ..st
                    })
                } else {
                    Some(HighlightState { match_len: byte_len(m), out: st.out.push(c), word, ..st })
                }
            } else if byte_len(m) == 0 {
                None
            } else {
                Some(HighlightState {
                    comment: syntaxes[i].ignore_whitespace,
                    out: st.out + backspaces((byte_len(m) - 1) as nat) + syntaxes[i].color + m,
                    word: m,
                    match_len: byte_len(m),
                    matched: true,
                })
            },
            None => if st.matched {
                Some(HighlightState { matched: false, out: st.out + reset() + seq![c], word: seq![c], ..st })
            } else {
                Some(HighlightState { word, out: st.out.push(c), ..st })
            },
        }
    }
}

/// The characters `text[k..]` highlighted one after the other from the state `st`.
pub open spec fn words_run(syntaxes: Seq<SyntaxView>, st: HighlightState, text: Seq<char>, k: int) -> Option<HighlightState>
    decreases text.len() - k,
{
    if k < 0 || k >= text.len() {
        Some(st)
    } else {
        match words_step(syntaxes, st, text[k]) {
            Some(next) => words_run(syntaxes, next, text, k + 1),
            None => None,
        }
    }
}

} // verus!

verus! {

proof fn lemma_first_match_index(syntaxes: Seq<SyntaxView>, text: Seq<char>)
    ensures
        first_match(syntaxes, text) matches Some((i, m)) ==> 0 <= i < syntaxes.len(),
    decreases syntaxes.len(),
{
    if syntaxes.len() > 0 {
        lemma_first_match_index(syntaxes.drop_first(), text);
    }
}

/// The match of the first pattern, in order, that matches `text`.
fn find_in_patterns(patterns: &Vec<Pattern>, text: &str) -> (r: Option<String>)
    ensures
        match first_match_in(setting::patterns_view(patterns@), text@) {
            Some(m) => r matches Some(s) && s@ == m,
            None => r is None,
        },
{
    let ghost ps = setting::patterns_view(patterns@);
    let mut k: usize = 0;
    assert(ps.skip(0) =~= ps);
    while k < patterns.len()
        invariant
            k <= patterns@.len(),
            ps == setting::patterns_view(patterns@),
            first_match_in(ps, text@) == first_match_in(ps.skip(k as int), text@),
        decreases patterns@.len() - k,
    {
        let ghost rest = ps.skip(k as int);
        assert(rest[0] == patterns@[k as int]@);
        assert(rest.drop_first() =~= ps.skip(k + 1));
        if let Some(m) = patterns[k].captures(text) {
            return Some(m);
        }
        k += 1;
    }
    assert(ps.skip(k as int).len() == 0);
    None
}

/// The first rule, in order, with a pattern that matches `text`: its index and the match.
pub fn find_first_match(syntaxes: &Vec<SyntaxDefinition>, text: &str) -> (r: Option<(usize, String)>)
    ensures
        match first_match(setting::syntaxes_view(syntaxes@), text@) {
            Some((i, m)) => r matches Some((j, s)) && j == i && s@ == m && j < syntaxes@.len(),
            None => r is None,
        },
{
    let ghost ss = setting::syntaxes_view(syntaxes@);
    proof {
        lemma_first_match_index(ss, text@);
    }
    let mut k: usize = 0;
    assert(ss.skip(0) =~= ss);
    while k < syntaxes.len()
        invariant
            k <= syntaxes@.len(),
            ss == setting::syntaxes_view(syntaxes@),
            first_match(ss, text@) == (match first_match(ss.skip(k as int), text@) {
                Some((i, m)) => Some((i + k, m)),
                None => None,
            }),
        decreases syntaxes@.len() - k,
    {
        let ghost rest = ss.skip(k as int);
        assert(rest[0] == syntaxes@[k as int]@);
        assert(rest.drop_first() =~= ss.skip(k + 1));
        if let Some(m) = find_in_patterns(syntaxes[k].regex(), text) {
            return Some((k, m));
        }
        k += 1;
    }
    assert(ss.skip(k as int).len() == 0);
    None
}

fn push_reset(out: &mut String)
    ensures
        final(out)@ == old(out)@ + reset(),
{
    push_chars(out, &['\x1b', '[', '0', 'm']);
}

/// One received character `c`, highlighted from the state held in the other arguments;
/// `false` where a rule matches an empty text.
fn highlight_step(
    syntaxes: &Vec<SyntaxDefinition>,
    word: &mut String,
    matched: &mut bool,
    comment: &mut bool,
    match_len: &mut usize,
    out: &mut String,
    c: char,
) -> (ok: bool)
    ensures
        ({
            let st = HighlightState {
                word: old(word)@,
                matched: *old(matched),
                comment: *old(comment),
                match_len: *old(match_len),
                out: old(out)@,
            };
            match words_step(setting::syntaxes_view(syntaxes@), st, c) {
                Some(n) => ok && final(word)@ == n.word && *final(matched) == n.matched
                    && *final(comment) == n.comment && *final(match_len) == n.match_len
                    && final(out)@ == n.out,
                None => !ok,
            }
        }),
{
    let ghost syns = setting::syntaxes_view(syntaxes@);
    if (c == ' ' && !*comment) || c == '\r' || c == '\n' {
        *word = String::new();
        if *matched {
            push_reset(out);
        }
        *matched = false;
        push_char(out, c);
        assert(final(out)@ =~= old(out)@ + (if *old(matched) { reset() } else { Seq::empty() }) + seq![c]);
        true
    } else if c == '\x08' {
        let _ = pop_char(word);
        push_char(out, c);
        true
    } else {
        push_char(word, c);
        match find_first_match(syntaxes, word.as_str()) {
            Some((i, m)) => {
                let len = m.as_str().len();
                if *matched {
                    if *match_len == len {
                        *matched = false;
                        push_reset(out);
                        *match_len = 0;
                        *word = String::new();
                        push_char(word, c);
                        assert(word@ =~= seq![c]);
                    } else {
                        *match_len = len;
                    }
                    push_char(out, c);
                    assert(final(out)@ =~= (if *old(match_len) == len { old(out)@ + reset() + seq![c] } else { old(out)@.push(c) }));
                    true
                } else {
                    if len == 0 {
                        return false;
                    }
                    let syntax = &syntaxes[i];
                    assert(syns[i as int] == syntax@);
                    *comment = syntax.ignore_whitespace();
                    let mut b: usize = 0;
                    let ghost out0 = out@;
                    assert(out@ =~= out0 + backspaces(0));
                    while b < len - 1
                        invariant
                            b <= len - 1,
                            out@ == out0 + backspaces(b as nat),
                        decreases len - 1 - b,
                    {
                        push_char(out, '\x08');
                        b += 1;
                        assert(out@ =~= out0 + backspaces(b as nat));
                    }
                    push_all(out, syntax.color());
                    push_all(out, m.as_str());
                    *match_len = len;
                    *word = m;
                    *matched = true;
                    true
                }
            },
            None => {
                if *matched {
                    *matched = false;
                    push_reset(out);
                    *word = String::new();
                    push_char(word, c);
                    assert(word@ =~= seq![c]);
                }
                push_char(out, c);
                true
            },
        }
    }
}

/// Highlights the received text `serial_buf`, carrying the state `last_word` (the word being
/// matched, whether it is colored, whether spaces belong to the match) over from the text
/// received before. Returns the text to show; `None`, with `last_word` untouched, where a
/// rule matches an empty text.
pub fn coloring_words(
    serial_buf: &str,
    last_word: &mut (String, bool, bool),
    params: &Option<Params>,
) -> (r: Option<String>)
    requires
        params is Some,
    ensures
        ({
            let syns = setting::syntaxes_view(params->0.syntaxes@);
            let st0 = HighlightState {
                word: old(last_word).0@,
                matched: old(last_word).1,
                comment: old(last_word).2,
                match_len: byte_len(old(last_word).0@),
                out: Seq::empty(),
            };
            match words_run(syns, st0, serial_buf@, 0) {
                Some(st) => r matches Some(s) && s@ == st.out && final(last_word).0@ == st.word
                    && final(last_word).1 == st.matched && final(last_word).2 == st.comment,
                None => r is None && *final(last_word) == *old(last_word),
            }
        }),
{
    let p = params.as_ref().unwrap();
    let ghost syns = setting::syntaxes_view(p.syntaxes@);
    assert(syns == setting::syntaxes_view(params->0.syntaxes@));
    let chars = chars_of(serial_buf);
    let mut word = last_word.0.clone();
    let mut matched = last_word.1;
    let mut comment = last_word.2;
    let mut match_len = word.as_str().len();
    let mut out = String::new();
    let ghost total = words_run(
        syns,
        HighlightState { word: word@, matched, comment, match_len, out: out@ },
        serial_buf@,
        0,
    );
    let mut k: usize = 0;
    while k < chars.len()
        invariant
            k <= chars@.len(),
            chars@ == serial_buf@,
            syns == setting::syntaxes_view(p.syntaxes@),
            syns == setting::syntaxes_view(params->0.syntaxes@),
            *last_word == *old(last_word),
            total == words_run(
                syns,
                HighlightState {
                    word: old(last_word).0@,
                    matched: old(last_word).1,
                    comment: old(last_word).2,
                    match_len: byte_len(old(last_word).0@),
                    out: Seq::empty(),
                },
                serial_buf@,
                0,
            ),
            total == words_run(
                syns,
                HighlightState { word: word@, matched, comment, match_len, out: out@ },
                serial_buf@,
                k as int,
            ),
        decreases chars@.len() - k,
    {
        let c = chars[k];
        let ghost head = HighlightState { word: word@, matched, comment, match_len, out: out@ };
        let ok = highlight_step(&p.syntaxes, &mut word, &mut matched, &mut comment, &mut match_len, &mut out, c);
        if !ok {
            assert(words_run(syns, head, serial_buf@, k as int) is None);
            return None;
        }
        k += 1;
    }
    *last_word = (word, matched, comment);
    Some(out)
}

} // verus!

verus! {

/// The first characters of `s` whose UTF-8 encoding is exactly `n` bytes long, as the byte
/// slice `&s[..n]` gives them; `None` when `n` is not the end of a character in `s`.
pub open spec fn prefix_with_bytes(s: Seq<char>, n: int) -> Option<Seq<char>>
    decreases s.len(),
{
    if n == 0 {
        Some(Seq::empty())
    } else if n < 0 || s.len() == 0 {
        None
    } else {
        let w = encode_utf8(seq![s[0]]).len() as int;
        if w > n {
            None
        } else {
            match prefix_with_bytes(s.drop_first(), n - w) {
                Some(p) => Some(seq![s[0]] + p),
                None => None,
            }
        }
    }
}

/// One character `c` of a line of a file, highlighted; the state is that of the line so far.
/// A colored word that stops matching ends the color, and only `c` is shown then (the rest
/// of the word has been shown already). `None` where the text before a match does not end
/// on a character boundary.
pub open spec fn file_step(syntaxes: Seq<SyntaxView>, st: HighlightState, c: char) -> Option<HighlightState> {
    if c == ' ' && !st.comment {
        Some(HighlightState {
            word: Seq::empty(),
            matched: if st.word.len() > 0 { false } else { st.matched },
            out: st.out + (if st.word.len() > 0 {
                if st.matched { reset() } else { st.word }
            } else {
                Seq::empty()
            }) + seq![' '],
            ..st
        })
    } else {
        let word = st.word.push(c);
        match first_match(syntaxes, word) {
            Some((i, m)) => if st.matched {
                if st.match_len == byte_len(m) {
                    Some(HighlightState {
                        matched: false,
                        out: st.out + reset(),
                        match_len: 0,
                        word: seq![c],
                        ..st
                    })
                } else {
                    Some(HighlightState { match_len: byte_len(m), out: st.out.push(c), word, ..st })
                }
            } else if byte_len(word) < byte_len(m) {
                None
            } else {
                match prefix_with_bytes(word, byte_len(word) - byte_len(m)) {
                    None => None,
                    Some(pre) => Some(HighlightState {
                        comment: syntaxes[i].ignore_whitespace,
                        out: st.out + pre + syntaxes[i].color + m,
                        word: m,
                        match_len: byte_len(m),
                        matched: true,
                    }),
                }
            },
            None => if st.matched {
                Some(HighlightState { matched: false, out: st.out + reset() + seq![c], word: Seq::empty(), ..st })
            } else {
                Some(HighlightState { word, ..st })
            },
        }
    }
}

/// The characters `line[k..]` highlighted one after the other from the state `st`.
pub open spec fn file_run(syntaxes: Seq<SyntaxView>, st: HighlightState, line: Seq<char>, k: int) -> Option<HighlightState>
    decreases line.len() - k,
{
    if k < 0 || k >= line.len() {
        Some(st)
    } else {
        match file_step(syntaxes, st, line[k]) {
            Some(next) => file_run(syntaxes, next, line, k + 1),
            None => None,
        }
    }
}

/// The state that each line of a file starts from.
pub open spec fn line_start() -> HighlightState {
    HighlightState { word: Seq::empty(), matched: false, comment: false, match_len: 0, out: Seq::empty() }
}

/// A line of a file, highlighted: what the characters produce, then the word left over when
/// it is not colored, then a reset.
pub open spec fn color_line(syntaxes: Seq<SyntaxView>, line: Seq<char>) -> Option<Seq<char>> {
    match file_run(syntaxes, line_start(), line, 0) {
        Some(st) => Some(st.out + (if st.matched { Seq::empty() } else { st.word }) + reset()),
        None => None,
    }
}

/// A line that ended with a line feed, without it and without a carriage return before it.
pub open spec fn strip_cr(line: Seq<char>) -> Seq<char> {
    if line.len() > 0 && line.last() == '\r' {
        line.drop_last()
    } else {
        line
    }
}

/// The lines of `text[i..]` after the lines `acc` and the unfinished line `cur`, as
/// `str::lines` gives them: split after each line feed, a line feed and a carriage return just
/// before it removed, and no empty line after a final line feed.
pub open spec fn lines_from(text: Seq<char>, i: int, cur: Seq<char>, acc: Seq<Seq<char>>) -> Seq<Seq<char>>
    decreases text.len() - i,
{
    if i < 0 || i >= text.len() {
        if cur.len() > 0 { acc.push(cur) } else { acc }
    } else if text[i] == '\n' {
        lines_from(text, i + 1, Seq::empty(), acc.push(strip_cr(cur)))
    } else {
        lines_from(text, i + 1, cur.push(text[i]), acc)
    }
}

/// The lines of `text`.
pub open spec fn lines_of(text: Seq<char>) -> Seq<Seq<char>> {
    lines_from(text, 0, Seq::empty(), Seq::empty())
}

/// The lines `lines[k..]`, each highlighted and followed by a line feed.
pub open spec fn color_lines(syntaxes: Seq<SyntaxView>, lines: Seq<Seq<char>>, k: int) -> Option<Seq<char>>
    decreases lines.len() - k,
{
    if k < 0 || k >= lines.len() {
        Some(Seq::empty())
    } else {
        match (color_line(syntaxes, lines[k]), color_lines(syntaxes, lines, k + 1)) {
            (Some(l), Some(rest)) => Some(l + seq!['\n'] + rest),
            _ => None,
        }
    }
}

} // verus!

verus! {

/// The first characters of `s` whose encoding takes exactly `n` bytes.
fn byte_prefix(s: &str, n: usize) -> (r: Option<String>)
    ensures
        match prefix_with_bytes(s@, n as int) {
            Some(p) => r matches Some(x) && x@ == p,
            None => r is None,
        },
{
    let chars = chars_of(s);
    let ghost cs = chars@;
    let mut k: usize = 0;
    let mut acc: usize = 0;
    assert(cs.skip(0) =~= cs);
    assert(cs.take(0) =~= Seq::<char>::empty());
    proof {
        match prefix_with_bytes(cs, n as int) {
            Some(p) => {
                assert(Seq::<char>::empty() + p =~= p);
            },
            None => {},
        }
    }
    while k < chars.len() && acc < n
        invariant
            k <= cs.len(),
            cs == chars@,
            cs == s@,
            acc <= n,
            prefix_with_bytes(cs, n as int) == (match prefix_with_bytes(cs.skip(k as int), (n - acc) as int) {
                Some(p) => Some(cs.take(k as int) + p),
                None => None,
            }),
        decreases cs.len() - k,
    {
        let c = chars[k];
        let enc = encode_char(c);
        let w = enc.len();
        let ghost rest = cs.skip(k as int);
        assert(rest[0] == c);
        assert(rest.drop_first() =~= cs.skip(k + 1));
        if w > n - acc {
            assert(prefix_with_bytes(rest, (n - acc) as int) is None);
            return None;
        }
        proof {
            match prefix_with_bytes(cs.skip(k + 1), (n - acc - w) as int) {
                Some(p) => {
                    assert(cs.take(k as int) + (seq![c] + p) =~= cs.take(k + 1) + p);
                },
                None => {},
            }
        }
        acc = acc + w;
        k += 1;
    }
    if acc < n {
        assert(cs.skip(k as int).len() == 0);
        return None;
    }
    let mut r = String::new();
    let prefix = sub_chars(&chars, 0, k);
    push_chars(&mut r, prefix.as_slice());
    assert(cs.take(k as int) + Seq::<char>::empty() =~= cs.take(k as int));
    assert(r@ =~= cs.take(k as int));
    Some(r)
}

} // verus!

verus! {

/// One character `c` of a line of a file, highlighted from the state held in the other
/// arguments; `false` where the text before a match does not end on a character boundary.
fn file_highlight_step(
    syntaxes: &Vec<SyntaxDefinition>,
    word: &mut String,
    matched: &mut bool,
    comment: &mut bool,
    match_len: &mut usize,
    out: &mut String,
    c: char,
) -> (ok: bool)
    ensures
        ({
            let st = HighlightState {
                word: old(word)@,
                matched: *old(matched),
                comment: *old(comment),
                match_len: *old(match_len),
                out: old(out)@,
            };
            match file_step(setting::syntaxes_view(syntaxes@), st, c) {
                Some(n) => ok && final(word)@ == n.word && *final(matched) == n.matched
                    && *final(comment) == n.comment && *final(match_len) == n.match_len
                    && final(out)@ == n.out,
                None => !ok,
            }
        }),
{
    let ghost syns = setting::syntaxes_view(syntaxes@);
    if c == ' ' && !*comment {
        let ghost out0 = out@;
        if !word.as_str().is_empty() {
            if *matched {
                push_reset(out);
                *matched = false;
            } else {
                push_all(out, word.as_str());
            }
            *word = String::new();
        }
        push_char(out, ' ');
        assert(out@ =~= out0 + (if old(word)@.len() > 0 {
            if *old(matched) { reset() } else { old(word)@ }
        } else {
            Seq::empty()
        }) + seq![' ']);
        assert(word@ =~= Seq::<char>::empty());
        return true;
    }
    push_char(word, c);
    match find_first_match(syntaxes, word.as_str()) {
        Some((i, m)) => {
            let len = m.as_str().len();
            if *matched {
                if *match_len == len {
                    *matched = false;
                    push_reset(out);
                    *match_len = 0;
                    *word = String::new();
                    push_char(word, c);
                    assert(word@ =~= seq![c]);
                } else {
                    *match_len = len;
                    push_char(out, c);
                }
                true
            } else {
                let total = word.as_str().len();
                if total < len {
                    return false;
                }
                let pre = match byte_prefix(word.as_str(), total - len) {
                    Some(p) => p,
                    None => {
                        return false;
                    },
                };
                let syntax = &syntaxes[i];
                assert(syns[i as int] == syntax@);
                *comment = syntax.ignore_whitespace();
                push_all(out, pre.as_str());
                push_all(out, syntax.color());
                push_all(out, m.as_str());
                *word = m;
                *match_len = len;
                *matched = true;
                true
            }
        },
        None => {
            if *matched {
                *matched = false;
                push_reset(out);
                push_char(out, c);
                *word = String::new();
                assert(out@ =~= old(out)@ + reset() + seq![c]);
            }
            true
        },
    }
}

/// A line of a file, highlighted; `None` where the line cannot be.
fn color_one_line(syntaxes: &Vec<SyntaxDefinition>, line: &Vec<char>) -> (r: Option<String>)
    ensures
        match color_line(setting::syntaxes_view(syntaxes@), line@) {
            Some(s) => r matches Some(x) && x@ == s,
            None => r is None,
        },
{
    let ghost syns = setting::syntaxes_view(syntaxes@);
    let mut word = String::new();
    let mut matched = false;
    let mut comment = false;
    let mut match_len: usize = 0;
    let mut out = String::new();
    let ghost total = file_run(syns, line_start(), line@, 0);
    assert(line_start() == HighlightState { word: word@, matched, comment, match_len, out: out@ });
    let mut k: usize = 0;
    while k < line.len()
        invariant
            k <= line@.len(),
            syns == setting::syntaxes_view(syntaxes@),
            total == file_run(syns, line_start(), line@, 0),
            total == file_run(
                syns,
                HighlightState { word: word@, matched, comment, match_len, out: out@ },
                line@,
                k as int,
            ),
        decreases line@.len() - k,
    {
        let ghost head = HighlightState { word: word@, matched, comment, match_len, out: out@ };
        let ok = file_highlight_step(syntaxes, &mut word, &mut matched, &mut comment, &mut match_len, &mut out, line[k]);
        if !ok {
            assert(file_run(syns, head, line@, k as int) is None);
            return None;
        }
        k += 1;
    }
    if !matched {
        push_all(&mut out, word.as_str());
    }
    push_reset(&mut out);
    assert(out@ =~= color_line(syns, line@)->0);
    Some(out)
}

/// The lines of `text`, as `str::lines` gives them.
fn split_lines(text: &Vec<char>) -> (r: Vec<Vec<char>>)
    ensures
        r@.map_values(|l: Vec<char>| l@) == lines_of(text@),
{
    let mut acc: Vec<Vec<char>> = Vec::new();
    let mut cur: Vec<char> = Vec::new();
    let mut k: usize = 0;
    assert(acc@.map_values(|l: Vec<char>| l@) =~= Seq::<Seq<char>>::empty());
    assert(cur@ =~= Seq::<char>::empty());
    while k < text.len()
        invariant
            k <= text@.len(),
            lines_of(text@) == lines_from(text@, k as int, cur@, acc@.map_values(|l: Vec<char>| l@)),
        decreases text@.len() - k,
    {
        let c = text[k];
        if c == '\n' {
            let ghost before = acc@.map_values(|l: Vec<char>| l@);
            let ghost old_cur = cur@;
            let n = cur.len();
            let line = if n > 0 && cur[n - 1] == '\r' {
                let l = sub_chars(&cur, 0, n - 1);
                assert(l@ =~= cur@.drop_last());
                l
            } else {
                cur
            };
            assert(line@ == strip_cr(cur@));
            acc.push(line);
            cur = Vec::new();
            assert(acc@.map_values(|l: Vec<char>| l@) =~= before.push(strip_cr(old_cur)));
            assert(cur@ =~= Seq::<char>::empty());
        } else {
            cur.push(c);
        }
        k += 1;
    }
    if cur.len() > 0 {
        let ghost before = acc@.map_values(|l: Vec<char>| l@);
        let line = cur;
        acc.push(line);
        assert(acc@.map_values(|l: Vec<char>| l@) =~= before.push(line@));
    }
    acc
}

/// The text of a file as it is shown: unchanged without a configuration, otherwise each line
/// highlighted by the configuration's rules and followed by a line feed. `None` where a line
/// cannot be highlighted (the text before a match does not end on a character boundary).
pub fn coloring_from_file(text: String, params: Option<Params>) -> (r: Option<String>)
    ensures
        match params {
            None => r matches Some(s) && s@ == text@,
            Some(p) => match color_lines(setting::syntaxes_view(p.syntaxes@), lines_of(text@), 0) {
                Some(s) => r matches Some(x) && x@ == s,
                None => r is None,
            },
        },
{
    let prm = match params {
        None => {
            return Some(text);
        },
        Some(p) => p,
    };
    let ghost syns = setting::syntaxes_view(prm.syntaxes@);
    let chars = chars_of(text.as_str());
    let lines = split_lines(&chars);
    let ghost ls = lines@.map_values(|l: Vec<char>| l@);
    let n = lines.len();
    let mut pieces: Vec<String> = Vec::new();
    let mut k: usize = 0;
    while k < n
        invariant
            k <= n,
            n == lines@.len(),
            ls == lines@.map_values(|l: Vec<char>| l@),
            ls == lines_of(text@),
            ls.len() == n,
            syns == setting::syntaxes_view(prm.syntaxes@),
            params == Some(prm),
            pieces@.len() == k,
            forall|j: int| 0 <= j < k ==> color_line(syns, ls[j]) == Some((#[trigger] pieces@[j])@),
        decreases n - k,
    {
        assert(ls[k as int] == lines@[k as int]@);
        match color_one_line(&prm.syntaxes, &lines[k]) {
            Some(s) => {
                pieces.push(s);
            },
            None => {
                proof {
                    lemma_color_lines_fails(syns, ls, 0, k as int);
                }
                return None;
            },
        }
        k += 1;
    }
    let mut all = String::new();
    proof {
        assert forall|x: int| 0 <= x < ls.len() implies (#[trigger] color_line(syns, ls[x])) is Some by {
            assert(color_line(syns, ls[x]) == Some(pieces@[x]@));
        }
        lemma_color_lines_ok(syns, ls, 0);
        assert(Seq::<char>::empty() + color_lines(syns, ls, 0)->0 =~= color_lines(syns, ls, 0)->0);
    }
    let mut idx: usize = 0;
    while idx < n
        invariant
            idx <= n,
            pieces@.len() == n,
            ls.len() == n,
            ls == lines@.map_values(|l: Vec<char>| l@),
            forall|x: int| 0 <= x < n ==> color_line(syns, ls[x]) == Some((#[trigger] pieces@[x])@),
            color_lines(syns, ls, 0) == Some(all@ + color_lines(syns, ls, idx as int)->0),
            color_lines(syns, ls, idx as int) is Some,
        decreases n - idx,
    {
        let ghost before = all@;
        assert(color_line(syns, ls[idx as int]) == Some(pieces@[idx as int]@));
        push_all(&mut all, pieces[idx].as_str());
        push_char(&mut all, '\n');
        proof {
            let rest = color_lines(syns, ls, idx + 1)->0;
            assert(color_lines(syns, ls, idx as int)->0 == pieces@[idx as int]@ + seq!['\n'] + rest);
            assert(before + (pieces@[idx as int]@ + seq!['\n'] + rest) =~= all@ + rest);
        }
        idx += 1;
    }
    assert(all@ + Seq::<char>::empty() =~= all@);
    Some(all)
}

proof fn lemma_color_lines_ok(syntaxes: Seq<SyntaxView>, lines: Seq<Seq<char>>, from: int)
    requires
        0 <= from,
        forall|x: int| from <= x < lines.len() ==> (#[trigger] color_line(syntaxes, lines[x])) is Some,
    ensures
        color_lines(syntaxes, lines, from) is Some,
    decreases lines.len() - from,
{
    if from < lines.len() {
        lemma_color_lines_ok(syntaxes, lines, from + 1);
    }
}

proof fn lemma_color_lines_fails(syntaxes: Seq<SyntaxView>, lines: Seq<Seq<char>>, from: int, bad: int)
    requires
        0 <= from <= bad < lines.len(),
        color_line(syntaxes, lines[bad]) is None,
    ensures
        color_lines(syntaxes, lines, from) is None,
    decreases bad - from,
{
    if from < bad {
        lemma_color_lines_fails(syntaxes, lines, from + 1, bad);
    }
}

} // verus!

verus! {

/// `#RRGGBB` and `RRGGBB` name the same color, where `RRGGBB` is not also read as a palette
/// index (as `000123` would be) and its components read as bytes (`-00000` does not: its
/// two forms are both refused, each with a message that quotes it).
pub proof fn hash_form_is_same_color(c: Seq<char>, underlined: bool)
    requires
        spec_is_24bit_color(c),
        !spec_is_8bit_color(c),
        hex_triplet(c) is Some,
    ensures
        color_escape(seq!['#'] + c, underlined) == color_escape(c, underlined),
{
    let h = seq!['#'] + c;
    assert(h.skip(1) =~= c);
    assert(h.len() == 7);
    assert(!spec_is_predefined_color(h));
    lemma_hash_not_number(h);
}

proof fn lemma_hash_not_number(h: Seq<char>)
    requires
        h.len() > 1,
        h[0] == '#',
    ensures
        parse_u8(h) is None,
{
    lemma_first_not_digit(h, 10);
}

proof fn lemma_first_not_digit(s: Seq<char>, radix: int)
    requires
        s.len() > 0,
        number::digit_value(s[0], radix) is None,
    ensures
        number::digits_value(s, radix) is None,
    decreases s.len(),
{
    if s.len() > 1 {
        lemma_first_not_digit(s.drop_last(), radix);
    }
}

} // verus!

verus! {

proof fn lemma_unmatched_words(syntaxes: Seq<SyntaxView>, st: HighlightState, text: Seq<char>, k: int)
    requires
        0 <= k <= text.len(),
        !st.matched,
        forall|w: Seq<char>| #[trigger] first_match(syntaxes, w) is None,
    ensures
        words_run(syntaxes, st, text, k) matches Some(end) && end.out == st.out + text.skip(k)
            && !end.matched,
    decreases text.len() - k,
{
    if k < text.len() {
        let c = text[k];
        let next = words_step(syntaxes, st, c);
        assert(first_match(syntaxes, st.word.push(c)) is None);
        assert(next matches Some(n) && n.out == st.out.push(c) && !n.matched);
        let n = next->0;
        lemma_unmatched_words(syntaxes, n, text, k + 1);
        assert(st.out.push(c) + text.skip(k + 1) =~= st.out + text.skip(k));
    } else {
        assert(text.skip(k) =~= Seq::<char>::empty());
        assert(st.out + Seq::<char>::empty() =~= st.out);
    }
}

/// Received text in which no rule matches anything is shown as it came: highlighting adds
/// nothing to it and leaves nothing colored.
pub proof fn unmatched_text_passes_through(syntaxes: Seq<SyntaxView>, st: HighlightState, text: Seq<char>)
    requires
        !st.matched,
        forall|w: Seq<char>| #[trigger] first_match(syntaxes, w) is None,
    ensures
        words_run(syntaxes, st, text, 0) matches Some(end) && end.out == st.out + text && !end.matched,
{
    lemma_unmatched_words(syntaxes, st, text, 0);
    assert(text.skip(0) =~= text);
}

proof fn lemma_unmatched_line(syntaxes: Seq<SyntaxView>, st: HighlightState, line: Seq<char>, k: int)
    requires
        0 <= k <= line.len(),
        !st.matched,
        forall|w: Seq<char>| #[trigger] first_match(syntaxes, w) is None,
    ensures
        file_run(syntaxes, st, line, k) matches Some(end) && end.out + end.word == st.out + st.word
            + line.skip(k) && !end.matched,
    decreases line.len() - k,
{
    if k < line.len() {
        let c = line[k];
        let next = file_step(syntaxes, st, c);
        if c == ' ' && !st.comment {
            assert(next matches Some(n) && n.out + n.word == st.out + st.word + seq![c] && !n.matched) by {
                assert(st.out + st.word + seq![c] + Seq::<char>::empty() =~= st.out + st.word + seq![c]);
                if st.word.len() == 0 {
                    assert(st.out + st.word =~= st.out);
                    assert(st.out + Seq::<char>::empty() + seq![' '] + Seq::<char>::empty() =~= st.out + seq![c]);
                }
            }
        } else {
            assert(first_match(syntaxes, st.word.push(c)) is None);
            assert(next matches Some(n) && n.out + n.word == st.out + st.word + seq![c] && !n.matched) by {
                assert(st.word.push(c) =~= st.word + seq![c]);
                assert(st.out + (st.word + seq![c]) =~= st.out + st.word + seq![c]);
            }
        }
        let n = next->0;
        lemma_unmatched_line(syntaxes, n, line, k + 1);
        assert(st.out + st.word + seq![c] + line.skip(k + 1) =~= st.out + st.word + line.skip(k));
    } else {
        assert(line.skip(k) =~= Seq::<char>::empty());
        assert(st.out + st.word + Seq::<char>::empty() =~= st.out + st.word);
    }
}

/// A line of a file in which no rule matches anything is shown as it is, followed by a reset.
pub proof fn unmatched_line_is_shown_as_is(syntaxes: Seq<SyntaxView>, line: Seq<char>)
    requires
        forall|w: Seq<char>| #[trigger] first_match(syntaxes, w) is None,
    ensures
        color_line(syntaxes, line) == Some(line + reset()),
{
    lemma_unmatched_line(syntaxes, line_start(), line, 0);
    assert(line_start().out + line_start().word + line.skip(0) =~= line);
}

} // verus!

verus! {

proof fn lemma_underline_body(b: Seq<char>)
    requires
        b.len() >= 3,
        b[0] == '3',
        b[1] == '8',
        b[2] == ';',
    ensures
        (esc_start(false) + b).take(5) == seq!['\x1b', '[', '3', '8', ';'],
        esc_start(true) + b == seq!['\x1b', '[', '4', ';'] + (esc_start(false) + b).skip(2),
{
    assert((esc_start(false) + b).take(5) =~= seq!['\x1b', '[', '3', '8', ';']);
    assert((esc_start(false) + b).skip(2) =~= b);
}

proof fn lemma_true_color_underline(r: Seq<char>, g: Seq<char>, b: Seq<char>)
    ensures
        true_color(false, r, g, b).take(5) == seq!['\x1b', '[', '3', '8', ';'],
        true_color(true, r, g, b) == seq!['\x1b', '[', '4', ';'] + true_color(false, r, g, b).skip(2),
{
    let body = seq!['3', '8', ';', '2', ';'] + r + seq![';'] + g + seq![';'] + b + seq!['m'];
    lemma_underline_body(body);
    assert(true_color(false, r, g, b) =~= esc_start(false) + body);
    assert(true_color(true, r, g, b) =~= esc_start(true) + body);
}

/// Underlining a color other than a predefined name (or none) only inserts the rendition
/// parameter `4;` after `ESC [`; a color that is refused is refused the same way either way.
pub proof fn underline_inserts_parameter(c: Seq<char>)
    requires
        c.len() > 0,
        !spec_is_predefined_color(c),
    ensures
        match (color_escape(c, false), color_escape(c, true)) {
            (Ok(n), Ok(u)) => n.take(5) == seq!['\x1b', '[', '3', '8', ';'] && u == seq![
                '\x1b',
                '[',
                '4',
                ';',
            ] + n.skip(2),
            (Err(a), Err(b)) => a == b,
            _ => false,
        },
{
    if spec_is_8bit_color(c) {
        let body = seq!['3', '8', ';', '5', ';'] + c + seq!['m'];
        lemma_underline_body(body);
        assert(spec_to_8bit_color(c, false) =~= esc_start(false) + body);
        assert(spec_to_8bit_color(c, true) =~= esc_start(true) + body);
    } else if spec_is_24bit_color(c) {
        if let Some(rgb) = hex_triplet(c) {
            lemma_true_color_underline(decimal(rgb.0 as nat), decimal(rgb.1 as nat), decimal(rgb.2 as nat));
        }
    } else if spec_is_24bit_color_hash(c) {
        if let Some(rgb) = hex_triplet(c.skip(1)) {
            lemma_true_color_underline(decimal(rgb.0 as nat), decimal(rgb.1 as nat), decimal(rgb.2 as nat));
        }
    } else if spec_is_rgb_color(c) {
        let w = rgb_words(c);
        lemma_true_color_underline(w[0], w[1], w[2]);
    }
}

} // verus!

verus! {

/// The visible text of `s`: every escape sequence, from `ESC` to the `m` that ends it, taken
/// out. `inside` says whether `s` starts inside such a sequence.
pub open spec fn strip_escapes(s: Seq<char>, inside: bool) -> Seq<char>
    decreases s.len(),
{
    if s.len() == 0 {
        Seq::empty()
    } else if inside {
        strip_escapes(s.drop_first(), s[0] != 'm')
    } else if s[0] == '\x1b' {
        strip_escapes(s.drop_first(), true)
    } else {
        seq![s[0]] + strip_escapes(s.drop_first(), false)
    }
}

/// Whether an escape sequence is still open after `s`.
pub open spec fn escape_open(s: Seq<char>, inside: bool) -> bool
    decreases s.len(),
{
    if s.len() == 0 {
        inside
    } else if inside {
        escape_open(s.drop_first(), s[0] != 'm')
    } else if s[0] == '\x1b' {
        escape_open(s.drop_first(), true)
    } else {
        escape_open(s.drop_first(), false)
    }
}

/// Whether `s` is made of whole escape sequences only: nothing of it is visible.
pub open spec fn is_escapes_only(s: Seq<char>) -> bool {
    strip_escapes(s, false) == Seq::<char>::empty() && !escape_open(s, false)
}

/// Whether `w` ends with `m`.
pub open spec fn ends_with(w: Seq<char>, m: Seq<char>) -> bool {
    m.len() <= w.len() && w.skip(w.len() - m.len()) == m
}

proof fn lemma_strip_concat(a: Seq<char>, b: Seq<char>, inside: bool)
    ensures
        strip_escapes(a + b, inside) == strip_escapes(a, inside) + strip_escapes(b, escape_open(a, inside)),
        escape_open(a + b, inside) == escape_open(b, escape_open(a, inside)),
    decreases a.len(),
{
    if a.len() == 0 {
        assert(a + b =~= b);
        assert(Seq::<char>::empty() + strip_escapes(b, inside) =~= strip_escapes(b, inside));
    } else {
        assert((a + b)[0] == a[0]);
        assert((a + b).drop_first() =~= a.drop_first() + b);
        let next = if inside { a[0] != 'm' } else { a[0] == '\x1b' };
        lemma_strip_concat(a.drop_first(), b, next);
        if !inside && a[0] != '\x1b' {
            assert(seq![a[0]] + (strip_escapes(a.drop_first(), false) + strip_escapes(b, escape_open(a, false)))
                =~= (seq![a[0]] + strip_escapes(a.drop_first(), false)) + strip_escapes(b, escape_open(a, false)));
        }
    }
}

proof fn lemma_plain_visible(t: Seq<char>)
    requires
        forall|k: int| 0 <= k < t.len() ==> t[k] != '\x1b',
    ensures
        strip_escapes(t, false) == t,
        !escape_open(t, false),
    decreases t.len(),
{
    if t.len() > 0 {
        lemma_plain_visible(t.drop_first());
        assert(seq![t[0]] + t.drop_first() =~= t);
    }
}

/// The reset sequence is an escape sequence only.
proof fn lemma_reset_escapes_only()
    ensures
        is_escapes_only(reset()),
{
    let r = reset();
    let r1 = seq!['[', '0', 'm'];
    let r2 = seq!['0', 'm'];
    let r3 = seq!['m'];
    let r4 = Seq::<char>::empty();
    assert(r.drop_first() =~= r1);
    assert(r1.drop_first() =~= r2);
    assert(r2.drop_first() =~= r3);
    assert(r3.drop_first() =~= r4);
    assert(strip_escapes(r4, false) == r4 && !escape_open(r4, false));
    assert(strip_escapes(r3, true) == r4 && !escape_open(r3, true));
    assert(strip_escapes(r2, true) == r4 && !escape_open(r2, true));
    assert(strip_escapes(r1, true) == r4 && !escape_open(r1, true));
    assert(strip_escapes(r, false) == r4 && !escape_open(r, false));
}

proof fn lemma_encode_concat(a: Seq<char>, b: Seq<char>)
    ensures
        encode_utf8(a + b) == encode_utf8(a) + encode_utf8(b),
    decreases a.len(),
{
    if a.len() == 0 {
        assert(a + b =~= b);
        assert(Seq::<u8>::empty() + encode_utf8(b) =~= encode_utf8(b));
    } else {
        assert((a + b)[0] == a[0]);
        assert((a + b).drop_first() =~= a.drop_first() + b);
        lemma_encode_concat(a.drop_first(), b);
        assert(encode_utf8(a + b) =~= encode_utf8(a) + encode_utf8(b));
    }
}

proof fn lemma_encode_nonempty(a: Seq<char>)
    requires
        a.len() > 0,
    ensures
        encode_utf8(seq![a[0]]).len() >= 1,
        encode_utf8(a) == encode_utf8(seq![a[0]]) + encode_utf8(a.drop_first()),
{
    vstd::utf8::encode_utf8_first_scalar(seq![a[0]]);
    assert(seq![a[0]] + a.drop_first() =~= a);
    lemma_encode_concat(seq![a[0]], a.drop_first());
}

proof fn lemma_prefix_with_own_bytes(a: Seq<char>, b: Seq<char>)
    ensures
        prefix_with_bytes(a + b, encode_utf8(a).len() as int) == Some(a),
    decreases a.len(),
{
    if a.len() == 0 {
        assert(a =~= Seq::<char>::empty());
    } else {
        lemma_encode_nonempty(a);
        assert((a + b)[0] == a[0]);
        assert((a + b).drop_first() =~= a.drop_first() + b);
        lemma_prefix_with_own_bytes(a.drop_first(), b);
        assert(seq![a[0]] + a.drop_first() =~= a);
    }
}

/// What highlighting a line keeps true while it reads the first `k` characters: the visible
/// text so far, with the word not yet shown, is the line so far, and the word is its tail.
pub open spec fn shown_so_far(st: HighlightState, line: Seq<char>, k: int) -> bool {
    &&& !escape_open(st.out, false)
    &&& strip_escapes(st.out, false) + (if st.matched { Seq::<char>::empty() } else { st.word }) == line.take(k)
    &&& ends_with(line.take(k), st.word)
}

/// The conditions under which highlighting only adds colors to a line: the line holds no
/// escape character, every rule's color is made of whole escape sequences, every match is
/// found at the end of the text searched (as when it takes in the last character typed), and
/// the line's encoding fits in memory.
pub open spec fn highlight_conditions(syntaxes: Seq<SyntaxView>, line: Seq<char>) -> bool {
    &&& forall|k: int| 0 <= k < line.len() ==> line[k] != '\x1b'
    &&& forall|i: int| 0 <= i < syntaxes.len() ==> is_escapes_only(#[trigger] syntaxes[i].color)
    &&& forall|w: Seq<char>|
        #[trigger] first_match(syntaxes, w) matches Some((i, m)) ==> ends_with(w, m)
    &&& encode_utf8(line).len() <= usize::MAX
}

proof fn lemma_tail_bytes(line: Seq<char>, k: int, w: Seq<char>)
    requires
        0 <= k <= line.len(),
        ends_with(line.take(k), w),
    ensures
        encode_utf8(w).len() <= encode_utf8(line).len(),
{
    let pre = line.take(k).take(k - w.len());
    assert(line.take(k) =~= pre + w);
    assert(line =~= line.take(k) + line.skip(k));
    lemma_encode_concat(line.take(k), line.skip(k));
    lemma_encode_concat(pre, w);
}

proof fn lemma_file_step_shown(syntaxes: Seq<SyntaxView>, line: Seq<char>, st: HighlightState, k: int)
    requires
        0 <= k < line.len(),
        highlight_conditions(syntaxes, line),
        shown_so_far(st, line, k),
    ensures
        file_step(syntaxes, st, line[k]) matches Some(n) && shown_so_far(n, line, k + 1),
{
    let c = line[k];
    let taken = line.take(k + 1);
    assert(taken =~= line.take(k).push(c));
    let vis = strip_escapes(st.out, false);
    lemma_reset_escapes_only();
    lemma_plain_visible(seq![c]);
    if c == ' ' && !st.comment {
        lemma_plain_visible(st.word);
        let piece = if st.word.len() > 0 {
            if st.matched { reset() } else { st.word }
        } else {
            Seq::empty()
        };
        lemma_plain_visible(Seq::<char>::empty());
        lemma_strip_concat(st.out, piece, false);
        lemma_strip_concat(st.out + piece, seq![' '], false);
        let n = file_step(syntaxes, st, c)->0;
        assert(n.word =~= Seq::<char>::empty());
        assert(ends_with(taken, n.word)) by {
            assert(taken.skip(taken.len() as int) =~= Seq::<char>::empty());
        }
        if st.word.len() > 0 {
            assert(strip_escapes(n.out, false) + Seq::<char>::empty() =~= taken);
        } else {
            assert(st.word =~= Seq::<char>::empty());
            if st.matched {
                assert(strip_escapes(n.out, false) + Seq::<char>::empty() =~= taken);
            } else {
                assert(strip_escapes(n.out, false) + n.word =~= taken);
            }
        }
    } else {
        let word = st.word.push(c);
        assert(ends_with(taken, word)) by {
            assert(taken.skip(taken.len() - word.len()) =~= line.take(k).skip(k - st.word.len()).push(c));
        }
        match first_match(syntaxes, word) {
            Some((i, m)) => {
                lemma_first_match_index(syntaxes, word);
                if st.matched {
                    if st.match_len == byte_len(m) {
                        lemma_strip_concat(st.out, reset(), false);
                        lemma_strip_concat(st.out + reset(), Seq::<char>::empty(), false);
                        let n = file_step(syntaxes, st, c)->0;
                        assert(st.out + reset() =~= n.out);
                        assert(vis + seq![c] =~= taken);
                        assert(ends_with(taken, seq![c])) by {
                            assert(taken.skip(taken.len() - 1) =~= seq![c]);
                        }
                    } else {
                        lemma_strip_concat(st.out, seq![c], false);
                        let n = file_step(syntaxes, st, c)->0;
                        assert(st.out.push(c) =~= st.out + seq![c]);
                        assert(vis + seq![c] + Seq::<char>::empty() =~= taken);
                    }
                } else {
                    let pre = word.take(word.len() - m.len());
                    assert(word =~= pre + m);
                    lemma_tail_bytes(line, k + 1, word);
                    lemma_encode_concat(pre, m);
                    lemma_prefix_with_own_bytes(pre, m);
                    assert(byte_len(word) as int == encode_utf8(word).len());
                    assert(byte_len(m) as int == encode_utf8(m).len());
                    assert(byte_len(word) - byte_len(m) == encode_utf8(pre).len());
                    let col = syntaxes[i].color;
                    assert(is_escapes_only(col));
                    assert(forall|j: int| 0 <= j < word.len() ==> word[j] != '\x1b') by {
                        assert forall|j: int| 0 <= j < word.len() implies word[j] != '\x1b' by {
                            assert(word[j] == taken[taken.len() - word.len() + j]);
                        }
                    }
                    assert(forall|j: int| 0 <= j < pre.len() ==> pre[j] != '\x1b') by {
                        assert forall|j: int| 0 <= j < pre.len() implies pre[j] != '\x1b' by {
                            assert(pre[j] == word[j]);
                        }
                    }
                    assert(forall|j: int| 0 <= j < m.len() ==> m[j] != '\x1b') by {
                        assert forall|j: int| 0 <= j < m.len() implies m[j] != '\x1b' by {
                            assert(m[j] == word[pre.len() + j]);
                        }
                    }
                    lemma_plain_visible(pre);
                    lemma_plain_visible(m);
                    lemma_strip_concat(st.out, pre, false);
                    lemma_strip_concat(st.out + pre, col, false);
                    lemma_strip_concat(st.out + pre + col, m, false);
                    let n = file_step(syntaxes, st, c)->0;
                    assert(n.out == st.out + pre + col + m);
                    assert(strip_escapes(n.out, false) =~= vis + pre + m);
                    assert(strip_escapes(n.out, false) + Seq::<char>::empty() =~= taken);
                    assert(ends_with(taken, m)) by {
                        assert(taken.skip(taken.len() - m.len()) =~= word.skip(word.len() - m.len()));
                    }
                }
            },
            None => {
                if st.matched {
                    lemma_strip_concat(st.out, reset(), false);
                    lemma_strip_concat(st.out + reset(), seq![c], false);
                    let n = file_step(syntaxes, st, c)->0;
                    assert(strip_escapes(n.out, false) =~= vis + seq![c]);
                    assert(strip_escapes(n.out, false) + Seq::<char>::empty() =~= taken);
                    assert(ends_with(taken, n.word)) by {
                        assert(taken.skip(taken.len() as int) =~= Seq::<char>::empty());
                    }
                } else {
                    assert(vis + word =~= taken);
                }
            },
        }
    }
}

proof fn lemma_file_run_shown(syntaxes: Seq<SyntaxView>, line: Seq<char>, st: HighlightState, k: int)
    requires
        0 <= k <= line.len(),
        highlight_conditions(syntaxes, line),
        shown_so_far(st, line, k),
    ensures
        file_run(syntaxes, st, line, k) matches Some(end) && shown_so_far(end, line, line.len() as int),
    decreases line.len() - k,
{
    if k < line.len() {
        lemma_file_step_shown(syntaxes, line, st, k);
        lemma_file_run_shown(syntaxes, line, file_step(syntaxes, st, line[k])->0, k + 1);
    }
}

/// Highlighting only adds colors to a line of a file: under `highlight_conditions`, the line
/// is always highlighted, and with its escape sequences taken out the result is the line,
/// each character shown once and in order.
pub proof fn file_lines_are_shown_once(syntaxes: Seq<SyntaxView>, line: Seq<char>)
    requires
        highlight_conditions(syntaxes, line),
    ensures
        color_line(syntaxes, line) matches Some(out) && strip_escapes(out, false) == line
            && !escape_open(out, false),
{
    let st = line_start();
    lemma_strip_concat(Seq::<char>::empty(), Seq::<char>::empty(), false);
    assert(strip_escapes(st.out, false) + st.word =~= line.take(0));
    assert(ends_with(line.take(0), st.word)) by {
        assert(line.take(0).skip(0) =~= Seq::<char>::empty());
    }
    lemma_file_run_shown(syntaxes, line, st, 0);
    let end = file_run(syntaxes, st, line, 0)->0;
    assert(line.take(line.len() as int) =~= line);
    let tail = if end.matched { Seq::<char>::empty() } else { end.word };
    assert(forall|j: int| 0 <= j < tail.len() ==> tail[j] != '\x1b') by {
        assert forall|j: int| 0 <= j < tail.len() implies tail[j] != '\x1b' by {
            assert(tail[j] == line[line.len() - tail.len() + j]);
        }
    }
    lemma_plain_visible(tail);
    lemma_reset_escapes_only();
    lemma_strip_concat(end.out, tail, false);
    lemma_strip_concat(end.out + tail, reset(), false);
    assert(strip_escapes(end.out + tail + reset(), false) =~= line);
}

/// The lines `lines[k..]`, each followed by a line feed.
pub open spec fn lines_with_feeds(lines: Seq<Seq<char>>, k: int) -> Seq<char>
    decreases lines.len() - k,
{
    if k < 0 || k >= lines.len() {
        Seq::empty()
    } else {
        lines[k] + seq!['\n'] + lines_with_feeds(lines, k + 1)
    }
}

proof fn lemma_lines_shown_once(syntaxes: Seq<SyntaxView>, lines: Seq<Seq<char>>, k: int)
    requires
        0 <= k <= lines.len(),
        forall|j: int| 0 <= j < lines.len() ==> highlight_conditions(syntaxes, #[trigger] lines[j]),
    ensures
        color_lines(syntaxes, lines, k) matches Some(out) && strip_escapes(out, false)
            == lines_with_feeds(lines, k) && !escape_open(out, false),
    decreases lines.len() - k,
{
    if k < lines.len() {
        file_lines_are_shown_once(syntaxes, lines[k]);
        lemma_lines_shown_once(syntaxes, lines, k + 1);
        let l = color_line(syntaxes, lines[k])->0;
        let rest = color_lines(syntaxes, lines, k + 1)->0;
        lemma_plain_visible(seq!['\n']);
        lemma_strip_concat(l, seq!['\n'], false);
        lemma_strip_concat(l + seq!['\n'], rest, false);
    } else {
        lemma_strip_concat(Seq::<char>::empty(), Seq::<char>::empty(), false);
    }
}

/// Highlighting only adds colors to a file: when every line meets `highlight_conditions`,
/// the file is highlighted, and with the escape sequences taken out it shows each of its
/// lines once, in order, each followed by a line feed.
pub proof fn files_are_shown_once(syntaxes: Seq<SyntaxView>, text: Seq<char>)
    requires
        forall|j: int| 0 <= j < lines_of(text).len() ==> highlight_conditions(syntaxes, #[trigger] lines_of(text)[j]),
    ensures
        color_lines(syntaxes, lines_of(text), 0) matches Some(out) && strip_escapes(out, false)
            == lines_with_feeds(lines_of(text), 0),
{
    lemma_lines_shown_once(syntaxes, lines_of(text), 0);
}

} // verus!

verus! {

/// While a rule that ignores white space is being matched (`comment`), a space received is
/// taken into the colored word like any other character: when the longer word still
/// matches (with another match), the space is shown in the color and nothing is reset;
/// when nothing is colored and nothing matches, the space joins the word being read.
pub proof fn spaces_stay_in_whitespace_matches(syntaxes: Seq<SyntaxView>, st: HighlightState)
    requires
        st.comment,
    ensures
        st.matched && (first_match(syntaxes, st.word.push(' ')) matches Some((i, m)) && byte_len(m)
            != st.match_len) ==> words_step(syntaxes, st, ' ') == Some(
            HighlightState {
                word: st.word.push(' '),
                match_len: byte_len((first_match(syntaxes, st.word.push(' '))->0).1),
                out: st.out.push(' '),
                ..st
            },
        ),
        !st.matched && first_match(syntaxes, st.word.push(' ')) is None ==> words_step(syntaxes, st, ' ')
            == Some(HighlightState { word: st.word.push(' '), out: st.out.push(' '), ..st }),
        st.matched && (first_match(syntaxes, st.word.push(' ')) matches Some((i, m)) && byte_len(m)
            != st.match_len) ==> file_step(syntaxes, st, ' ') == Some(
            HighlightState {
                word: st.word.push(' '),
                match_len: byte_len((first_match(syntaxes, st.word.push(' '))->0).1),
                out: st.out.push(' '),
                ..st
            },
        ),
        !st.matched && first_match(syntaxes, st.word.push(' ')) is None ==> file_step(syntaxes, st, ' ')
            == Some(HighlightState { word: st.word.push(' '), ..st }),
{
}

/// The names of the predefined colors, in the order of their ANSI codes 30 to 37.
pub open spec fn basic_color_names() -> Seq<Seq<char>> {
    seq![
        seq!['B', 'L', 'A', 'C', 'K'],
        seq!['R', 'E', 'D'],
        seq!['G', 'R', 'E', 'E', 'N'],
        seq!['Y', 'E', 'L', 'L', 'O', 'W'],
        seq!['B', 'L', 'U', 'E'],
        seq!['M', 'A', 'G', 'E', 'N', 'T', 'A'],
        seq!['C', 'Y', 'A', 'N'],
        seq!['W', 'H', 'I', 'T', 'E'],
    ]
}

/// Each predefined color name gives its standard ANSI foreground color, `ESC [ 3k m` for the
/// `k`-th of BLACK, RED, GREEN, YELLOW, BLUE, MAGENTA, CYAN, WHITE, after `ESC [ 4 m` when
/// underlined; `RESET` gives `ESC [ 0 m`.
pub proof fn predefined_colors_are_ansi(k: int, underlined: bool)
    requires
        0 <= k < 8,
    ensures
        color_escape(basic_color_names()[k], underlined) == Ok::<Seq<char>, Seq<char>>(
            (if underlined { seq!['\x1b', '[', '4', 'm'] } else { Seq::<char>::empty() }) + seq![
                '\x1b',
                '[',
                '3',
                (k + 48) as char,
                'm',
            ],
        ),
        color_escape(seq!['R', 'E', 'S', 'E', 'T'], underlined) == Ok::<Seq<char>, Seq<char>>(
            (if underlined { seq!['\x1b', '[', '4', 'm'] } else { Seq::<char>::empty() }) + seq![
                '\x1b',
                '[',
                '0',
                'm',
            ],
        ),
{
    let name = basic_color_names()[k];
    let code = (30 + k) as nat;
    assert(decimal(3) == seq!['3']);
    assert(decimal(code) == seq!['3', (k + 48) as char]) by {
        assert(code / 10 == 3);
        assert(code % 10 == k);
        assert(decimal(3).push(((code % 10) + '0' as nat) as char) =~= seq!['3', (k + 48) as char]);
    }
    assert(decimal(0) == seq!['0']);
    if k == 0 {
        assert(name =~= seq!['B', 'L', 'A', 'C', 'K']);
    } else if k == 1 {
        assert(name =~= seq!['R', 'E', 'D']);
        assert(name != seq!['R', 'E', 'S', 'E', 'T']);
        assert(name != seq!['B', 'L', 'A', 'C', 'K']);
    } else if k == 2 {
        assert(name =~= seq!['G', 'R', 'E', 'E', 'N']);
        assert(name != seq!['R', 'E', 'S', 'E', 'T']);
        assert(name != seq!['B', 'L', 'A', 'C', 'K']);
        assert(name != seq!['R', 'E', 'D']);
    } else if k == 3 {
        assert(name =~= seq!['Y', 'E', 'L', 'L', 'O', 'W']);
        assert(name != seq!['R', 'E', 'S', 'E', 'T']);
        assert(name != seq!['B', 'L', 'A', 'C', 'K']);
        assert(name != seq!['R', 'E', 'D']);
        assert(name != seq!['G', 'R', 'E', 'E', 'N']);
    } else if k == 4 {
        assert(name =~= seq!['B', 'L', 'U', 'E']);
        assert(name != seq!['R', 'E', 'S', 'E', 'T']);
        assert(name != seq!['B', 'L', 'A', 'C', 'K']);
        assert(name != seq!['R', 'E', 'D']);
        assert(name != seq!['G', 'R', 'E', 'E', 'N']);
        assert(name != seq!['Y', 'E', 'L', 'L', 'O', 'W']);
    } else if k == 5 {
        assert(name =~= seq!['M', 'A', 'G', 'E', 'N', 'T', 'A']);
        assert(name != seq!['R', 'E', 'S', 'E', 'T']);
        assert(name != seq!['B', 'L', 'A', 'C', 'K']);
        assert(name != seq!['R', 'E', 'D']);
        assert(name != seq!['G', 'R', 'E', 'E', 'N']);
        assert(name != seq!['Y', 'E', 'L', 'L', 'O', 'W']);
        assert(name != seq!['B', 'L', 'U', 'E']);
    } else if k == 6 {
        assert(name =~= seq!['C', 'Y', 'A', 'N']);
        assert(name != seq!['R', 'E', 'S', 'E', 'T']);
        assert(name != seq!['B', 'L', 'A', 'C', 'K']);
        assert(name != seq!['R', 'E', 'D']);
        assert(name != seq!['G', 'R', 'E', 'E', 'N']);
        assert(name != seq!['Y', 'E', 'L', 'L', 'O', 'W']);
        assert(name != seq!['B', 'L', 'U', 'E']);
        assert(name != seq!['M', 'A', 'G', 'E', 'N', 'T', 'A']);
    } else {
        assert(name =~= seq!['W', 'H', 'I', 'T', 'E']);
        assert(name != seq!['R', 'E', 'S', 'E', 'T']);
        assert(name != seq!['B', 'L', 'A', 'C', 'K']);
        assert(name != seq!['R', 'E', 'D']);
        assert(name != seq!['G', 'R', 'E', 'E', 'N']);
        assert(name != seq!['Y', 'E', 'L', 'L', 'O', 'W']);
        assert(name != seq!['B', 'L', 'U', 'E']);
        assert(name != seq!['M', 'A', 'G', 'E', 'N', 'T', 'A']);
        assert(name != seq!['C', 'Y', 'A', 'N']);
    }
    assert(predefined_code(name) == Some(code));
    assert(sgr(code) =~= seq!['\x1b', '[', '3', (k + 48) as char, 'm']);
    assert(sgr(0) =~= seq!['\x1b', '[', '0', 'm']);
    assert(Seq::<char>::empty() + sgr(code) =~= sgr(code));
    assert(Seq::<char>::empty() + sgr(0) =~= sgr(0));
}

} // verus!

verus! {

proof fn lemma_feeds_push(acc: Seq<Seq<char>>, x: Seq<char>, k: int)
    requires
        0 <= k <= acc.len(),
    ensures
        lines_with_feeds(acc.push(x), k) == lines_with_feeds(acc, k) + x + seq!['\n'],
    decreases acc.len() - k,
{
    if k < acc.len() {
        lemma_feeds_push(acc, x, k + 1);
        assert(acc.push(x)[k] == acc[k]);
        assert(acc[k] + seq!['\n'] + (lines_with_feeds(acc, k + 1) + x + seq!['\n']) =~= acc[k] + seq!['\n']
            + lines_with_feeds(acc, k + 1) + x + seq!['\n']);
    } else {
        assert(acc.push(x)[k] == x);
        assert(lines_with_feeds(acc.push(x), k + 1) == Seq::<char>::empty());
        assert(x + seq!['\n'] + Seq::<char>::empty() =~= Seq::<char>::empty() + x + seq!['\n']);
    }
}

/// `s` with a line feed added unless it is empty or ends with one.
pub open spec fn with_final_feed(s: Seq<char>) -> Seq<char> {
    if s.len() == 0 || s.last() == '\n' {
        s
    } else {
        s.push('\n')
    }
}

/// `s` without the carriage returns that stand just before a line feed.
pub open spec fn drop_line_end_cr(s: Seq<char>) -> Seq<char>
    decreases s.len(),
{
    if s.len() == 0 {
        Seq::empty()
    } else if s[0] == '\r' && s.len() > 1 && s[1] == '\n' {
        drop_line_end_cr(s.drop_first())
    } else {
        seq![s[0]] + drop_line_end_cr(s.drop_first())
    }
}

proof fn lemma_drop_cr_no_lf(x: Seq<char>)
    requires
        forall|j: int| 0 <= j < x.len() ==> x[j] != '\n',
    ensures
        drop_line_end_cr(x) == x,
    decreases x.len(),
{
    if x.len() > 0 {
        lemma_drop_cr_no_lf(x.drop_first());
        assert(seq![x[0]] + x.drop_first() =~= x);
    }
}

proof fn lemma_drop_cr_concat(x: Seq<char>, y: Seq<char>)
    requires
        !(x.len() > 0 && x.last() == '\r' && y.len() > 0 && y[0] == '\n'),
    ensures
        drop_line_end_cr(x + y) == drop_line_end_cr(x) + drop_line_end_cr(y),
    decreases x.len(),
{
    if x.len() == 0 {
        assert(x + y =~= y);
        assert(Seq::<char>::empty() + drop_line_end_cr(y) =~= drop_line_end_cr(y));
    } else {
        assert((x + y)[0] == x[0]);
        assert((x + y).drop_first() =~= x.drop_first() + y);
        lemma_drop_cr_concat(x.drop_first(), y);
        if x.len() > 1 {
            assert((x + y)[1] == x[1]);
        } else {
            assert(x.drop_first() =~= Seq::<char>::empty());
        }
        assert(seq![x[0]] + (drop_line_end_cr(x.drop_first()) + drop_line_end_cr(y)) =~= (seq![x[0]]
            + drop_line_end_cr(x.drop_first())) + drop_line_end_cr(y));
    }
}

proof fn lemma_drop_cr_line_end(cur: Seq<char>, rest: Seq<char>)
    requires
        forall|j: int| 0 <= j < cur.len() ==> cur[j] != '\n',
    ensures
        drop_line_end_cr(cur + seq!['\n'] + rest) == strip_cr(cur) + seq!['\n'] + drop_line_end_cr(rest),
{
    let nl = seq!['\n'] + rest;
    assert(cur + seq!['\n'] + rest =~= cur + nl);
    assert(nl[0] == '\n');
    assert(nl.drop_first() =~= rest);
    assert(drop_line_end_cr(nl) =~= seq!['\n'] + drop_line_end_cr(rest));
    if cur.len() > 0 && cur.last() == '\r' {
        let c0 = cur.drop_last();
        let crnl = seq!['\r'] + nl;
        assert(cur + nl =~= c0 + crnl);
        assert(crnl[0] == '\r' && crnl[1] == '\n');
        assert(crnl.drop_first() =~= nl);
        lemma_drop_cr_concat(c0, crnl);
        lemma_drop_cr_no_lf(c0);
        assert(strip_cr(cur) == c0);
        assert(c0 + (seq!['\n'] + drop_line_end_cr(rest)) =~= c0 + seq!['\n'] + drop_line_end_cr(rest));
    } else {
        lemma_drop_cr_concat(cur, nl);
        lemma_drop_cr_no_lf(cur);
        assert(strip_cr(cur) == cur);
        assert(cur + (seq!['\n'] + drop_line_end_cr(rest)) =~= cur + seq!['\n'] + drop_line_end_cr(rest));
    }
}

proof fn lemma_lines_from_rejoin(text: Seq<char>, i: int, cur: Seq<char>, acc: Seq<Seq<char>>)
    requires
        0 <= i <= text.len(),
        forall|j: int| 0 <= j < cur.len() ==> cur[j] != '\n',
    ensures
        lines_with_feeds(lines_from(text, i, cur, acc), 0) == lines_with_feeds(acc, 0) + with_final_feed(
            drop_line_end_cr(cur + text.skip(i)),
        ),
    decreases text.len() - i,
{
    if i == text.len() {
        assert(text.skip(i) =~= Seq::<char>::empty());
        assert(cur + text.skip(i) =~= cur);
        lemma_drop_cr_no_lf(cur);
        if cur.len() > 0 {
            lemma_feeds_push(acc, cur, 0);
            assert(cur.last() != '\n');
        } else {
            assert(lines_with_feeds(acc, 0) + with_final_feed(cur) =~= lines_with_feeds(acc, 0));
        }
    } else if text[i] == '\n' {
        lemma_lines_from_rejoin(text, i + 1, Seq::empty(), acc.push(strip_cr(cur)));
        lemma_feeds_push(acc, strip_cr(cur), 0);
        let rest = text.skip(i + 1);
        assert(text.skip(i) =~= seq!['\n'] + rest);
        assert(Seq::<char>::empty() + rest =~= rest);
        assert(cur + text.skip(i) =~= cur + seq!['\n'] + rest);
        lemma_drop_cr_line_end(cur, rest);
        let dr = drop_line_end_cr(rest);
        let whole = strip_cr(cur) + seq!['\n'] + dr;
        if dr.len() == 0 {
            assert(whole.last() == '\n');
            assert(with_final_feed(dr) =~= Seq::<char>::empty());
            assert(lines_with_feeds(acc, 0) + strip_cr(cur) + seq!['\n'] + Seq::<char>::empty() =~= lines_with_feeds(acc, 0) + whole);
        } else {
            assert(whole.last() == dr.last());
            if dr.last() == '\n' {
                assert(lines_with_feeds(acc, 0) + strip_cr(cur) + seq!['\n'] + dr =~= lines_with_feeds(acc, 0) + whole);
            } else {
                assert(lines_with_feeds(acc, 0) + strip_cr(cur) + seq!['\n'] + dr.push('\n') =~= lines_with_feeds(acc, 0) + whole.push('\n'));
            }
        }
    } else {
        lemma_lines_from_rejoin(text, i + 1, cur.push(text[i]), acc);
        assert(cur.push(text[i]) + text.skip(i + 1) =~= cur + text.skip(i));
    }
}

/// No text of a file is lost to highlighting: the lines that it highlights, each followed by
/// a line feed, give back the text without the carriage returns that end lines, with a line
/// feed added at the end when the text does not end with one.
pub proof fn file_lines_rejoin(text: Seq<char>)
    ensures
        lines_with_feeds(lines_of(text), 0) == with_final_feed(drop_line_end_cr(text)),
{
    lemma_lines_from_rejoin(text, 0, Seq::empty(), Seq::empty());
    assert(text.skip(0) =~= text);
    assert(Seq::<char>::empty() + text =~= text);
    assert(lines_with_feeds(Seq::<Seq<char>>::empty(), 0) == Seq::<char>::empty());
    assert(Seq::<char>::empty() + with_final_feed(drop_line_end_cr(text)) =~= with_final_feed(drop_line_end_cr(text)));
}

/// A file is shown whole: under `highlight_conditions` for each of its lines, its
/// highlighted form, with the escape sequences taken out, is the text without the carriage
/// returns that end lines, with a line feed added at the end when it does not end with one.
pub proof fn files_are_shown_whole(syntaxes: Seq<SyntaxView>, text: Seq<char>)
    requires
        forall|j: int| 0 <= j < lines_of(text).len() ==> highlight_conditions(syntaxes, #[trigger] lines_of(text)[j]),
    ensures
        color_lines(syntaxes, lines_of(text), 0) matches Some(out) && strip_escapes(out, false)
            == with_final_feed(drop_line_end_cr(text)),
{
    files_are_shown_once(syntaxes, text);
    file_lines_rejoin(text);
}

} // verus!
