use vstd::prelude::*;

verus! {

/// The value of `c` as a digit in base `radix` (10 or 16), as `char::to_digit` gives it:
/// ASCII digits, and for base 16 the letters a-f and A-F.
pub open spec fn digit_value(c: char, radix: int) -> Option<int> {
    if '0' <= c && c <= '9' {
        Some(c as int - '0' as int)
    } else if radix == 16 && 'a' <= c && c <= 'f' {
        Some(c as int - 'a' as int + 10)
    } else if radix == 16 && 'A' <= c && c <= 'F' {
        Some(c as int - 'A' as int + 10)
    } else {
        None
    }
}

/// The value of a non-empty run of digits in base `radix`; `None` if some character is not
/// a digit or the run is empty.
pub open spec fn digits_value(s: Seq<char>, radix: int) -> Option<int>
    decreases s.len(),
{
    if s.len() == 0 {
        None
    } else {
        match digit_value(s.last(), radix) {
            None => None,
            Some(d) => if s.len() == 1 {
                Some(d)
            } else {
                match digits_value(s.drop_last(), radix) {
                    Some(v) => Some(v * radix + d),
                    None => None,
                }
            },
        }
    }
}

/// What `from_str_radix` of an unsigned integer type whose largest value is `max` gives:
/// an optional `+`, then at least one digit, with a value no larger than `max`.
pub open spec fn parse_unsigned(s: Seq<char>, radix: int, max: int) -> Option<int> {
    let digits = if s.len() > 0 && s[0] == '+' { s.skip(1) } else { s };
    match digits_value(digits, radix) {
        Some(v) => if v <= max { Some(v) } else { None },
        None => None,
    }
}

/// What `from_str_radix` of a signed integer type with the range `min..=max` gives: an
/// optional `+` or `-`, then at least one digit, with a value in range.
pub open spec fn parse_signed(s: Seq<char>, radix: int, min: int, max: int) -> Option<int> {
    if s.len() > 0 && s[0] == '-' {
        match digits_value(s.skip(1), radix) {
            Some(v) => if -v >= min { Some(-v) } else { None },
            None => None,
        }
    } else {
        parse_unsigned(s, radix, max)
    }
}

/// `str::parse::<u8>()`: decimal, optional `+`.
pub open spec fn parse_u8(s: Seq<char>) -> Option<u8> {
    match parse_unsigned(s, 10, 255) {
        Some(v) => Some(v as u8),
        None => None,
    }
}

fn digit_of(c: char, radix: u32) -> (r: Option<u32>)
    requires
        radix == 10 || radix == 16,
    ensures
        match digit_value(c, radix as int) {
            Some(d) => r == Some(d as u32) && d < radix,
            None => r is None,
        },
{
    if '0' <= c && c <= '9' {
        Some(c as u32 - '0' as u32)
    } else if radix == 16 && 'a' <= c && c <= 'f' {
        Some(c as u32 - 'a' as u32 + 10)
    } else if radix == 16 && 'A' <= c && c <= 'F' {
        Some(c as u32 - 'A' as u32 + 10)
    } else {
        None
    }
}

proof fn lemma_digits_value_nonneg(s: Seq<char>, radix: int)
    requires
        radix == 10 || radix == 16,
    ensures
        digits_value(s, radix) matches Some(v) ==> v >= 0,
    decreases s.len(),
{
    if s.len() > 1 {
        lemma_digits_value_nonneg(s.drop_last(), radix);
    }
}

/// The value of the digits `s[from..]` in base `radix`, capped at `cap`: `Some(min(v, cap))`
/// when they form a digit run of value `v`, `None` otherwise.
fn capped_digits(s: &Vec<char>, from: usize, radix: u32, cap: u64) -> (r: Option<u64>)
    requires
        radix == 10 || radix == 16,
        from <= s@.len(),
        0 < cap <= 0x1_0000_0000,
    ensures
        match digits_value(s@.skip(from as int), radix as int) {
            Some(v) => v >= 0 && r == Some((if v < cap { v } else { cap as int }) as u64),
            None => r is None,
        },
{
    proof {
        lemma_digits_value_nonneg(s@.skip(from as int), radix as int);
    }
    let n = s.len();
    if from == n {
        assert(s@.skip(from as int).len() == 0);
        return None;
    }
    let mut acc: u64 = 0;
    let mut k: usize = from;
    while k < n
        invariant
            n == s@.len(),
            radix == 10 || radix == 16,
            0 < cap <= 0x1_0000_0000,
            from < n,
            from <= k <= n,
            acc <= cap,
            k > from ==> (digits_value(s@.subrange(from as int, k as int), radix as int) matches Some(v)
                && acc == (if v < cap { v } else { cap as int })),
            k == from ==> acc == 0,
        decreases n - k,
    {
        let ghost pre = s@.subrange(from as int, k as int);
        let ghost next = s@.subrange(from as int, k + 1);
        assert(next.drop_last() =~= pre);
        assert(next.last() == s@[k as int]);
        match digit_of(s[k], radix) {
            None => {
                proof {
                    lemma_not_digits_extend(s@.skip(from as int), (k - from + 1) as int, radix as int);
                    assert(s@.skip(from as int).subrange(0, k - from + 1) =~= next);
                }
                return None;
            },
            Some(d) => {
                proof {
                    if k > from {
                        lemma_digits_value_nonneg(pre, radix as int);
                    }
                }
                let ghost a0 = acc;
                let t = acc * (radix as u64) + (d as u64);
                acc = if t < cap { t } else { cap };
                proof {
                    if k > from {
                        let v = digits_value(pre, radix as int)->0;
                        assert(digits_value(next, radix as int) == Some(v * radix + d));
                        if v >= cap {
                            assert(v * radix >= cap) by (nonlinear_arith) requires v >= cap, radix >= 10, cap > 0;
                            assert(a0 * radix >= cap) by (nonlinear_arith) requires a0 == cap, radix >= 10, cap > 0;
                        } else {
                            assert(a0 == v);
                        }
                    } else {
                        assert(next.len() == 1);
                    }
                }
                k = k + 1;
            },
        }
    }
    assert(s@.subrange(from as int, n as int) =~= s@.skip(from as int));
    Some(acc)
}

proof fn lemma_not_digits_extend(s: Seq<char>, k: int, radix: int)
    requires
        0 < k <= s.len(),
        digit_value(s[k - 1], radix) is None,
    ensures
        digits_value(s, radix) is None,
    decreases s.len(),
{
    if k < s.len() {
        let t = s.drop_last();
        assert(t[k - 1] == s[k - 1]);
        lemma_not_digits_extend(t, k, radix);
    }
}

/// `str::parse::<u8>()` on the characters `s`.
pub fn parse_u8_chars(s: &Vec<char>) -> (r: Option<u8>)
    ensures
        r == parse_u8(s@),
{
    let from: usize = if s.len() > 0 && s[0] == '+' { 1 } else { 0 };
    assert(from == 0 ==> s@.skip(0) =~= s@);
    match capped_digits(s, from, 10, 256) {
        Some(v) => if v <= 255 { Some(v as u8) } else { None },
        None => None,
    }
}

/// `i32::from_str_radix(s, 16).is_ok()` on the characters `s`.
pub fn is_hex_i32(s: &Vec<char>) -> (r: bool)
    ensures
        r == (parse_signed(s@, 16, -0x8000_0000, 0x7fff_ffff) is Some),
{
    if s.len() > 0 && s[0] == '-' {
        match capped_digits(s, 1, 16, 0x8000_0001) {
            Some(v) => v <= 0x8000_0000,
            None => false,
        }
    } else {
        let from: usize = if s.len() > 0 && s[0] == '+' { 1 } else { 0 };
        assert(from == 0 ==> s@.skip(0) =~= s@);
        match capped_digits(s, from, 16, 0x8000_0000) {
            Some(v) => v <= 0x7fff_ffff,
            None => false,
        }
    }
}

/// `u8::from_str_radix(s, 16)` on the characters `s`.
pub fn parse_hex_u8(s: &Vec<char>) -> (r: Option<u8>)
    ensures
        r == (match parse_unsigned(s@, 16, 255) {
            Some(v) => Some(v as u8),
            None => None::<u8>,
        }),
{
    let from: usize = if s.len() > 0 && s[0] == '+' { 1 } else { 0 };
    assert(from == 0 ==> s@.skip(0) =~= s@);
    match capped_digits(s, from, 16, 256) {
        Some(v) => if v <= 255 { Some(v as u8) } else { None },
        None => None,
    }
}

} // verus!

verus! {

/// The decimal digits of `n`, without leading zeros, as `{}` formats an integer.
pub open spec fn decimal(n: nat) -> Seq<char>
    decreases n,
{
    if n < 10 {
        seq![(n + '0' as nat) as char]
    } else {
        decimal(n / 10).push(((n % 10) + '0' as nat) as char)
    }
}

/// The decimal digits of `n`.
pub fn u8_decimal(n: u8) -> (r: Vec<char>)
    ensures
        r@ == decimal(n as nat),
{
    let mut r: Vec<char> = Vec::new();
    if n >= 100 {
        r.push(((n / 100) + 48u8) as char);
    }
    if n >= 10 {
        r.push((((n / 10) % 10) + 48u8) as char);
    }
    r.push(((n % 10) + 48u8) as char);
    proof {
        let m = n as nat;
        if m >= 100 {
            assert(decimal(m / 100) == seq![((m / 100) + '0' as nat) as char]);
            assert(decimal(m / 10) == decimal((m / 10) / 10).push((((m / 10) % 10) + '0' as nat) as char));
            assert((m / 10) / 10 == m / 100);
        } else if m >= 10 {
            assert(decimal(m / 10) == seq![((m / 10) + '0' as nat) as char]);
            assert((m / 10) % 10 == m / 10);
        }
        assert(r@ =~= decimal(m));
    }
    r
}

} // verus!

verus! {

/// `str::parse::<u32>()` on the characters `s`.
pub fn parse_u32_chars(s: &Vec<char>) -> (r: Option<u32>)
    ensures
        r == (match parse_unsigned(s@, 10, 0xffff_ffff) {
            Some(v) => Some(v as u32),
            None => None::<u32>,
        }),
{
    let from: usize = if s.len() > 0 && s[0] == '+' { 1 } else { 0 };
    assert(from == 0 ==> s@.skip(0) =~= s@);
    match capped_digits(s, from, 10, 0x1_0000_0000) {
        Some(v) => if v <= 0xffff_ffff { Some(v as u32) } else { None },
        None => None,
    }
}

} // verus!

verus! {

proof fn lemma_decimal_digits(n: nat)
    ensures
        digits_value(decimal(n), 10) == Some(n as int),
        decimal(n).len() > 0,
        decimal(n)[0] != '+',
    decreases n,
{
    if n >= 10 {
        lemma_decimal_digits(n / 10);
        let d = decimal(n);
        assert(d.drop_last() =~= decimal(n / 10));
        assert(d[0] == decimal(n / 10)[0]);
    }
}

/// The decimal form of a byte value reads back as that value (`parse::<u8>()` of `{}`).
pub proof fn decimal_reads_back(n: u8)
    ensures
        parse_u8(decimal(n as nat)) == Some(n),
{
    lemma_decimal_digits(n as nat);
}

} // verus!
