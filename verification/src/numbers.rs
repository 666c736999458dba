//! Decimal digit strings and the fixed-precision number decoder.
//!
//! Chart values are times and rates written as decimal numbers; they are
//! stored as integers scaled by a fixed power of ten (precision 3 turns
//! `"1.333"` into `1333` and `"83"` into `83000`).

use vstd::prelude::*;

use crate::text::{is_space_char, trim_bounds, trim_seq};

verus! {

pub open spec fn is_digit(c: char) -> bool {
    '0' <= c && c <= '9'
}

pub open spec fn digit_val(c: char) -> int {
    c as int - '0' as int
}

pub open spec fn all_digits(s: Seq<char>) -> bool {
    forall|i: int| 0 <= i < s.len() ==> is_digit(#[trigger] s[i])
}

/// The value of a digit string, most significant digit first.
pub open spec fn digits_val(s: Seq<char>) -> int
    decreases s.len(),
{
    if s.len() == 0 {
        0
    } else {
        10 * digits_val(s.drop_last()) + digit_val(s.last())
    }
}

pub proof fn lemma_digits_val_nonneg(s: Seq<char>)
    requires
        all_digits(s),
    ensures
        digits_val(s) >= 0,
    decreases s.len(),
{
    if s.len() > 0 {
        assert(all_digits(s.drop_last()));
        lemma_digits_val_nonneg(s.drop_last());
    }
}

pub proof fn lemma_digits_val_push(s: Seq<char>, c: char)
    ensures
        digits_val(s.push(c)) == 10 * digits_val(s) + digit_val(c),
{
    assert(s.push(c).drop_last() =~= s);
    assert(s.push(c).last() == c);
}

/// The digit part of a numeral: everything after an optional leading sign.
pub open spec fn digits_of(s: Seq<char>) -> Seq<char> {
    if s.len() > 0 && (s[0] == '-' || s[0] == '+') {
        s.drop_first()
    } else {
        s
    }
}

pub open spec fn sign_of(s: Seq<char>) -> int {
    if s.len() > 0 && s[0] == '-' {
        -1
    } else {
        1
    }
}

/// Whether `s` is a signed decimal numeral: an optional sign followed by at
/// least one digit, and nothing else.
pub open spec fn is_int_string(s: Seq<char>) -> bool {
    digits_of(s).len() > 0 && all_digits(digits_of(s))
}

/// The mathematical value of a signed decimal numeral.
pub open spec fn int_string_value(s: Seq<char>) -> int {
    sign_of(s) * digits_val(digits_of(s))
}

/// Whether `s` is an unsigned decimal numeral (a `-` sign is rejected).
pub open spec fn is_uint_string(s: Seq<char>) -> bool {
    is_int_string(s) && !(s[0] == '-')
}

/// What parsing `s` as an `i64` yields: its value when `s` is a signed
/// numeral whose value fits, nothing otherwise.
pub open spec fn i64_of_string(s: Seq<char>) -> Option<i64> {
    if is_int_string(s) && i64::MIN <= int_string_value(s) <= i64::MAX {
        Some(int_string_value(s) as i64)
    } else {
        None
    }
}

/// What parsing `s` as a `u32` yields.
pub open spec fn u32_of_string(s: Seq<char>) -> Option<u32> {
    if is_uint_string(s) && int_string_value(s) <= u32::MAX {
        Some(int_string_value(s) as u32)
    } else {
        None
    }
}

/// What parsing `s` as a `u16` yields.
pub open spec fn u16_of_string(s: Seq<char>) -> Option<u16> {
    if is_uint_string(s) && int_string_value(s) <= u16::MAX {
        Some(int_string_value(s) as u16)
    } else {
        None
    }
}

/// What parsing `s` as a `u8` yields.
pub open spec fn u8_of_string(s: Seq<char>) -> Option<u8> {
    if is_uint_string(s) && int_string_value(s) <= u8::MAX {
        Some(int_string_value(s) as u8)
    } else {
        None
    }
}

/// What parsing `s` as an `i32` yields.
pub open spec fn i32_of_string(s: Seq<char>) -> Option<i32> {
    if is_int_string(s) && i32::MIN <= int_string_value(s) <= i32::MAX {
        Some(int_string_value(s) as i32)
    } else {
        None
    }
}

/// The value of the digit run `v[from..to]`, when it is one and fits in a
/// `u64`.
fn parse_digits_range(v: &[char], from: usize, to: usize) -> (r: Option<u64>)
    requires
        from <= to <= v@.len(),
    ensures
        ({
            let s = v@.subrange(from as int, to as int);
            r == if s.len() > 0 && all_digits(s) && digits_val(s) <= u64::MAX {
                Some(digits_val(s) as u64)
            } else {
                None::<u64>
            }
        }),
{
    let ghost s = v@.subrange(from as int, to as int);
    if from == to {
        return None;
    }
    let mut mag: u64 = 0;
    let mut over = false;
    let mut i: usize = from;
    while i < to
        invariant
            from <= i <= to <= v@.len(),
            s == v@.subrange(from as int, to as int),
            all_digits(v@.subrange(from as int, i as int)),
            !over ==> mag == digits_val(v@.subrange(from as int, i as int)),
            over ==> digits_val(v@.subrange(from as int, i as int)) > u64::MAX,
        decreases to - i,
    {
        let c = v[i];
        if !('0' <= c && c <= '9') {
            proof {
                assert(s[i - from] == c);
                assert(!is_digit(s[i - from]));
            }
            return None;
        }
        let d: u8 = (c as u8) - 48;
        proof {
            let pre = v@.subrange(from as int, i as int);
            assert(pre.push(c) =~= v@.subrange(from as int, i + 1));
            lemma_digits_val_push(pre, c);
            lemma_digits_val_nonneg(pre);
        }
        if !over {
            let m2: u128 = (mag as u128) * 10 + (d as u128);
            if m2 > u64::MAX as u128 {
                over = true;
            } else {
                mag = m2 as u64;
            }
        }
        i = i + 1;
    }
    proof {
        assert(v@.subrange(from as int, to as int) == s);
    }
    if over {
        None
    } else {
        Some(mag)
    }
}

/// Parses `v[from..to]` as an `i64` numeral, exactly as [`i64_of_string`]
/// describes.
pub fn parse_i64_range(v: &[char], from: usize, to: usize) -> (r: Option<i64>)
    requires
        from <= to <= v@.len(),
    ensures
        r == i64_of_string(v@.subrange(from as int, to as int)),
{
    let ghost s = v@.subrange(from as int, to as int);
    if from == to {
        return None;
    }
    let c0 = v[from];
    let neg = c0 == '-';
    let ds: usize = if c0 == '-' || c0 == '+' {
        from + 1
    } else {
        from
    };
    proof {
        assert(digits_of(s) =~= v@.subrange(ds as int, to as int));
    }
    match parse_digits_range(v, ds, to) {
        None => None,
        Some(mag) => {
            proof {
                lemma_digits_val_nonneg(digits_of(s));
            }
            if neg {
                if mag <= 9223372036854775808u64 {
                    Some((-(mag as i128)) as i64)
                } else {
                    None
                }
            } else {
                if mag <= i64::MAX as u64 {
                    Some(mag as i64)
                } else {
                    None
                }
            }
        },
    }
}

/// Parses `v[from..to]` as a `u64` numeral.
pub fn parse_u64_range(v: &[char], from: usize, to: usize) -> (r: Option<u64>)
    requires
        from <= to <= v@.len(),
    ensures
        ({
            let s = v@.subrange(from as int, to as int);
            r == if is_uint_string(s) && int_string_value(s) <= u64::MAX {
                Some(int_string_value(s) as u64)
            } else {
                None::<u64>
            }
        }),
{
    let ghost s = v@.subrange(from as int, to as int);
    if from == to {
        return None;
    }
    let c0 = v[from];
    if c0 == '-' {
        return None;
    }
    let ds: usize = if c0 == '+' {
        from + 1
    } else {
        from
    };
    proof {
        assert(digits_of(s) =~= v@.subrange(ds as int, to as int));
        if all_digits(digits_of(s)) {
            lemma_digits_val_nonneg(digits_of(s));
        }
    }
    parse_digits_range(v, ds, to)
}

/// Parses `v[from..to]` as a `u32` numeral.
pub fn parse_u32_range(v: &[char], from: usize, to: usize) -> (r: Option<u32>)
    requires
        from <= to <= v@.len(),
    ensures
        r == u32_of_string(v@.subrange(from as int, to as int)),
{
    proof {
        let s = v@.subrange(from as int, to as int);
        if is_uint_string(s) {
            lemma_digits_val_nonneg(digits_of(s));
        }
    }
    match parse_u64_range(v, from, to) {
        Some(x) if x <= u32::MAX as u64 => Some(x as u32),
        _ => None,
    }
}

/// Parses `v[from..to]` as a `u16` numeral.
pub fn parse_u16_range(v: &[char], from: usize, to: usize) -> (r: Option<u16>)
    requires
        from <= to <= v@.len(),
    ensures
        r == u16_of_string(v@.subrange(from as int, to as int)),
{
    proof {
        let s = v@.subrange(from as int, to as int);
        if is_uint_string(s) {
            lemma_digits_val_nonneg(digits_of(s));
        }
    }
    match parse_u64_range(v, from, to) {
        Some(x) if x <= u16::MAX as u64 => Some(x as u16),
        _ => None,
    }
}

/// Parses `v[from..to]` as a `u8` numeral.
pub fn parse_u8_range(v: &[char], from: usize, to: usize) -> (r: Option<u8>)
    requires
        from <= to <= v@.len(),
    ensures
        r == u8_of_string(v@.subrange(from as int, to as int)),
{
    proof {
        let s = v@.subrange(from as int, to as int);
        if is_uint_string(s) {
            lemma_digits_val_nonneg(digits_of(s));
        }
    }
    match parse_u64_range(v, from, to) {
        Some(x) if x <= u8::MAX as u64 => Some(x as u8),
        _ => None,
    }
}

/// Parses `v[from..to]` as an `i32` numeral.
pub fn parse_i32_range(v: &[char], from: usize, to: usize) -> (r: Option<i32>)
    requires
        from <= to <= v@.len(),
    ensures
        r == i32_of_string(v@.subrange(from as int, to as int)),
{
    match parse_i64_range(v, from, to) {
        Some(x) if i32::MIN as i64 <= x && x <= i32::MAX as i64 => Some(x as i32),
        _ => None,
    }
}

/// The first position of `c` in `s`, if any.
pub open spec fn find_char(s: Seq<char>, c: char) -> Option<int>
    decreases s.len(),
{
    if s.len() == 0 {
        None
    } else if s[0] == c {
        Some(0)
    } else {
        match find_char(s.drop_first(), c) {
            Some(i) => Some(i + 1),
            None => None,
        }
    }
}

pub proof fn lemma_find_char_at(s: Seq<char>, c: char, i: int)
    requires
        0 <= i < s.len(),
        s[i] == c,
        forall|j: int| 0 <= j < i ==> s[j] != c,
    ensures
        find_char(s, c) == Some(i),
    decreases i,
{
    if i == 0 {
    } else {
        assert(s[0] != c);
        let t = s.drop_first();
        assert(t[i - 1] == c);
        assert(forall|j: int| 0 <= j < i - 1 ==> t[j] != c);
        lemma_find_char_at(t, c, i - 1);
    }
}

pub proof fn lemma_find_char_none(s: Seq<char>, c: char)
    requires
        forall|j: int| 0 <= j < s.len() ==> s[j] != c,
    ensures
        find_char(s, c) is None,
    decreases s.len(),
{
    if s.len() > 0 {
        lemma_find_char_none(s.drop_first(), c);
    }
}

/// A run of `n` zero characters.
pub open spec fn zeros(n: nat) -> Seq<char> {
    Seq::new(n, |i: int| '0')
}

/// The digit text the fixed-precision decoder parses: the trimmed numeral
/// with `p` zeros appended; when a decimal point is present it is removed
/// and the text is cut to `p` digits after it.
pub open spec fn number_text(raw: Seq<char>, p: nat) -> Seq<char> {
    let t = trim_seq(raw);
    let padded = t + zeros(p);
    match find_char(t, '.') {
        None => padded,
        Some(i) => padded.remove(i).take(i + p),
    }
}

/// What the fixed-precision decoder returns on `raw`: the value of `raw`
/// scaled by `10^p`, truncated beyond `p` fractional digits, when
/// [`number_text`] trims to a valid `i64` numeral; nothing otherwise.
pub open spec fn number_value(raw: Seq<char>, p: nat) -> Option<i64> {
    i64_of_string(trim_seq(number_text(raw, p)))
}

/// Decodes `v[from..to]` as a fixed-precision number, exactly as
/// [`number_value`] describes.
pub fn parse_number_chars(v: &[char], from: usize, to: usize, precision: u8) -> (r: Option<i64>)
    requires
        from <= to <= v@.len(),
    ensures
        r == number_value(v@.subrange(from as int, to as int), precision as nat),
{
    let ghost raw = v@.subrange(from as int, to as int);
    let (lo, hi) = trim_bounds(v, from, to);
    let ghost trimmed = v@.subrange(lo as int, hi as int);

    let mut t: Vec<char> = Vec::new();
    let mut dot: Option<usize> = None;
    let mut i: usize = lo;
    while i < hi
        invariant
            lo <= i <= hi <= v@.len(),
            t@ == v@.subrange(lo as int, i as int),
            match dot {
                Some(d) => 0 <= d < t@.len() && t@[d as int] == '.' && forall|j: int|
                    0 <= j < d ==> t@[j] != '.',
                None => forall|j: int| 0 <= j < t@.len() ==> t@[j] != '.',
            },
        decreases hi - i,
    {
        let c = v[i];
        if c == '.' && dot.is_none() {
            dot = Some(i - lo);
        }
        t.push(c);
        proof {
            assert(v@.subrange(lo as int, i as int).push(v@[i as int]) =~= v@.subrange(
                lo as int,
                i + 1,
            ));
        }
        i = i + 1;
    }
    proof {
        assert(t@ == trimmed);
        match dot {
            Some(d) => lemma_find_char_at(trimmed, '.', d as int),
            None => lemma_find_char_none(trimmed, '.'),
        }
    }

    let p = precision as usize;
    let mut k: usize = 0;
    while k < p
        invariant
            0 <= k <= p,
            t@ == trimmed + zeros(k as nat),
        decreases p - k,
    {
        t.push('0');
        proof {
            assert((trimmed + zeros(k as nat)).push('0') =~= trimmed + zeros((k + 1) as nat));
        }
        k = k + 1;
    }
    let ghost padded = trimmed + zeros(p as nat);
    assert(t@ == padded);

    match dot {
        None => {},
        Some(d) => {
            t.remove(d);
            assert(t@ == padded.remove(d as int));
            let tlen = t.len();
            assert(d + p <= tlen);
            let target = d + p;
            t.truncate(target);
            assert(t@ =~= padded.remove(d as int).take(d + p));
        },
    }
    assert(t@ == number_text(raw, precision as nat));

    let (lo2, hi2) = trim_bounds(t.as_slice(), 0, t.len());
    let r = parse_i64_range(t.as_slice(), lo2, hi2);
    proof {
        assert(t@.subrange(0, t@.len() as int) =~= t@);
    }
    r
}

} // verus!
