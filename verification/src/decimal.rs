//! Plain decimal numerals (`-12.75`, `.5`, `1.`) decoded with exact integer
//! arithmetic.
//!
//! Two consumers: color channels, which clamp the value to `[0, 1]` and
//! scale it by 255 (fractional digits beyond the ninth are ignored), and
//! rate-like fields, which truncate the value towards zero after scaling by
//! a fixed power of ten, saturating at the `i64` bounds.

use vstd::prelude::*;

use crate::numbers::{
    all_digits,
    digit_val,
    digits_val,
    find_char,
    is_digit,
    lemma_digits_val_nonneg,
    lemma_digits_val_push,
    lemma_find_char_at,
    lemma_find_char_none,
    digits_of,
};
use crate::text::{trim_bounds, trim_seq};

verus! {

pub open spec fn pow10(n: nat) -> int
    decreases n,
{
    if n == 0 {
        1
    } else {
        10 * pow10((n - 1) as nat)
    }
}

pub proof fn lemma_pow10_pos(n: nat)
    ensures
        pow10(n) >= 1,
    decreases n,
{
    if n > 0 {
        lemma_pow10_pos((n - 1) as nat);
    }
}

pub proof fn lemma_pow10_mono(m: nat, n: nat)
    requires
        m <= n,
    ensures
        pow10(m) <= pow10(n),
    decreases n,
{
    if m < n {
        lemma_pow10_mono(m, (n - 1) as nat);
        lemma_pow10_pos((n - 1) as nat);
    }
}

/// Small powers of ten are bounded by `10^9`.
pub proof fn lemma_pow10_le_9(n: nat)
    requires
        n <= 9,
    ensures
        pow10(n) <= 1000000000,
{
    lemma_pow10_mono(n, 9);
    reveal_with_fuel(pow10, 11);
    assert(pow10(9) == 1000000000);
}

/// A digit string is always smaller than the power of ten of its length.
pub proof fn lemma_digits_val_lt_pow10(s: Seq<char>)
    requires
        all_digits(s),
    ensures
        digits_val(s) < pow10(s.len()),
    decreases s.len(),
{
    if s.len() == 0 {
    } else {
        let t = s.drop_last();
        assert(all_digits(t));
        lemma_digits_val_lt_pow10(t);
        assert(digit_val(s.last()) <= 9);
    }
}

/// A digit string has value zero exactly when every digit is `0`.
pub proof fn lemma_digits_val_zero(s: Seq<char>)
    requires
        all_digits(s),
    ensures
        (digits_val(s) == 0) <==> (forall|j: int| 0 <= j < s.len() ==> s[j] == '0'),
    decreases s.len(),
{
    if s.len() > 0 {
        let t = s.drop_last();
        assert(all_digits(t));
        lemma_digits_val_zero(t);
        lemma_digits_val_nonneg(t);
        assert(forall|j: int| 0 <= j < t.len() ==> t[j] == s[j]);
        if digits_val(s) == 0 {
            assert(digits_val(t) == 0 && digit_val(s.last()) == 0);
            assert(s.last() == '0');
        }
    }
}

/// Whether the trimmed text is a decimal numeral: an optional sign, digits
/// with at most one point, and at least one digit.
pub open spec fn dec_valid(t: Seq<char>) -> bool {
    let b = digits_of(t);
    match find_char(b, '.') {
        None => b.len() > 0 && all_digits(b),
        Some(i) => {
            let ip = b.take(i);
            let fp = b.skip(i + 1);
            all_digits(ip) && all_digits(fp) && ip.len() + fp.len() > 0
        },
    }
}

pub open spec fn dec_neg(t: Seq<char>) -> bool {
    t.len() > 0 && t[0] == '-'
}

/// The digits before the decimal point.
pub open spec fn dec_int_part(t: Seq<char>) -> Seq<char> {
    let b = digits_of(t);
    match find_char(b, '.') {
        None => b,
        Some(i) => b.take(i),
    }
}

/// The digits after the decimal point.
pub open spec fn dec_frac_part(t: Seq<char>) -> Seq<char> {
    let b = digits_of(t);
    match find_char(b, '.') {
        None => Seq::empty(),
        Some(i) => b.skip(i + 1),
    }
}

/// The fractional digits cut or zero-padded to exactly `p` digits, as an
/// integer: the floor of the fraction scaled by `10^p`.
pub open spec fn frac_scaled(fp: Seq<char>, p: nat) -> int {
    if fp.len() >= p {
        digits_val(fp.take(p as int))
    } else {
        digits_val(fp) * pow10((p - fp.len()) as nat)
    }
}

/// What decoding a color channel yields: the decimal value of the trimmed
/// text, clamped to `[0, 1]`, scaled by 255 and truncated.  Fractional
/// digits beyond the ninth are ignored.
pub open spec fn channel_value(raw: Seq<char>) -> Option<u8> {
    let t = trim_seq(raw);
    if !dec_valid(t) {
        None
    } else if dec_neg(t) {
        Some(0)
    } else if digits_val(dec_int_part(t)) > 0 {
        Some(255)
    } else {
        let fp = dec_frac_part(t);
        let k: nat = if fp.len() >= 9 {
            9
        } else {
            fp.len()
        };
        Some(((255 * digits_val(fp.take(k as int))) / pow10(k)) as u8)
    }
}

/// The decimal value of the trimmed text scaled by `10^p` and truncated
/// towards zero, before saturation.
pub open spec fn dec_scaled(raw: Seq<char>, p: nat) -> Option<int> {
    let t = trim_seq(raw);
    if !dec_valid(t) {
        None
    } else {
        let mag = digits_val(dec_int_part(t)) * pow10(p) + frac_scaled(dec_frac_part(t), p);
        Some(
            if dec_neg(t) {
                -mag
            } else {
                mag
            },
        )
    }
}

/// The nearest `i64` to `x`.
pub open spec fn clamp_i64(x: int) -> i64 {
    if x > i64::MAX {
        i64::MAX
    } else if x < i64::MIN {
        i64::MIN
    } else {
        x as i64
    }
}

/// The structure of the decimal numeral `v[from..to]` (already trimmed):
/// whether it is negative, where its digits start, and where its decimal
/// point sits — or nothing when the text is not a decimal numeral.
struct DecShape {
    neg: bool,
    ds: usize,
    dot: Option<usize>,
}

/// Scans the (trimmed) range for the decimal-numeral shape.
fn scan_decimal(v: &[char], from: usize, to: usize) -> (r: Option<DecShape>)
    requires
        from <= to <= v@.len(),
    ensures
        ({
            let t = v@.subrange(from as int, to as int);
            match r {
                None => !dec_valid(t),
                Some(shape) => {
                    &&& dec_valid(t)
                    &&& shape.neg == dec_neg(t)
                    &&& from <= shape.ds <= to
                    &&& (shape.ds - from) == (if dec_neg(t) || (t.len() > 0 && t[0] == '+') {
                        1int
                    } else {
                        0int
                    })
                    &&& v@.subrange(shape.ds as int, to as int) == digits_of(t)
                    &&& match shape.dot {
                        None => {
                            &&& find_char(digits_of(t), '.') is None
                            &&& dec_int_part(t) == v@.subrange(shape.ds as int, to as int)
                            &&& dec_frac_part(t) == Seq::<char>::empty()
                        },
                        Some(d) => {
                            &&& shape.ds <= d < to
                            &&& find_char(digits_of(t), '.') == Some(d - shape.ds)
                            &&& dec_int_part(t) == v@.subrange(shape.ds as int, d as int)
                            &&& dec_frac_part(t) == v@.subrange(d + 1, to as int)
                        },
                    }
                },
            }
        }),
{
    let ghost t = v@.subrange(from as int, to as int);
    if from == to {
        proof {
            assert(digits_of(t) =~= t);
        }
        return None;
    }
    let c0 = v[from];
    let neg = c0 == '-';
    let ds: usize = if c0 == '-' || c0 == '+' {
        from + 1
    } else {
        from
    };
    let ghost b = v@.subrange(ds as int, to as int);
    proof {
        assert(digits_of(t) =~= b);
    }
    let mut dot: Option<usize> = None;
    let mut bad: Option<usize> = None;
    let mut i: usize = ds;
    while i < to
        invariant
            ds <= i <= to <= v@.len(),
            b == v@.subrange(ds as int, to as int),
            match dot {
                None => forall|j: int| ds <= j < i ==> v@[j] != '.',
                Some(d) => ds <= d < i && v@[d as int] == '.' && forall|j: int|
                    ds <= j < d ==> v@[j] != '.',
            },
            match bad {
                None => forall|j: int|
                    ds <= j < i ==> (is_digit(v@[j]) || (dot matches Some(d) && j == d)),
                Some(jb) => {
                    &&& ds <= jb < i
                    &&& !is_digit(v@[jb as int])
                    &&& (v@[jb as int] == '.' ==> (dot matches Some(d) && d < jb))
                },
            },
        decreases to - i,
    {
        let c = v[i];
        if c == '.' {
            if dot.is_none() {
                dot = Some(i);
            } else {
                if bad.is_none() {
                    bad = Some(i);
                }
            }
        } else if !('0' <= c && c <= '9') {
            if bad.is_none() {
                bad = Some(i);
            }
        }
        i = i + 1;
    }
    proof {
        match dot {
            None => lemma_find_char_none(b, '.'),
            Some(d) => lemma_find_char_at(b, '.', d - ds),
        }
    }
    match bad {
        Some(jb) => {
            proof {
                let j = jb - ds;
                match dot {
                    None => {
                        assert(b[j] == v@[jb as int]);
                        assert(!all_digits(b));
                    },
                    Some(d) => {
                        let k = d - ds;
                        let ip = b.take(k);
                        let fp = b.skip(k + 1);
                        if jb < d {
                            assert(ip[j] == v@[jb as int]);
                            assert(!all_digits(ip));
                        } else {
                            assert(jb > d);
                            assert(fp[j - k - 1] == v@[jb as int]);
                            assert(!all_digits(fp));
                        }
                    },
                }
            }
            None
        },
        None => {
            match dot {
                None => {
                    proof {
                        assert(forall|j: int| 0 <= j < b.len() ==> is_digit(b[j]));
                    }
                    if ds == to {
                        proof {
                            assert(b.len() == 0);
                        }
                        return None;
                    }
                    Some(DecShape { neg, ds, dot: None })
                },
                Some(d) => {
                    let ghost k = d - ds;
                    let ghost ip = b.take(k);
                    let ghost fp = b.skip(k + 1);
                    proof {
                        assert(forall|j: int| 0 <= j < ip.len() ==> is_digit(ip[j]));
                        assert(forall|j: int| 0 <= j < fp.len() ==> is_digit(fp[j]));
                        assert(ip =~= v@.subrange(ds as int, d as int));
                        assert(fp =~= v@.subrange(d + 1, to as int));
                    }
                    if ds + 1 == to {
                        proof {
                            assert(ip.len() + fp.len() == 0);
                        }
                        return None;
                    }
                    Some(DecShape { neg, ds, dot: Some(d) })
                },
            }
        },
    }
}

/// Decodes `v[from..to]` as one color channel, exactly as [`channel_value`]
/// describes.
pub fn parse_channel_chars(v: &[char], from: usize, to: usize) -> (r: Option<u8>)
    requires
        from <= to <= v@.len(),
    ensures
        r == channel_value(v@.subrange(from as int, to as int)),
{
    let ghost raw = v@.subrange(from as int, to as int);
    let (lo, hi) = trim_bounds(v, from, to);
    let ghost t = trim_seq(raw);
    let shape = match scan_decimal(v, lo, hi) {
        None => {
            return None;
        },
        Some(s) => s,
    };
    if shape.neg {
        return Some(0);
    }
    let (ipd, fps, fpe): (usize, usize, usize) = match shape.dot {
        None => (hi, hi, hi),
        Some(d) => (d, d + 1, hi),
    };
    let ghost ip = v@.subrange(shape.ds as int, ipd as int);
    let ghost fp = v@.subrange(fps as int, fpe as int);

    // Is the integer part non-zero?
    let mut int_nonzero = false;
    let mut i: usize = shape.ds;
    while i < ipd
        invariant
            shape.ds <= i <= ipd <= v@.len(),
            int_nonzero == exists|j: int| shape.ds <= j < i && v@[j] != '0',
        decreases ipd - i,
    {
        if v[i] != '0' {
            int_nonzero = true;
        }
        i = i + 1;
    }
    proof {
        assert(all_digits(ip));
        lemma_digits_val_zero(ip);
        lemma_digits_val_nonneg(ip);
        assert(forall|j: int| shape.ds <= j < ipd ==> ip[j - shape.ds] == v@[j]);
    }
    if int_nonzero {
        proof {
            let j = choose|j: int| shape.ds <= j < ipd && v@[j] != '0';
            assert(ip[j - shape.ds] != '0');
            assert(digits_val(ip) != 0);
        }
        return Some(255);
    }

    // Scale the first nine fractional digits.
    let mut f9: u64 = 0;
    let mut k: usize = 0;
    let mut p10: u64 = 1;
    while k < 9 && fps + k < fpe
        invariant
            0 <= k <= 9,
            fps <= fps + k <= fpe <= v@.len(),
            fp == v@.subrange(fps as int, fpe as int),
            all_digits(fp),
            f9 == digits_val(fp.take(k as int)),
            p10 == pow10(k as nat),
            f9 < p10,
            p10 <= 1000000000,
        decreases fpe - fps - k,
    {
        let c = v[fps + k];
        proof {
            assert(fp[k as int] == c);
            assert(is_digit(c));
            assert(fp.take(k as int).push(c) =~= fp.take(k + 1));
            lemma_digits_val_push(fp.take(k as int), c);
            lemma_pow10_le_9((k + 1) as nat);
        }
        f9 = f9 * 10 + ((c as u8) - 48) as u64;
        p10 = p10 * 10;
        k = k + 1;
    }
    proof {
        let kk: nat = if fp.len() >= 9 {
            9
        } else {
            fp.len()
        };
        assert(k as nat == kk);
        lemma_digits_val_nonneg(fp.take(k as int));
        assert((255int * (f9 as int)) / (p10 as int) < 255) by (nonlinear_arith)
            requires
                0 <= (f9 as int) && (f9 as int) < (p10 as int),
                (p10 as int) >= 1,
        ;
    }
    Some(((255 * f9) / p10) as u8)
}

/// Decodes `v[from..to]` as a decimal scaled by `10^precision`, truncated
/// towards zero and saturated at the `i64` bounds, exactly as
/// [`dec_scaled`] (then [`clamp_i64`]) describes.
pub fn parse_dec_scaled_chars(v: &[char], from: usize, to: usize, precision: u8) -> (r: Option<
    i64,
>)
    requires
        from <= to <= v@.len(),
        precision <= 9,
    ensures
        r == match dec_scaled(v@.subrange(from as int, to as int), precision as nat) {
            Some(x) => Some(clamp_i64(x)),
            None => None::<i64>,
        },
{
    let ghost raw = v@.subrange(from as int, to as int);
    let (lo, hi) = trim_bounds(v, from, to);
    let ghost t = trim_seq(raw);
    let shape = match scan_decimal(v, lo, hi) {
        None => {
            return None;
        },
        Some(s) => s,
    };
    let (ipd, fps, fpe): (usize, usize, usize) = match shape.dot {
        None => (hi, hi, hi),
        Some(d) => (d, d + 1, hi),
    };
    let ghost ip = v@.subrange(shape.ds as int, ipd as int);
    let ghost fp = v@.subrange(fps as int, fpe as int);

    // Integer part, with an overflow flag once it exceeds `u64::MAX`.
    let mut imag: u64 = 0;
    let mut over = false;
    let mut i: usize = shape.ds;
    while i < ipd
        invariant
            shape.ds <= i <= ipd <= v@.len(),
            ip == v@.subrange(shape.ds as int, ipd as int),
            all_digits(ip),
            !over ==> imag == digits_val(v@.subrange(shape.ds as int, i as int)),
            over ==> digits_val(v@.subrange(shape.ds as int, i as int)) > u64::MAX,
        decreases ipd - i,
    {
        let c = v[i];
        proof {
            assert(ip[i - shape.ds] == c);
            let pre = v@.subrange(shape.ds as int, i as int);
            assert(pre =~= ip.take(i - shape.ds));
            assert(pre.push(c) =~= v@.subrange(shape.ds as int, i + 1));
            lemma_digits_val_push(pre, c);
            lemma_digits_val_nonneg(pre);
        }
        if !over {
            let m2: u128 = (imag as u128) * 10 + (((c as u8) - 48) as u128);
            if m2 > u64::MAX as u128 {
                over = true;
            } else {
                imag = m2 as u64;
            }
        }
        i = i + 1;
    }
    proof {
        assert(v@.subrange(shape.ds as int, ipd as int) == ip);
    }

    // Fractional part, cut or zero-padded to `precision` digits.
    let p = precision as usize;
    let mut fmag: u64 = 0;
    let mut k: usize = 0;
    while k < p
        invariant
            0 <= k <= p <= 9,
            fps <= fpe <= v@.len(),
            fp == v@.subrange(fps as int, fpe as int),
            all_digits(fp),
            fmag == frac_scaled(fp, k as nat),
            fmag < pow10(k as nat),
            pow10(k as nat) <= 1000000000,
        decreases p - k,
    {
        proof {
            lemma_pow10_le_9((k + 1) as nat);
            lemma_digits_val_nonneg(fp);
        }
        if k < fpe - fps {
            let c = v[fps + k];
            proof {
                assert(fp[k as int] == c);
                assert(fp.take(k as int).push(c) =~= fp.take(k + 1));
                lemma_digits_val_push(fp.take(k as int), c);
                if k + 1 == fp.len() {
                    assert(fp.take(k + 1) =~= fp);
                }
            }
            fmag = fmag * 10 + ((c as u8) - 48) as u64;
        } else {
            proof {
                let q = pow10((k - fp.len()) as nat);
                assert(pow10((k + 1 - fp.len()) as nat) == 10 * q);
                assert(digits_val(fp) * (10 * q) == 10 * (digits_val(fp) * q)) by (nonlinear_arith);
                if k == fp.len() {
                    assert(fp.take(k as int) =~= fp);
                    assert(pow10(0) == 1);
                }
            }
            fmag = fmag * 10;
        }
        k = k + 1;
    }
    proof {
        assert(fmag == frac_scaled(fp, p as nat));
        lemma_digits_val_nonneg(fp);
        if fp.len() >= p {
            lemma_digits_val_nonneg(fp.take(p as int));
        } else {
            lemma_pow10_pos((p - fp.len()) as nat);
        }
    }

    // Combine and saturate.
    let mut p10: u64 = 1;
    let mut e: usize = 0;
    while e < p
        invariant
            0 <= e <= p <= 9,
            p10 == pow10(e as nat),
            p10 <= 1000000000,
        decreases p - e,
    {
        proof {
            lemma_pow10_le_9((e + 1) as nat);
        }
        p10 = p10 * 10;
        e = e + 1;
    }
    let ghost mag = digits_val(ip) * pow10(p as nat) + frac_scaled(fp, p as nat);
    if over {
        proof {
            lemma_pow10_pos(p as nat);
            assert(digits_val(ip) * pow10(p as nat) >= digits_val(ip)) by (nonlinear_arith)
                requires
                    digits_val(ip) > u64::MAX,
                    pow10(p as nat) >= 1,
            ;
        }
        if shape.neg {
            return Some(i64::MIN);
        } else {
            return Some(i64::MAX);
        }
    }
    proof {
        assert((imag as int) * (p10 as int) <= 0xffffffffffffffffint * 1000000000int) by (
        nonlinear_arith)
            requires
                0 <= imag as int <= 0xffffffffffffffffint,
                0 <= p10 as int <= 1000000000int,
        ;
    }
    let s128: u128 = (imag as u128) * (p10 as u128) + (fmag as u128);
    proof {
        assert(s128 == mag);
    }
    if shape.neg {
        if s128 > 9223372036854775808u128 {
            Some(i64::MIN)
        } else {
            Some((-(s128 as i128)) as i64)
        }
    } else {
        if s128 > i64::MAX as u128 {
            Some(i64::MAX)
        } else {
            Some(s128 as i64)
        }
    }
}

} // verus!
