//! Fixed-point decimal parsing.
//!
//! Upstream feeds deliver prices and amounts as decimal strings such as
//! `"0.07140100"`. The library stores them as integer counts of 10^-8 units,
//! so a string is accepted exactly when it is a plain decimal numeral
//! (`digits` or `digits.digits`) whose value is a multiple of 10^-8 and fits
//! in a `u64` after scaling.

use vstd::prelude::*;

use crate::book::FIXED_POINT_ONE;

verus! {

/// ASCII code of `'0'`.
pub const DIGIT_ZERO: u8 = 48;

/// ASCII code of `'.'`.
pub const DOT: u8 = 46;

pub open spec fn is_digit(b: u8) -> bool {
    DIGIT_ZERO <= b <= DIGIT_ZERO + 9
}

pub open spec fn all_digits(s: Seq<u8>) -> bool {
    forall|i: int| 0 <= i < s.len() ==> is_digit(s[i])
}

/// Value of a digit string read in base ten.
pub open spec fn digits_val(s: Seq<u8>) -> int
    decreases s.len(),
{
    if s.len() == 0 {
        0
    } else {
        digits_val(s.drop_last()) * 10 + (s.last() - DIGIT_ZERO)
    }
}

pub open spec fn pow10(n: nat) -> int
    decreases n,
{
    if n == 0 {
        1
    } else {
        10 * pow10((n - 1) as nat)
    }
}

/// Index of the first `'.'` in `s`, or `s.len()` if there is none.
pub open spec fn dot_index(s: Seq<u8>) -> int
    decreases s.len(),
{
    if s.len() == 0 {
        0
    } else if s[0] == DOT {
        0
    } else {
        1 + dot_index(s.drop_first())
    }
}

/// Scaled value of a fractional digit string: `frac_val("071401")` is the
/// count of 10^-8 units in `0.071401`. Digits beyond the eighth must be
/// zero for the string to be accepted (see [`frac_exact`]).
pub open spec fn frac_val(fp: Seq<u8>) -> int {
    if fp.len() >= 8 {
        digits_val(fp.take(8))
    } else {
        digits_val(fp) * pow10((8 - fp.len()) as nat)
    }
}

/// Whether a fractional part loses nothing when cut at eight digits.
pub open spec fn frac_exact(fp: Seq<u8>) -> bool {
    forall|i: int| 8 <= i < fp.len() ==> fp[i] == DIGIT_ZERO
}

/// Exact value of a decimal numeral in 10^-8 units, or `None` when the
/// string is not of the form `digits` or `digits.digits`, or has a non-zero
/// digit past the eighth fractional place.
pub open spec fn fixed_value(s: Seq<u8>) -> Option<int> {
    let d = dot_index(s);
    if d == s.len() {
        if s.len() > 0 && all_digits(s) {
            Some(digits_val(s) * FIXED_POINT_ONE)
        } else {
            None
        }
    } else {
        let ip = s.take(d);
        let fp = s.skip(d + 1);
        if ip.len() > 0 && fp.len() > 0 && all_digits(ip) && all_digits(fp) && frac_exact(fp) {
            Some(digits_val(ip) * FIXED_POINT_ONE + frac_val(fp))
        } else {
            None
        }
    }
}

/// What [`parse_fixed`] returns: the scaled value when the numeral is
/// well-formed and fits in a `u64`.
pub open spec fn spec_parse_fixed(s: Seq<u8>) -> Option<u64> {
    match fixed_value(s) {
        Some(v) => if 0 <= v <= u64::MAX {
            Some(v as u64)
        } else {
            None
        },
        None => None,
    }
}

pub proof fn lemma_dot_index_bounds(s: Seq<u8>)
    ensures
        0 <= dot_index(s) <= s.len(),
        dot_index(s) < s.len() ==> s[dot_index(s)] == DOT,
        forall|k: int| 0 <= k < dot_index(s) ==> s[k] != DOT,
    decreases s.len(),
{
    if s.len() == 0 {
    } else if s[0] == DOT {
    } else {
        lemma_dot_index_bounds(s.drop_first());
        assert forall|k: int| 0 <= k < dot_index(s) implies s[k] != DOT by {
            if k > 0 {
                assert(s.drop_first()[k - 1] != DOT);
            }
        }
    }
}

/// The first-dot index is pinned by its characteristic properties.
pub proof fn lemma_dot_index_unique(s: Seq<u8>, i: int)
    requires
        0 <= i <= s.len(),
        forall|k: int| 0 <= k < i ==> s[k] != DOT,
        i < s.len() ==> s[i] == DOT,
    ensures
        dot_index(s) == i,
{
    lemma_dot_index_bounds(s);
    if dot_index(s) < i {
        assert(s[dot_index(s)] == DOT);
    } else if i < dot_index(s) {
        assert(s[i] != DOT);
    }
}

pub proof fn lemma_digits_val_nonneg(s: Seq<u8>)
    requires
        all_digits(s),
    ensures
        digits_val(s) >= 0,
    decreases s.len(),
{
    if s.len() > 0 {
        assert(all_digits(s.drop_last()));
        lemma_digits_val_nonneg(s.drop_last());
    }
}

/// Reading one more digit multiplies by ten and adds it.
pub proof fn lemma_digits_val_step(s: Seq<u8>, i: int)
    requires
        0 <= i < s.len(),
    ensures
        digits_val(s.take(i + 1)) == digits_val(s.take(i)) * 10 + (s[i] - DIGIT_ZERO),
{
    assert(s.take(i + 1).drop_last() =~= s.take(i));
    assert(s.take(i + 1).last() == s[i]);
}

/// A digit-string prefix never exceeds the whole string's value.
pub proof fn lemma_digits_val_take_bound(s: Seq<u8>, i: int)
    requires
        all_digits(s),
        0 <= i <= s.len(),
    ensures
        digits_val(s.take(i)) <= digits_val(s),
    decreases s.len() - i,
{
    if i == s.len() {
        assert(s.take(i) =~= s);
    } else {
        lemma_digits_val_step(s, i);
        assert(all_digits(s.take(i)));
        lemma_digits_val_nonneg(s.take(i));
        assert(digits_val(s.take(i)) <= digits_val(s.take(i + 1)));
        lemma_digits_val_take_bound(s, i + 1);
    }
}

/// Computes `10^n` for small `n`.
fn pow10_exec(n: usize) -> (r: u64)
    requires
        n <= 8,
    ensures
        r == pow10(n as nat),
{
    let mut r: u64 = 1;
    let mut k: usize = 0;
    while k < n
        invariant
            k <= n <= 8,
            r == pow10(k as nat),
        decreases n - k,
    {
        proof {
            lemma_pow10_bound(k as nat);
        }
        r = r * 10;
        k = k + 1;
    }
    r
}

pub proof fn lemma_pow10_pos(n: nat)
    ensures
        pow10(n) >= 1,
    decreases n,
{
    if n > 0 {
        lemma_pow10_pos((n - 1) as nat);
    }
}

pub proof fn lemma_pow10_mono(a: nat, b: nat)
    requires
        a <= b,
    ensures
        pow10(a) <= pow10(b),
    decreases b,
{
    if a < b {
        lemma_pow10_mono(a, (b - 1) as nat);
        lemma_pow10_pos((b - 1) as nat);
    }
}

pub proof fn lemma_pow10_bound(n: nat)
    requires
        n <= 8,
    ensures
        1 <= pow10(n) <= 100_000_000,
{
    lemma_pow10_pos(n);
    assert(pow10(0) == 1);
    assert(pow10(1) == 10);
    assert(pow10(2) == 100);
    assert(pow10(3) == 1000);
    assert(pow10(4) == 10000);
    assert(pow10(5) == 100000);
    assert(pow10(6) == 1000000);
    assert(pow10(7) == 10000000);
    assert(pow10(8) == 100_000_000);
    lemma_pow10_mono(n, 8);
}

/// A fractional part made of digits contributes a non-negative count.
pub proof fn lemma_frac_val_nonneg(fp: Seq<u8>)
    requires
        all_digits(fp),
        fp.len() > 0,
    ensures
        frac_val(fp) >= 0,
{
    if fp.len() >= 8 {
        assert(all_digits(fp.take(8)));
        lemma_digits_val_nonneg(fp.take(8));
    } else {
        lemma_digits_val_nonneg(fp);
        lemma_pow10_pos((8 - fp.len()) as nat);
        assert(digits_val(fp) * pow10((8 - fp.len()) as nat) >= 0) by (nonlinear_arith)
            requires digits_val(fp) >= 0, pow10((8 - fp.len()) as nat) >= 1;
    }
}

/// Parses a decimal numeral into 10^-8 units.
pub fn parse_fixed(s: &[u8]) -> (r: Option<u64>)
    ensures
        r == spec_parse_fixed(s@),
{
    let n = s.len();
    // Find the first dot, if any.
    let mut d: usize = 0;
    while d < n && s[d] != DOT
        invariant
            0 <= d <= n == s@.len(),
            forall|k: int| 0 <= k < d ==> s@[k] != DOT,
        decreases n - d,
    {
        d = d + 1;
    }
    proof {
        lemma_dot_index_unique(s@, d as int);
    }

    let has_dot = d < n;
    let ghost ip: Seq<u8> = if has_dot { s@.take(d as int) } else { s@ };
    proof {
        if !has_dot {
            assert(s@.take(d as int) =~= s@);
        }
    }
    if d == 0 && has_dot {
        // Empty integer part.
        return None;
    }
    if !has_dot && n == 0 {
        return None;
    }
    if has_dot && d + 1 == n {
        // Empty fractional part.
        assert(s@.skip(d + 1).len() == 0);
        return None;
    }

    // Accumulate the integer part; bail out early if it cannot fit.
    let mut acc: u128 = 0;
    let mut i: usize = 0;
    while i < d
        invariant
            0 <= i <= d <= n == s@.len(),
            dot_index(s@) == d as int,
            has_dot == (d < n),
            has_dot ==> d > 0 && d + 1 < n,
            !has_dot ==> d == n && n > 0,
            ip == s@.take(d as int),
            forall|k: int| 0 <= k < i ==> is_digit(s@[k]),
            acc == digits_val(ip.take(i as int)),
            acc <= u64::MAX,
        decreases d - i,
    {
        let b = s[i];
        if b < DIGIT_ZERO || b > DIGIT_ZERO + 9 {
            assert(!is_digit(ip[i as int]));
            return None;
        }
        proof {
            lemma_digits_val_step(ip, i as int);
        }
        acc = acc * 10 + ((b - DIGIT_ZERO) as u128);
        i = i + 1;
        if acc > u64::MAX as u128 {
            // The integer part alone is already out of range.
            proof {
                if fixed_value(s@) is Some {
                    assert(dot_index(s@) == d as int);
                    if has_dot {
                        assert(all_digits(ip));
                        let fp = s@.skip(d as int + 1);
                        assert(all_digits(fp));
                        lemma_frac_val_nonneg(fp);
                    } else {
                        assert(all_digits(s@));
                        assert(s@.take(d as int) =~= s@);
                        assert(all_digits(ip));
                    }
                    lemma_digits_val_take_bound(ip, i as int);
                    let v = digits_val(ip);
                    assert(v >= digits_val(ip.take(i as int)) > u64::MAX);
                    assert(v * FIXED_POINT_ONE >= v * 1) by (nonlinear_arith)
                        requires v >= 0;
                }
            }
            return None;
        }
    }
    proof {
        assert(ip.take(i as int) =~= ip);
        assert forall|k: int| 0 <= k < ip.len() implies is_digit(ip[k]) by {
            assert(ip[k] == s@[k]);
        }
        assert(all_digits(ip));
    }

    // Accumulate up to eight fractional digits, scaled to 10^-8 units.
    let mut frac: u64 = 0;
    if has_dot {
        let fstart = d + 1;
        let ghost fp: Seq<u8> = s@.skip(fstart as int);
        let mut j: usize = fstart;
        let stop = if n - fstart < 8 { n } else { fstart + 8 };
        while j < stop
            invariant
                fstart <= j <= stop <= n == s@.len(),
                dot_index(s@) == d as int,
                d < n && fstart == d + 1,
                stop == if n - fstart < 8 { n as int } else { fstart + 8 },
                fp == s@.skip(fstart as int),
                forall|k: int| fstart <= k < j ==> is_digit(s@[k]),
                frac == digits_val(fp.take(j - fstart)),
                frac <= 99_999_999,
            decreases stop - j,
        {
            let b = s[j];
            if b < DIGIT_ZERO || b > DIGIT_ZERO + 9 {
                assert(!is_digit(fp[j - fstart]));
                return None;
            }
            proof {
                lemma_digits_val_step(fp, j - fstart);
                assert(all_digits(fp.take(j - fstart + 1)));
                lemma_digits_val_upper(fp.take(j - fstart + 1));
                lemma_pow10_bound((j - fstart + 1) as nat);
            }
            frac = frac * 10 + ((b - DIGIT_ZERO) as u64);
            j = j + 1;
        }
        // Any digits past the eighth must be zero.
        let mut z = j;
        while z < n
            invariant
                j <= z <= n == s@.len(),
                dot_index(s@) == d as int,
                d < n && fstart == d + 1,
                fp == s@.skip(fstart as int),
                fstart <= j,
                (n - fstart < 8 && j == n) || j == fstart + 8,
                forall|k: int| j <= k < z ==> s@[k] == DIGIT_ZERO,
            decreases n - z,
        {
            if s[z] != DIGIT_ZERO {
                let b = s[z];
                if b < DIGIT_ZERO || b > DIGIT_ZERO + 9 {
                    assert(!is_digit(fp[z - fstart]));
                    return None;
                }
                assert(fp[z - fstart] != DIGIT_ZERO && z - fstart >= 8);
                assert(!frac_exact(fp));
                return None;
            }
            z = z + 1;
        }
        assert(all_digits(fp));
        assert(frac_exact(fp));
        // Scale short fractional parts up to eight places.
        let flen = j - fstart;
        if flen < 8 {
            assert(fp.take(j - fstart) =~= fp);
            let p = pow10_exec(8 - flen);
            proof {
                lemma_digits_val_nonneg(fp);
                lemma_pow10_bound((8 - fp.len()) as nat);
                assert(digits_val(fp) * pow10((8 - fp.len()) as nat) <= 99_999_999 * 100_000_000)
                    by (nonlinear_arith)
                    requires 0 <= digits_val(fp) <= 99_999_999, 1 <= pow10((8 - fp.len()) as nat) <= 100_000_000;
            }
            frac = frac * p;
            assert(frac == frac_val(fp));
        } else {
            assert(fp.take(8) =~= fp.take(j - fstart));
            assert(frac == frac_val(fp));
        }
        proof {
            lemma_digits_val_nonneg(fp);
            if fp.len() < 8 {
                lemma_pow10_bound((8 - fp.len()) as nat);
                assert(frac_val(fp) >= 0) by (nonlinear_arith)
                    requires digits_val(fp) >= 0, pow10((8 - fp.len()) as nat) >= 1, frac_val(fp) == digits_val(fp) * pow10((8 - fp.len()) as nat);
            } else {
                lemma_digits_val_nonneg(fp.take(8));
            }
        }
    }

    let total: u128 = acc * (FIXED_POINT_ONE as u128) + (frac as u128);
    proof {
        lemma_digits_val_nonneg(ip);
        if has_dot {
            assert(fixed_value(s@) == Some(digits_val(ip) * FIXED_POINT_ONE + frac));
        } else {
            assert(fixed_value(s@) == Some(digits_val(ip) * FIXED_POINT_ONE));
        }
    }
    if total > u64::MAX as u128 {
        None
    } else {
        Some(total as u64)
    }
}

/// A digit string of length `n` stays below `10^n`.
pub proof fn lemma_digits_val_upper(s: Seq<u8>)
    requires
        all_digits(s),
    ensures
        digits_val(s) < pow10(s.len()),
    decreases s.len(),
{
    if s.len() == 0 {
    } else {
        assert(all_digits(s.drop_last()));
        lemma_digits_val_upper(s.drop_last());
        assert(digits_val(s.drop_last()) * 10 + 10 <= pow10((s.len() - 1) as nat) * 10)
            by (nonlinear_arith)
            requires digits_val(s.drop_last()) < pow10((s.len() - 1) as nat);
    }
}

} // verus!
