//! Digit runs, digit folds and powers of ten.
//!
//! A digit run is the longest stretch of digits of a given radix; its
//! value is the usual most-significant-first fold.  The fold value is
//! stated exactly over unbounded integers, so overflow of the machine
//! range is a statement about the value, not about the computation.

use vstd::prelude::*;
use crate::token::Radix;
use crate::chars::{digit, spec_is_digit, spec_digit_val, spec_radix_base};

verus! {

/// 10^e for e >= 0 (and 1 for negative e, which never arises).
pub open spec fn spec_pow10(e: int) -> int
    decreases e,
{
    if e <= 0 {
        1
    } else {
        10 * spec_pow10(e - 1)
    }
}

pub proof fn lemma_pow10_pos(e: int)
    ensures
        spec_pow10(e) >= 1,
    decreases e,
{
    if e > 0 {
        lemma_pow10_pos(e - 1);
    }
}

pub proof fn lemma_pow10_adds(a: int, b: int)
    requires
        a >= 0,
        b >= 0,
    ensures
        spec_pow10(a + b) == spec_pow10(a) * spec_pow10(b),
    decreases a,
{
    if a == 0 {
    } else {
        lemma_pow10_adds(a - 1, b);
        assert(spec_pow10(a + b) == 10 * spec_pow10(a - 1 + b));
        assert(10 * (spec_pow10(a - 1) * spec_pow10(b)) == (10 * spec_pow10(a - 1)) * spec_pow10(
            b,
        )) by (nonlinear_arith);
    }
}

pub proof fn lemma_pow10_increases(a: int, b: int)
    requires
        0 <= a <= b,
    ensures
        spec_pow10(a) <= spec_pow10(b),
    decreases b,
{
    if a < b {
        lemma_pow10_increases(a, b - 1);
        lemma_pow10_pos(b - 1);
    }
}

/// End of the run of digits of radix `r` starting at `i`.
pub open spec fn spec_digit_run_end(s: Seq<char>, i: int, r: Radix) -> int
    decreases s.len() - i,
{
    if i < s.len() && spec_is_digit(s[i], r) {
        spec_digit_run_end(s, i + 1, r)
    } else {
        i
    }
}

/// The value of the digit run `s[i..j)` read in radix `r`.
pub open spec fn spec_digits_val(s: Seq<char>, i: int, j: int, r: Radix) -> int
    decreases j - i,
{
    if i < j {
        spec_digits_val(s, i, j - 1, r) * spec_radix_base(r) + spec_digit_val(s[j - 1])
    } else {
        0
    }
}

pub proof fn lemma_digit_run_end_bounds(s: Seq<char>, i: int, r: Radix)
    requires
        0 <= i <= s.len(),
    ensures
        i <= spec_digit_run_end(s, i, r) <= s.len(),
    decreases s.len() - i,
{
    if i < s.len() && spec_is_digit(s[i], r) {
        lemma_digit_run_end_bounds(s, i + 1, r);
    }
}

/// Every character of a digit run is a digit of its radix.
pub proof fn lemma_digit_run_chars(s: Seq<char>, i: int, r: Radix)
    requires
        0 <= i <= s.len(),
    ensures
        forall|k: int|
            i <= k < spec_digit_run_end(s, i, r) ==> spec_is_digit(#[trigger] s[k], r),
    decreases s.len() - i,
{
    if i < s.len() && spec_is_digit(s[i], r) {
        lemma_digit_run_chars(s, i + 1, r);
    }
}

pub proof fn lemma_digits_val_nonneg(s: Seq<char>, i: int, j: int, r: Radix)
    requires
        i <= j,
        forall|k: int| i <= k < j ==> spec_digit_val(#[trigger] s[k]) >= 0,
    ensures
        spec_digits_val(s, i, j, r) >= 0,
    decreases j - i,
{
    if i < j {
        lemma_digits_val_nonneg(s, i, j - 1, r);
        let v = spec_digits_val(s, i, j - 1, r);
        let b = spec_radix_base(r);
        assert(v * b >= 0) by (nonlinear_arith)
            requires
                v >= 0,
                b >= 0,
        ;
    }
}

/// Consume the run of digits of radix `r` from `i`.
pub fn digit_run(s: &[char], i: usize, r: Radix) -> (j: usize)
    requires
        i <= s@.len(),
    ensures
        j as int == spec_digit_run_end(s@, i as int, r),
        i <= j <= s@.len(),
{
    let mut j: usize = i;
    loop
        invariant
            i <= j <= s@.len(),
            spec_digit_run_end(s@, i as int, r) == spec_digit_run_end(s@, j as int, r),
        decreases s@.len() - j,
    {
        if j < s.len() && digit(s[j], r).is_some() {
            j = j + 1;
        } else {
            return j;
        }
    }
}

/// 10^e as a machine integer; e is at most 18, so the result fits `i64`.
pub fn ten_pow(e: u32) -> (p: i64)
    requires
        e <= 18,
    ensures
        p as int == spec_pow10(e as int),
        1 <= p <= 1_000_000_000_000_000_000,
{
    proof {
        assert(spec_pow10(18) == 1_000_000_000_000_000_000) by {
            reveal_with_fuel(spec_pow10, 20);
        }
    }
    let mut p: i64 = 1;
    let mut k: u32 = 0;
    while k < e
        invariant
            0 <= k <= e <= 18,
            p as int == spec_pow10(k as int),
            spec_pow10(18) == 1_000_000_000_000_000_000,
        decreases e - k,
    {
        proof {
            lemma_pow10_pos(k as int);
            lemma_pow10_increases(k as int + 1, 18);
            assert(spec_pow10(k as int + 1) == 10 * spec_pow10(k as int));
        }
        p = p * 10;
        k = k + 1;
    }
    proof {
        lemma_pow10_increases(e as int, 18);
        lemma_pow10_pos(e as int);
    }
    p
}

} // verus!
