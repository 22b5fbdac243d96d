//! Exactness coercion of a parsed numeric value.
//!
//! An `#i` prefix forces a value inexact: an integer or rational becomes
//! the symbolic inexact description of itself.  An `#e` prefix forces a
//! value exact: a decimal literal is converted back to an integer exactly
//! when its mathematical value is an integer of the signed 64-bit range,
//! and is rejected otherwise — never truncated, never wrapped.  An
//! infinity or NaN has no exact equivalent and is rejected.

use vstd::prelude::*;
use vstd::arithmetic::div_mod::{
    lemma_fundamental_div_mod, lemma_fundamental_div_mod_converse, lemma_mod_multiples_basic,
    lemma_mod_pos_bound,
};
use crate::token::{Exactness, Flonum, FlonumModel, Number, NumberModel, Radix};
use crate::chars::{spec_is_digit, spec_digit_val};
use crate::digits::{
    spec_pow10, spec_digits_val, lemma_pow10_pos, lemma_pow10_adds, lemma_digits_val_nonneg,
};

verus! {

/// What the parser guarantees of every inexact value it builds.
pub open spec fn spec_wf_flonum(f: FlonumModel) -> bool {
    match f {
        FlonumModel::PosInfinity => true,
        FlonumModel::NegInfinity => true,
        FlonumModel::NotANumber => true,
        FlonumModel::Decimal { neg, digits, point, exp } => 0 <= point <= digits.len() && 0 <= exp
            <= 18 && forall|k: int|
            0 <= k < digits.len() ==> spec_is_digit(#[trigger] digits[k], Radix::Decimal),
        FlonumModel::FromInteger(v) => -0x8000_0000_0000_0000 <= v <= 0x7FFF_FFFF_FFFF_FFFF,
        FlonumModel::FromRational { num, den } => -0x7FFF_FFFF_FFFF_FFFF <= num
            <= 0x7FFF_FFFF_FFFF_FFFF && 1 <= den <= 0xFFFF_FFFF,
    }
}

/// What the parser guarantees of every numeric value it builds.
pub open spec fn spec_wf_number(n: NumberModel) -> bool {
    match n {
        NumberModel::Integer(v) => -0x8000_0000_0000_0000 <= v <= 0x7FFF_FFFF_FFFF_FFFF,
        NumberModel::Rational { num, den } => -0x7FFF_FFFF_FFFF_FFFF <= num
            <= 0x7FFF_FFFF_FFFF_FFFF && 1 <= den <= 0xFFFF_FFFF,
        NumberModel::Real(f) => spec_wf_flonum(f),
    }
}

/// The exact value of an inexact description, when it is an integer of
/// the signed 64-bit range: for a decimal literal with digit value D,
/// the value (-1)^neg * D * 10^exp / 10^point, provided the division is
/// exact and the result representable.
pub open spec fn spec_exact_real(f: FlonumModel) -> Option<NumberModel> {
    match f {
        FlonumModel::PosInfinity => None,
        FlonumModel::NegInfinity => None,
        FlonumModel::NotANumber => None,
        FlonumModel::FromInteger(v) => Some(NumberModel::Integer(v)),
        FlonumModel::FromRational { num, den } => Some(NumberModel::Rational { num, den }),
        FlonumModel::Decimal { neg, digits, point, exp } => {
            let m = spec_digits_val(digits, 0, digits.len() as int, Radix::Decimal) * spec_pow10(
                exp,
            );
            let p = spec_pow10(point);
            if m % p != 0 {
                None
            } else if neg && m / p <= 0x8000_0000_0000_0000 {
                Some(NumberModel::Integer(-(m / p)))
            } else if !neg && m / p <= 0x7FFF_FFFF_FFFF_FFFF {
                Some(NumberModel::Integer(m / p))
            } else {
                None
            }
        },
    }
}

/// Applying an exactness marker to a parsed value.  `#i` makes the value
/// inexact; `#e` makes it exact, failing where no exact integer or
/// rational equivalent exists; no marker passes the value through.
pub open spec fn spec_apply_exactness(ex: Exactness, n: NumberModel) -> Option<NumberModel> {
    match ex {
        Exactness::Unspecified => Some(n),
        Exactness::Inexact => match n {
            NumberModel::Integer(v) => Some(NumberModel::Real(FlonumModel::FromInteger(v))),
            NumberModel::Rational { num, den } => Some(
                NumberModel::Real(FlonumModel::FromRational { num, den }),
            ),
            NumberModel::Real(f) => Some(NumberModel::Real(f)),
        },
        Exactness::Exact => match n {
            NumberModel::Integer(v) => Some(NumberModel::Integer(v)),
            NumberModel::Rational { num, den } => Some(NumberModel::Rational { num, den }),
            NumberModel::Real(f) => spec_exact_real(f),
        },
    }
}

/// The `#e` coercion of a decimal description, done exactly in integers:
/// trailing fraction zeros are trimmed, and what remains is an integer
/// exactly when no fraction digits outlive the exponent.
fn exact_decimal(neg: bool, digits: Vec<char>, point: usize, exp: u32) -> (r: Option<Number>)
    requires
        spec_wf_flonum(
            FlonumModel::Decimal {
                neg,
                digits: digits@,
                point: point as int,
                exp: exp as int,
            },
        ),
    ensures
        match r {
            Some(m) => spec_exact_real(
                FlonumModel::Decimal {
                    neg,
                    digits: digits@,
                    point: point as int,
                    exp: exp as int,
                },
            ) == Some(m@) && spec_wf_number(m@),
            None => spec_exact_real(
                FlonumModel::Decimal {
                    neg,
                    digits: digits@,
                    point: point as int,
                    exp: exp as int,
                },
            ) is None,
        },
{
    let ghost ds = digits@;
    let len = digits.len();
    let mut t: usize = point;
    let mut end: usize = len;
    loop
        invariant
            t <= point <= len == ds.len(),
            end == len - (point - t),
            ds == digits@,
            forall|k: int| 0 <= k < ds.len() ==> spec_is_digit(#[trigger] ds[k], Radix::Decimal),
            spec_digits_val(ds, 0, len as int, Radix::Decimal) == spec_digits_val(
                ds,
                0,
                end as int,
                Radix::Decimal,
            ) * spec_pow10(point - t),
        ensures
            t <= point <= len == ds.len(),
            end == len - (point - t),
            spec_digits_val(ds, 0, len as int, Radix::Decimal) == spec_digits_val(
                ds,
                0,
                end as int,
                Radix::Decimal,
            ) * spec_pow10(point - t),
            t == 0 || spec_digit_val(ds[end - 1]) != 0,
        decreases t,
    {
        if t > 0 && digits[end - 1] as u32 == 48 {
            proof {
                let e = end as int;
                let a = spec_digits_val(ds, 0, e - 1, Radix::Decimal);
                assert(spec_digits_val(ds, 0, e, Radix::Decimal) == a * 10 + spec_digit_val(
                    ds[e - 1]));
                assert(spec_digit_val(ds[e - 1]) == 0);
                let q = point - t;
                assert(spec_pow10(q + 1) == 10 * spec_pow10(q));
                assert((a * 10) * spec_pow10(q) == a * (10 * spec_pow10(q))) by (nonlinear_arith);
            }
            t = t - 1;
            end = end - 1;
        } else {
            break;
        }
    }
    let ghost dd = spec_digits_val(ds, 0, end as int, Radix::Decimal);
    let ghost dfull = spec_digits_val(ds, 0, len as int, Radix::Decimal);
    let ghost kk = point - t;
    let ghost m = dfull * spec_pow10(exp as int);
    let ghost p = spec_pow10(point as int);
    proof {
        lemma_digits_val_nonneg(ds, 0, end as int, Radix::Decimal);
        lemma_pow10_pos(point as int);
        lemma_pow10_pos(exp as int);
        lemma_pow10_pos(kk);
    }
    if t > exp as usize {
        // A nonzero fraction digit survives past the exponent, so the
        // value is not an integer.
        proof {
            let u = t - exp;
            let c = spec_pow10(kk + exp);
            let pp = spec_pow10(u);
            lemma_pow10_pos(kk + exp);
            lemma_pow10_pos(u);
            lemma_pow10_adds(kk, exp as int);
            lemma_pow10_adds(kk + exp, u);
            assert(p == c * pp);
            assert((dd * spec_pow10(kk)) * spec_pow10(exp as int) == dd * (spec_pow10(kk)
                * spec_pow10(exp as int))) by (nonlinear_arith);
            assert(m == dd * c);
            // the last kept digit is not zero, so dd % 10 != 0
            let e = end as int;
            assert(e >= 1);
            let a = spec_digits_val(ds, 0, e - 1, Radix::Decimal);
            let dlast = spec_digit_val(ds[e - 1]);
            assert(dd == a * 10 + dlast);
            assert(spec_is_digit(ds[e - 1], Radix::Decimal));
            assert(1 <= dlast <= 9);
            lemma_fundamental_div_mod_converse(dd, 10, a, dlast);
            assert(dd % 10 == dlast);
            // dd % pow10(u) != 0, else dd % 10 == 0
            let w = dd % pp;
            let aa = dd / pp;
            lemma_fundamental_div_mod(dd, pp);
            lemma_mod_pos_bound(dd, pp);
            if w == 0 {
                assert(dd == pp * aa);
                assert(pp == 10 * spec_pow10(u - 1));
                assert((10 * spec_pow10(u - 1)) * aa == (spec_pow10(u - 1) * aa) * 10)
                    by (nonlinear_arith);
                lemma_mod_multiples_basic(spec_pow10(u - 1) * aa, 10);
                assert(dd % 10 == 0);
                assert(false);
            }
            // m % p == w * c != 0
            assert(dd == pp * aa + w);
            assert((pp * aa + w) * c == aa * (pp * c) + w * c) by (nonlinear_arith);
            assert(pp * c == c * pp) by (nonlinear_arith);
            assert(m == aa * p + w * c);
            assert(w * c < pp * c) by (nonlinear_arith)
                requires
                    0 <= w < pp,
                    c > 0,
            ;
            assert(w * c >= 1) by (nonlinear_arith)
                requires
                    w >= 1,
                    c >= 1,
            ;
            lemma_fundamental_div_mod_converse(m, p, aa, w * c);
            assert(m % p != 0);
        }
        return None;
    }
    // Fold the kept digits, saturating just above the 64-bit boundary.
    let mut acc: u128 = 0;
    let mut idx: usize = 0;
    loop
        invariant
            idx <= end <= ds.len(),
            ds == digits@,
            forall|k: int| 0 <= k < ds.len() ==> spec_is_digit(#[trigger] ds[k], Radix::Decimal),
            (spec_digits_val(ds, 0, idx as int, Radix::Decimal) <= 0x8000_0000_0000_0000 && acc
                as int == spec_digits_val(ds, 0, idx as int, Radix::Decimal)) || (spec_digits_val(
                ds,
                0,
                idx as int,
                Radix::Decimal,
            ) > 0x8000_0000_0000_0000 && acc == 0x8000_0000_0000_0001u128),
        ensures
            (spec_digits_val(ds, 0, end as int, Radix::Decimal) <= 0x8000_0000_0000_0000 && acc
                as int == spec_digits_val(ds, 0, end as int, Radix::Decimal)) || (spec_digits_val(
                ds,
                0,
                end as int,
                Radix::Decimal,
            ) > 0x8000_0000_0000_0000 && acc == 0x8000_0000_0000_0001u128),
        decreases end - idx,
    {
        if idx < end {
            let c = digits[idx];
            proof {
                assert(spec_is_digit(ds[idx as int], Radix::Decimal));
                let v = spec_digits_val(ds, 0, idx as int, Radix::Decimal);
                assert(spec_digits_val(ds, 0, idx + 1, Radix::Decimal) == v * 10 + spec_digit_val(
                    ds[idx as int]));
                if v > 0x8000_0000_0000_0000 {
                    assert(v * 10 >= v) by (nonlinear_arith)
                        requires
                            v > 0,
                    ;
                }
            }
            let d = (c as u32 - 48) as u128;
            if acc <= 0x8000_0000_0000_0000u128 {
                acc = acc * 10 + d;
                if acc > 0x8000_0000_0000_0000u128 {
                    acc = 0x8000_0000_0000_0001u128;
                }
            }
            idx = idx + 1;
        } else {
            break;
        }
    }
    let pw = crate::digits::ten_pow(exp - t as u32);
    proof {
        assert(acc as int * pw as int <= 0x8000_0000_0000_0001 * 1_000_000_000_000_000_000)
            by (nonlinear_arith)
            requires
                0 <= acc as int <= 0x8000_0000_0000_0001,
                0 <= pw as int <= 1_000_000_000_000_000_000,
        ;
    }
    let q = acc * (pw as u128);
    let ghost qs = dd * spec_pow10(exp - t);
    proof {
        // m == qs * p, so the division in the spec is exact with value qs
        lemma_pow10_adds(kk, exp as int);
        lemma_pow10_adds(exp - t, t + kk);
        assert((dd * spec_pow10(kk)) * spec_pow10(exp as int) == dd * (spec_pow10(kk) * spec_pow10(
            exp as int,
        ))) by (nonlinear_arith);
        assert((dd * spec_pow10(exp - t)) * spec_pow10(t + kk) == dd * (spec_pow10(exp - t)
            * spec_pow10(t + kk))) by (nonlinear_arith);
        assert(point as int == t + kk);
        assert(m == qs * p);
        lemma_pow10_pos(exp - t);
        assert(dd * spec_pow10(exp - t) >= 0) by (nonlinear_arith)
            requires
                dd >= 0,
                spec_pow10(exp - t) >= 1,
        ;
        lemma_fundamental_div_mod_converse(m, p, qs, 0);
        assert(m % p == 0);
        assert(m / p == qs);
        assert(pw as int == spec_pow10(exp - t));
        // the machine product tracks qs exactly below the boundary
        if acc == 0x8000_0000_0000_0001u128 {
            assert(dd * spec_pow10(exp - t) >= dd) by (nonlinear_arith)
                requires
                    dd >= 0,
                    spec_pow10(exp - t) >= 1,
            ;
            assert(acc as int * pw as int >= acc as int) by (nonlinear_arith)
                requires
                    acc as int >= 0,
                    pw as int >= 1,
            ;
        } else {
            assert(q as int == qs);
        }
    }
    if neg {
        if q <= 0x8000_0000_0000_0000u128 {
            let v: i64 = if q == 0x8000_0000_0000_0000u128 {
                i64::MIN
            } else {
                -(q as i64)
            };
            Some(Number::Integer(v))
        } else {
            None
        }
    } else {
        if q <= 0x7FFF_FFFF_FFFF_FFFFu128 {
            Some(Number::Integer(q as i64))
        } else {
            None
        }
    }
}

/// The exact equivalent of an inexact value, when it exists.
pub fn exact_real(f: Flonum) -> (r: Option<Number>)
    requires
        spec_wf_flonum(f@),
    ensures
        match r {
            Some(m) => spec_exact_real(f@) == Some(m@) && spec_wf_number(m@),
            None => spec_exact_real(f@) is None,
        },
{
    match f {
        Flonum::PosInfinity => None,
        Flonum::NegInfinity => None,
        Flonum::NotANumber => None,
        Flonum::FromInteger(v) => Some(Number::Integer(v)),
        Flonum::FromRational { num, den } => Some(Number::Rational { num, den }),
        Flonum::Decimal { neg, digits, point, exp } => exact_decimal(neg, digits, point, exp),
    }
}

/// Apply an exactness marker to a parsed numeric value.
pub fn apply_exactness(ex: Exactness, n: Number) -> (r: Option<Number>)
    requires
        spec_wf_number(n@),
    ensures
        match r {
            Some(m) => spec_apply_exactness(ex, n@) == Some(m@) && spec_wf_number(m@),
            None => spec_apply_exactness(ex, n@) is None,
        },
{
    match ex {
        Exactness::Unspecified => Some(n),
        Exactness::Inexact => match n {
            Number::Integer(v) => Some(Number::Real(Flonum::FromInteger(v))),
            Number::Rational { num, den } => Some(Number::Real(Flonum::FromRational { num, den })),
            Number::Real(f) => Some(Number::Real(f)),
        },
        Exactness::Exact => match n {
            Number::Integer(v) => Some(Number::Integer(v)),
            Number::Rational { num, den } => Some(Number::Rational { num, den }),
            Number::Real(f) => exact_real(f),
        },
    }
}

} // verus!
