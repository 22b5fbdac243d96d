//! The numeric-literal grammar.
//!
//! A literal is a prefix (radix marker and exactness marker, each
//! optional, in either order) followed by a real: an optionally signed
//! unsigned real, or a named infinity or NaN.  An unsigned real is, in
//! priority order, a rational `uinteger / uinteger`, a radix-10 decimal
//! form, or a plain unsigned integer.  Digit folds are checked against
//! the exact mathematical value: a literal whose value leaves the signed
//! 64-bit range fails rather than wrapping.  A zero denominator fails the
//! rational production.  Decimal forms yield the symbolic inexact value
//! described in `token`; an integer mantissa with an exponent stays an
//! integer when the exact product fits, and promotes to an inexact value
//! otherwise.  An explicit exponent whose power of ten leaves the signed
//! 64-bit range makes the whole literal malformed: the literal fails,
//! and no shorter parse is taken in its place.

use vstd::prelude::*;
use crate::token::{Exactness, Flonum, FlonumModel, Number, NumberModel, Radix};
use crate::chars::{digit, radix_base, spec_is_digit, spec_digit_val, spec_radix_base};
use crate::digits::{
    spec_pow10, spec_digit_run_end, spec_digits_val, digit_run, ten_pow, lemma_pow10_pos,
    lemma_digit_run_chars, lemma_digit_run_end_bounds,
};
use crate::exact::{spec_apply_exactness, spec_wf_number, spec_wf_flonum, apply_exactness};

verus! {

/// An unsigned integer literal: one or more digits of the radix, failing
/// (not wrapping) when the value exceeds the signed 64-bit range.
pub open spec fn spec_uinteger(s: Seq<char>, i: int, rdx: Radix) -> Option<(int, int)> {
    let j = spec_digit_run_end(s, i, rdx);
    if j == i {
        None
    } else if spec_digits_val(s, i, j, rdx) > 0x7FFF_FFFF_FFFF_FFFF {
        None
    } else {
        Some((j, spec_digits_val(s, i, j, rdx)))
    }
}

/// An exponent suffix `e` sign digits, as `Some((end, exponent))`.  No
/// suffix, an empty digit run, and a negative sign match empty, as
/// `Some((start, 0))`.  An explicit exponent whose power of ten leaves
/// the signed 64-bit range is a malformed literal, `None`: it fails the
/// numeric literal rather than matching empty.
pub open spec fn spec_suffix(s: Seq<char>, i: int) -> Option<(int, int)> {
    if i < s.len() && s[i] == 'e' {
        let k = if i + 1 < s.len() && (s[i + 1] == '+' || s[i + 1] == '-') {
            i + 2
        } else {
            i + 1
        };
        let j = spec_digit_run_end(s, k, Radix::Decimal);
        if j == k {
            Some((i, 0))
        } else if i + 1 < s.len() && s[i + 1] == '-' {
            Some((i, 0))
        } else if spec_digits_val(s, k, j, Radix::Decimal) > 18 {
            None
        } else {
            Some((j, spec_digits_val(s, k, j, Radix::Decimal)))
        }
    } else {
        Some((i, 0))
    }
}

/// The outcome of a decimal form: a match, no match (the next
/// alternative of the unsigned real may try), or a malformed literal,
/// which fails the whole numeric literal instead of falling back to a
/// shorter parse.
pub enum DecimalParse<T> {
    Found(T),
    Absent,
    Malformed,
}

/// The three radix-10 decimal forms: digits `.` digits suffix,
/// `.` digits suffix, and digits suffix.  Any other radix is absent; a
/// malformed suffix makes the form — and so the literal — malformed.
pub open spec fn spec_decimal(s: Seq<char>, i: int, rdx: Radix) -> DecimalParse<
    (int, NumberModel),
> {
    if !(rdx is Decimal) {
        DecimalParse::Absent
    } else {
        let a = spec_digit_run_end(s, i, Radix::Decimal);
        if a > i && a < s.len() && s[a] == '.' {
            let b = spec_digit_run_end(s, a + 1, Radix::Decimal);
            match spec_suffix(s, b) {
                Some((e, x)) => DecimalParse::Found(
                    (
                        e,
                        NumberModel::Real(
                            FlonumModel::Decimal {
                                neg: false,
                                digits: s.subrange(i, a) + s.subrange(a + 1, b),
                                point: b - (a + 1),
                                exp: x,
                            },
                        ),
                    ),
                ),
                None => DecimalParse::Malformed,
            }
        } else if i < s.len() && s[i] == '.' {
            let b = spec_digit_run_end(s, i + 1, Radix::Decimal);
            if b > i + 1 {
                match spec_suffix(s, b) {
                    Some((e, x)) => DecimalParse::Found(
                        (
                            e,
                            NumberModel::Real(
                                FlonumModel::Decimal {
                                    neg: false,
                                    digits: s.subrange(i + 1, b),
                                    point: b - (i + 1),
                                    exp: x,
                                },
                            ),
                        ),
                    ),
                    None => DecimalParse::Malformed,
                }
            } else {
                DecimalParse::Absent
            }
        } else {
            match spec_uinteger(s, i, Radix::Decimal) {
                Some((j, v)) => match spec_suffix(s, j) {
                    Some((e, x)) => if v * spec_pow10(x) <= 0x7FFF_FFFF_FFFF_FFFF {
                        DecimalParse::Found((e, NumberModel::Integer(v * spec_pow10(x))))
                    } else {
                        DecimalParse::Found(
                            (
                                e,
                                NumberModel::Real(
                                    FlonumModel::Decimal {
                                        neg: false,
                                        digits: s.subrange(i, j),
                                        point: 0,
                                        exp: x,
                                    },
                                ),
                            ),
                        )
                    },
                    None => DecimalParse::Malformed,
                },
                None => DecimalParse::Absent,
            }
        }
    }
}

/// A rational `uinteger / uinteger` with the denominator held in 32
/// bits; a zero or oversized denominator fails the production.  Then the
/// decimal forms, then a plain unsigned integer.
pub open spec fn spec_ureal_rest(s: Seq<char>, i: int, rdx: Radix) -> Option<(int, NumberModel)> {
    match spec_decimal(s, i, rdx) {
        DecimalParse::Found(x) => Some(x),
        DecimalParse::Malformed => None,
        DecimalParse::Absent => match spec_uinteger(s, i, rdx) {
            Some((j, v)) => Some((j, NumberModel::Integer(v))),
            None => None,
        },
    }
}

pub open spec fn spec_ureal(s: Seq<char>, i: int, rdx: Radix) -> Option<(int, NumberModel)> {
    match spec_uinteger(s, i, rdx) {
        Some((a, n)) => if a < s.len() && s[a] == '/' {
            match spec_uinteger(s, a + 1, rdx) {
                Some((b, d)) => if 1 <= d <= 0xFFFF_FFFF {
                    Some((b, NumberModel::Rational { num: n, den: d }))
                } else {
                    spec_ureal_rest(s, i, rdx)
                },
                None => spec_ureal_rest(s, i, rdx),
            }
        } else {
            spec_ureal_rest(s, i, rdx)
        },
        None => spec_ureal_rest(s, i, rdx),
    }
}

/// The four named infinities and NaNs, always inexact.
pub open spec fn spec_infnan(s: Seq<char>, i: int) -> Option<(int, FlonumModel)> {
    if i + 5 < s.len() && (s[i] == '+' || s[i] == '-') {
        if s[i + 1] == 'i' && s[i + 2] == 'n' && s[i + 3] == 'f' && s[i + 4] == '.' && s[i + 5]
            == '0' {
            Some((i + 6, if s[i] == '+' {
                FlonumModel::PosInfinity
            } else {
                FlonumModel::NegInfinity
            }))
        } else if s[i + 1] == 'n' && s[i + 2] == 'a' && s[i + 3] == 'n' && s[i + 4] == '.' && s[i
            + 5] == '0' {
            Some((i + 6, FlonumModel::NotANumber))
        } else {
            None
        }
    } else {
        None
    }
}

/// An optional sign, as (position after it, whether negative).
pub open spec fn spec_sign(s: Seq<char>, i: int) -> (int, bool) {
    if i < s.len() && s[i] == '-' {
        (i + 1, true)
    } else if i < s.len() && s[i] == '+' {
        (i + 1, false)
    } else {
        (i, false)
    }
}

pub open spec fn spec_negate_flonum(f: FlonumModel) -> FlonumModel {
    match f {
        FlonumModel::PosInfinity => FlonumModel::NegInfinity,
        FlonumModel::NegInfinity => FlonumModel::PosInfinity,
        FlonumModel::NotANumber => FlonumModel::NotANumber,
        FlonumModel::Decimal { neg, digits, point, exp } => FlonumModel::Decimal {
            neg: !neg,
            digits,
            point,
            exp,
        },
        FlonumModel::FromInteger(v) => FlonumModel::FromInteger(-v),
        FlonumModel::FromRational { num, den } => FlonumModel::FromRational { num: -num, den },
    }
}

pub open spec fn spec_negate(n: NumberModel) -> NumberModel {
    match n {
        NumberModel::Integer(v) => NumberModel::Integer(-v),
        NumberModel::Rational { num, den } => NumberModel::Rational { num: -num, den },
        NumberModel::Real(f) => NumberModel::Real(spec_negate_flonum(f)),
    }
}

/// A real: sign and unsigned real, or a named infinity or NaN.
pub open spec fn spec_real(s: Seq<char>, i: int, rdx: Radix) -> Option<(int, NumberModel)> {
    let k = spec_sign(s, i).0;
    let neg = spec_sign(s, i).1;
    match spec_ureal(s, k, rdx) {
        Some((j, u)) => Some((j, if neg {
            spec_negate(u)
        } else {
            u
        })),
        None => match spec_infnan(s, i) {
            Some((j, f)) => Some((j, NumberModel::Real(f))),
            None => None,
        },
    }
}

/// The radix marker of `rdx`; only radix 10 may be spelled by nothing.
pub open spec fn spec_radix_marker(s: Seq<char>, i: int, rdx: Radix) -> Option<int> {
    let two = i + 1 < s.len() && s[i] == '#';
    match rdx {
        Radix::Binary => if two && s[i + 1] == 'b' {
            Some(i + 2)
        } else {
            None
        },
        Radix::Octal => if two && s[i + 1] == 'o' {
            Some(i + 2)
        } else {
            None
        },
        Radix::Decimal => if two && s[i + 1] == 'd' {
            Some(i + 2)
        } else {
            Some(i)
        },
        Radix::Hexadecimal => if two && s[i + 1] == 'x' {
            Some(i + 2)
        } else {
            None
        },
    }
}

/// The exactness marker, as (end, marker); nothing means unspecified.
pub open spec fn spec_exactness(s: Seq<char>, i: int) -> (int, Exactness) {
    if i + 1 < s.len() && s[i] == '#' && s[i + 1] == 'i' {
        (i + 2, Exactness::Inexact)
    } else if i + 1 < s.len() && s[i] == '#' && s[i + 1] == 'e' {
        (i + 2, Exactness::Exact)
    } else {
        (i, Exactness::Unspecified)
    }
}

/// The prefix: radix marker and exactness marker, an unordered pair.
/// For radix 10 both markers are optional, so an exactness marker may
/// also be followed by an explicit `#d`; for the other radixes the
/// radix marker must be spelled, before or after the exactness marker.
pub open spec fn spec_prefix(s: Seq<char>, i: int, rdx: Radix) -> Option<(int, Exactness)> {
    if rdx is Decimal {
        if i + 1 < s.len() && s[i] == '#' && s[i + 1] == 'd' {
            Some((spec_exactness(s, i + 2).0, spec_exactness(s, i + 2).1))
        } else {
            let j = spec_exactness(s, i).0;
            let ex = spec_exactness(s, i).1;
            if j + 1 < s.len() && s[j] == '#' && s[j + 1] == 'd' {
                Some((j + 2, ex))
            } else {
                Some((j, ex))
            }
        }
    } else {
        match spec_radix_marker(s, i, rdx) {
            Some(j) => Some((spec_exactness(s, j).0, spec_exactness(s, j).1)),
            None => {
                let j = spec_exactness(s, i).0;
                let ex = spec_exactness(s, i).1;
                match spec_radix_marker(s, j, rdx) {
                    Some(k) => Some((k, ex)),
                    None => None,
                }
            },
        }
    }
}

/// One numeric literal in radix `rdx`: prefix, real, and the exactness
/// coercion applied to the parsed value.
pub open spec fn spec_num(s: Seq<char>, i: int, rdx: Radix) -> Option<(int, NumberModel)> {
    match spec_prefix(s, i, rdx) {
        Some((j, ex)) => match spec_real(s, j, rdx) {
            Some((k, u)) => match spec_apply_exactness(ex, u) {
                Some(v) => Some((k, v)),
                None => None,
            },
            None => None,
        },
        None => None,
    }
}

/// A numeric literal: the four radixes tried in a fixed order.
pub open spec fn spec_number(s: Seq<char>, i: int) -> Option<(int, NumberModel)> {
    if spec_num(s, i, Radix::Binary) is Some {
        spec_num(s, i, Radix::Binary)
    } else if spec_num(s, i, Radix::Octal) is Some {
        spec_num(s, i, Radix::Octal)
    } else if spec_num(s, i, Radix::Decimal) is Some {
        spec_num(s, i, Radix::Decimal)
    } else {
        spec_num(s, i, Radix::Hexadecimal)
    }
}

/// What `spec_ureal` may hand to negation: magnitudes of the signed
/// 64-bit range with nothing at the extreme, so negation cannot wrap.
pub open spec fn spec_nonneg_number(n: NumberModel) -> bool {
    match n {
        NumberModel::Integer(v) => 0 <= v,
        NumberModel::Rational { num, den } => 0 <= num,
        NumberModel::Real(f) => match f {
            FlonumModel::FromInteger(v) => -0x7FFF_FFFF_FFFF_FFFF <= v <= 0x7FFF_FFFF_FFFF_FFFF,
            _ => true,
        },
    }
}

pub fn uinteger(s: &[char], i: usize, rdx: Radix) -> (res: Option<(usize, i64)>)
    requires
        i <= s@.len(),
    ensures
        match res {
            Some((j, v)) => spec_uinteger(s@, i as int, rdx) == Some((j as int, v as int)) && i < j
                <= s@.len() && v >= 0,
            None => spec_uinteger(s@, i as int, rdx) is None,
        },
{
    let base = radix_base(rdx);
    let mut j: usize = i;
    let mut acc: u128 = 0;
    loop
        invariant
            i <= j <= s@.len(),
            base as int == spec_radix_base(rdx),
            spec_digit_run_end(s@, i as int, rdx) == spec_digit_run_end(s@, j as int, rdx),
            (spec_digits_val(s@, i as int, j as int, rdx) <= 0x7FFF_FFFF_FFFF_FFFF && acc as int
                == spec_digits_val(s@, i as int, j as int, rdx)) || (spec_digits_val(
                s@,
                i as int,
                j as int,
                rdx,
            ) > 0x7FFF_FFFF_FFFF_FFFF && acc == 0x8000_0000_0000_0000u128),
        ensures
            i <= j <= s@.len(),
            j as int == spec_digit_run_end(s@, i as int, rdx),
            (spec_digits_val(s@, i as int, j as int, rdx) <= 0x7FFF_FFFF_FFFF_FFFF && acc as int
                == spec_digits_val(s@, i as int, j as int, rdx)) || (spec_digits_val(
                s@,
                i as int,
                j as int,
                rdx,
            ) > 0x7FFF_FFFF_FFFF_FFFF && acc == 0x8000_0000_0000_0000u128),
        decreases s@.len() - j,
    {
        if j < s.len() {
            match digit(s[j], rdx) {
                Some(d) => {
                    proof {
                        let v = spec_digits_val(s@, i as int, j as int, rdx);
                        assert(spec_digits_val(s@, i as int, j + 1, rdx) == v * spec_radix_base(
                            rdx,
                        ) + spec_digit_val(s@[j as int]));
                        if v > 0x7FFF_FFFF_FFFF_FFFF {
                            assert(v * spec_radix_base(rdx) >= v) by (nonlinear_arith)
                                requires
                                    v > 0,
                                    spec_radix_base(rdx) >= 1,
                            ;
                        }
                    }
                    if acc <= 0x7FFF_FFFF_FFFF_FFFFu128 {
                        acc = acc * base as u128 + d as u128;
                        if acc > 0x7FFF_FFFF_FFFF_FFFFu128 {
                            acc = 0x8000_0000_0000_0000u128;
                        }
                    }
                    j = j + 1;
                },
                None => {
                    break;
                },
            }
        } else {
            break;
        }
    }
    if j == i {
        None
    } else if acc > 0x7FFF_FFFF_FFFF_FFFFu128 {
        None
    } else {
        Some((j, acc as i64))
    }
}

pub fn suffix(s: &[char], i: usize) -> (res: Option<(usize, u32)>)
    requires
        i <= s@.len(),
    ensures
        match res {
            Some((e, x)) => spec_suffix(s@, i as int) == Some((e as int, x as int)) && i <= e
                <= s@.len() && x <= 18,
            None => spec_suffix(s@, i as int) is None,
        },
{
    if i < s.len() && s[i] == 'e' {
        let neg = i + 1 < s.len() && s[i + 1] == '-';
        let k: usize = if i + 1 < s.len() && (s[i + 1] == '+' || s[i + 1] == '-') {
            i + 2
        } else {
            i + 1
        };
        let mut j: usize = k;
        let mut acc: u32 = 0;
        loop
            invariant
                k <= j <= s@.len(),
                k <= s@.len(),
                spec_digit_run_end(s@, k as int, Radix::Decimal) == spec_digit_run_end(
                    s@,
                    j as int,
                    Radix::Decimal,
                ),
                (spec_digits_val(s@, k as int, j as int, Radix::Decimal) <= 18 && acc as int
                    == spec_digits_val(s@, k as int, j as int, Radix::Decimal)) || (
                spec_digits_val(s@, k as int, j as int, Radix::Decimal) > 18 && acc == 19),
            ensures
                k <= j <= s@.len(),
                j as int == spec_digit_run_end(s@, k as int, Radix::Decimal),
                (spec_digits_val(s@, k as int, j as int, Radix::Decimal) <= 18 && acc as int
                    == spec_digits_val(s@, k as int, j as int, Radix::Decimal)) || (
                spec_digits_val(s@, k as int, j as int, Radix::Decimal) > 18 && acc == 19),
            decreases s@.len() - j,
        {
            if j < s.len() {
                match digit(s[j], Radix::Decimal) {
                    Some(d) => {
                        proof {
                            let v = spec_digits_val(s@, k as int, j as int, Radix::Decimal);
                            assert(spec_digits_val(s@, k as int, j + 1, Radix::Decimal) == v * 10
                                + spec_digit_val(s@[j as int]));
                            if v > 18 {
                                assert(v * 10 >= v) by (nonlinear_arith)
                                    requires
                                        v > 0,
                                ;
                            }
                        }
                        if acc <= 18 {
                            acc = acc * 10 + d as u32;
                            if acc > 18 {
                                acc = 19;
                            }
                        }
                        j = j + 1;
                    },
                    None => {
                        break;
                    },
                }
            } else {
                break;
            }
        }
        if j == k {
            Some((i, 0))
        } else if neg {
            Some((i, 0))
        } else if acc > 18 {
            None
        } else {
            Some((j, acc))
        }
    } else {
        Some((i, 0))
    }
}

/// Append `s[from..to)` to `v`.
fn collect_range(s: &[char], from: usize, to: usize, v: &mut Vec<char>)
    requires
        from <= to <= s@.len(),
    ensures
        final(v)@ == old(v)@ + s@.subrange(from as int, to as int),
{
    let mut k: usize = from;
    loop
        invariant
            from <= k <= to <= s@.len(),
            v@ == old(v)@ + s@.subrange(from as int, k as int),
        ensures
            k == to,
            v@ == old(v)@ + s@.subrange(from as int, to as int),
        decreases to - k,
    {
        if k < to {
            v.push(s[k]);
            proof {
                assert(s@.subrange(from as int, k + 1) =~= s@.subrange(from as int, k as int)
                    + seq![s@[k as int]]);
                assert(v@ =~= old(v)@ + s@.subrange(from as int, k + 1));
            }
            k = k + 1;
        } else {
            break;
        }
    }
}

pub fn decimal(s: &[char], i: usize, rdx: Radix) -> (res: DecimalParse<(usize, Number)>)
    requires
        i <= s@.len(),
    ensures
        match res {
            DecimalParse::Found((j, n)) => spec_decimal(s@, i as int, rdx)
                == DecimalParse::Found((j as int, n@)) && i < j <= s@.len() && spec_wf_number(n@)
                && spec_nonneg_number(n@),
            DecimalParse::Absent => spec_decimal(s@, i as int, rdx) is Absent,
            DecimalParse::Malformed => spec_decimal(s@, i as int, rdx) is Malformed,
        },
{
    if !matches!(rdx, Radix::Decimal) {
        return DecimalParse::Absent;
    }
    let a = digit_run(s, i, Radix::Decimal);
    if a > i && a < s.len() && s[a] == '.' {
        let b = digit_run(s, a + 1, Radix::Decimal);
        let (e, x) = match suffix(s, b) {
            Some(p) => p,
            None => {
                return DecimalParse::Malformed;
            },
        };
        let mut d: Vec<char> = Vec::new();
        collect_range(s, i, a, &mut d);
        collect_range(s, a + 1, b, &mut d);
        proof {
            lemma_digit_run_chars(s@, i as int, Radix::Decimal);
            lemma_digit_run_chars(s@, a + 1, Radix::Decimal);
            assert(d@ =~= s@.subrange(i as int, a as int) + s@.subrange(a + 1, b as int));
            assert forall|kk: int| 0 <= kk < d@.len() implies spec_is_digit(
                #[trigger] d@[kk],
                Radix::Decimal,
            ) by {
                if kk < a - i {
                    assert(d@[kk] == s@[i + kk]);
                } else {
                    assert(d@[kk] == s@[a + 1 + (kk - (a - i))]);
                }
            }
        }
        DecimalParse::Found(
            (e, Number::Real(Flonum::Decimal { neg: false, digits: d, point: b - (a + 1), exp: x })),
        )
    } else if i < s.len() && s[i] == '.' {
        let b = digit_run(s, i + 1, Radix::Decimal);
        if b > i + 1 {
            let (e, x) = match suffix(s, b) {
                Some(p) => p,
                None => {
                    return DecimalParse::Malformed;
                },
            };
            let mut d: Vec<char> = Vec::new();
            collect_range(s, i + 1, b, &mut d);
            proof {
                lemma_digit_run_chars(s@, i + 1, Radix::Decimal);
                assert(d@ =~= s@.subrange(i + 1, b as int));
                assert forall|kk: int| 0 <= kk < d@.len() implies spec_is_digit(
                    #[trigger] d@[kk],
                    Radix::Decimal,
                ) by {
                    assert(d@[kk] == s@[i + 1 + kk]);
                }
            }
            DecimalParse::Found(
                (
                    e,
                    Number::Real(Flonum::Decimal { neg: false, digits: d, point: b - (i + 1), exp: x }),
                ),
            )
        } else {
            DecimalParse::Absent
        }
    } else {
        match uinteger(s, i, Radix::Decimal) {
            Some((j, v)) => {
                let (e, x) = match suffix(s, j) {
                    Some(p) => p,
                    None => {
                        return DecimalParse::Malformed;
                    },
                };
                let pw = ten_pow(x);
                proof {
                    lemma_pow10_pos(x as int);
                    assert(v as int * pw as int <= 0x7FFF_FFFF_FFFF_FFFF
                        * 1_000_000_000_000_000_000) by (nonlinear_arith)
                        requires
                            0 <= v as int <= 0x7FFF_FFFF_FFFF_FFFF,
                            0 <= pw as int <= 1_000_000_000_000_000_000,
                    ;
                    assert(v as int * pw as int >= 0) by (nonlinear_arith)
                        requires
                            v as int >= 0,
                            pw as int >= 0,
                    ;
                }
                let wide: u128 = (v as u128) * (pw as u128);
                if wide <= 0x7FFF_FFFF_FFFF_FFFFu128 {
                    DecimalParse::Found((e, Number::Integer(wide as i64)))
                } else {
                    let mut d: Vec<char> = Vec::new();
                    collect_range(s, i, j, &mut d);
                    proof {
                        lemma_digit_run_chars(s@, i as int, Radix::Decimal);
                        assert(d@ =~= s@.subrange(i as int, j as int));
                        assert forall|kk: int| 0 <= kk < d@.len() implies spec_is_digit(
                            #[trigger] d@[kk],
                            Radix::Decimal,
                        ) by {
                            assert(d@[kk] == s@[i + kk]);
                        }
                    }
                    DecimalParse::Found(
                        (e, Number::Real(Flonum::Decimal { neg: false, digits: d, point: 0, exp: x })),
                    )
                }
            },
            None => DecimalParse::Absent,
        }
    }
}

/// The unsigned-real fallbacks behind the rational form; a malformed
/// decimal form fails the unsigned real without trying the plain
/// unsigned integer.
fn ureal_rest(s: &[char], i: usize, rdx: Radix) -> (res: Option<(usize, Number)>)
    requires
        i <= s@.len(),
    ensures
        match res {
            Some((j, n)) => spec_ureal_rest(s@, i as int, rdx) == Some((j as int, n@)) && i < j
                <= s@.len() && spec_wf_number(n@) && spec_nonneg_number(n@),
            None => spec_ureal_rest(s@, i as int, rdx) is None,
        },
{
    match decimal(s, i, rdx) {
        DecimalParse::Found((j, n)) => Some((j, n)),
        DecimalParse::Malformed => None,
        DecimalParse::Absent => match uinteger(s, i, rdx) {
            Some((j, v)) => Some((j, Number::Integer(v))),
            None => None,
        },
    }
}

pub fn ureal(s: &[char], i: usize, rdx: Radix) -> (res: Option<(usize, Number)>)
    requires
        i <= s@.len(),
    ensures
        match res {
            Some((j, n)) => spec_ureal(s@, i as int, rdx) == Some((j as int, n@)) && i < j
                <= s@.len() && spec_wf_number(n@) && spec_nonneg_number(n@),
            None => spec_ureal(s@, i as int, rdx) is None,
        },
{
    match uinteger(s, i, rdx) {
        Some((a, n)) => {
            if a < s.len() && s[a] == '/' {
                match uinteger(s, a + 1, rdx) {
                    Some((b, d)) => {
                        if 1 <= d && d <= 0xFFFF_FFFFi64 {
                            Some((b, Number::Rational { num: n, den: d as u32 }))
                        } else {
                            ureal_rest(s, i, rdx)
                        }
                    },
                    None => ureal_rest(s, i, rdx),
                }
            } else {
                ureal_rest(s, i, rdx)
            }
        },
        None => ureal_rest(s, i, rdx),
    }
}

pub fn infnan(s: &[char], i: usize) -> (res: Option<(usize, Flonum)>)
    requires
        i <= s@.len(),
    ensures
        match res {
            Some((j, f)) => spec_infnan(s@, i as int) == Some((j as int, f@)) && i < j <= s@.len()
                && spec_wf_flonum(f@),
            None => spec_infnan(s@, i as int) is None,
        },
{
    if s.len() - i > 5 && (s[i] == '+' || s[i] == '-') {
        if s[i + 1] == 'i' && s[i + 2] == 'n' && s[i + 3] == 'f' && s[i + 4] == '.' && s[i + 5]
            == '0' {
            if s[i] == '+' {
                Some((i + 6, Flonum::PosInfinity))
            } else {
                Some((i + 6, Flonum::NegInfinity))
            }
        } else if s[i + 1] == 'n' && s[i + 2] == 'a' && s[i + 3] == 'n' && s[i + 4] == '.' && s[i
            + 5] == '0' {
            Some((i + 6, Flonum::NotANumber))
        } else {
            None
        }
    } else {
        None
    }
}

pub fn sign(s: &[char], i: usize) -> (res: (usize, bool))
    requires
        i <= s@.len(),
    ensures
        res.0 as int == spec_sign(s@, i as int).0,
        res.1 == spec_sign(s@, i as int).1,
        i <= res.0 <= s@.len(),
{
    if i < s.len() && s[i] == '-' {
        (i + 1, true)
    } else if i < s.len() && s[i] == '+' {
        (i + 1, false)
    } else {
        (i, false)
    }
}

/// Negate a parsed unsigned real; its magnitude never reaches the
/// extreme of the range, so nothing can wrap.
fn negate_number(n: Number) -> (res: Number)
    requires
        spec_wf_number(n@),
        spec_nonneg_number(n@),
    ensures
        res@ == spec_negate(n@),
        spec_wf_number(res@),
{
    match n {
        Number::Integer(v) => Number::Integer(-v),
        Number::Rational { num, den } => Number::Rational { num: -num, den },
        Number::Real(f) => Number::Real(
            match f {
                Flonum::PosInfinity => Flonum::NegInfinity,
                Flonum::NegInfinity => Flonum::PosInfinity,
                Flonum::NotANumber => Flonum::NotANumber,
                Flonum::Decimal { neg, digits, point, exp } => Flonum::Decimal {
                    neg: !neg,
                    digits,
                    point,
                    exp,
                },
                Flonum::FromInteger(v) => Flonum::FromInteger(-v),
                Flonum::FromRational { num, den } => Flonum::FromRational { num: -num, den },
            },
        ),
    }
}

pub fn real_number(s: &[char], i: usize, rdx: Radix) -> (res: Option<(usize, Number)>)
    requires
        i <= s@.len(),
    ensures
        match res {
            Some((j, n)) => spec_real(s@, i as int, rdx) == Some((j as int, n@)) && i < j
                <= s@.len() && spec_wf_number(n@),
            None => spec_real(s@, i as int, rdx) is None,
        },
{
    let (k, neg) = sign(s, i);
    match ureal(s, k, rdx) {
        Some((j, u)) => {
            if neg {
                Some((j, negate_number(u)))
            } else {
                Some((j, u))
            }
        },
        None => match infnan(s, i) {
            Some((j, f)) => Some((j, Number::Real(f))),
            None => None,
        },
    }
}

pub fn radix_marker(s: &[char], i: usize, rdx: Radix) -> (res: Option<usize>)
    requires
        i <= s@.len(),
    ensures
        match res {
            Some(j) => spec_radix_marker(s@, i as int, rdx) == Some(j as int) && i <= j
                <= s@.len(),
            None => spec_radix_marker(s@, i as int, rdx) is None,
        },
{
    let two = i < s.len() && i + 1 < s.len() && s[i] == '#';
    match rdx {
        Radix::Binary => if two && s[i + 1] == 'b' {
            Some(i + 2)
        } else {
            None
        },
        Radix::Octal => if two && s[i + 1] == 'o' {
            Some(i + 2)
        } else {
            None
        },
        Radix::Decimal => if two && s[i + 1] == 'd' {
            Some(i + 2)
        } else {
            Some(i)
        },
        Radix::Hexadecimal => if two && s[i + 1] == 'x' {
            Some(i + 2)
        } else {
            None
        },
    }
}

pub fn exactness(s: &[char], i: usize) -> (res: (usize, Exactness))
    requires
        i <= s@.len(),
    ensures
        res.0 as int == spec_exactness(s@, i as int).0,
        res.1 == spec_exactness(s@, i as int).1,
        i <= res.0 <= s@.len(),
{
    if i < s.len() && i + 1 < s.len() && s[i] == '#' && s[i + 1] == 'i' {
        (i + 2, Exactness::Inexact)
    } else if i < s.len() && i + 1 < s.len() && s[i] == '#' && s[i + 1] == 'e' {
        (i + 2, Exactness::Exact)
    } else {
        (i, Exactness::Unspecified)
    }
}

pub fn prefix(s: &[char], i: usize, rdx: Radix) -> (res: Option<(usize, Exactness)>)
    requires
        i <= s@.len(),
    ensures
        match res {
            Some((j, ex)) => spec_prefix(s@, i as int, rdx) == Some((j as int, ex)) && i <= j
                <= s@.len(),
            None => spec_prefix(s@, i as int, rdx) is None,
        },
{
    if matches!(rdx, Radix::Decimal) {
        if s.len() - i > 1 && s[i] == '#' && s[i + 1] == 'd' {
            let (k, ex) = exactness(s, i + 2);
            Some((k, ex))
        } else {
            let (j, ex) = exactness(s, i);
            if s.len() - j > 1 && s[j] == '#' && s[j + 1] == 'd' {
                Some((j + 2, ex))
            } else {
                Some((j, ex))
            }
        }
    } else {
        match radix_marker(s, i, rdx) {
            Some(j) => {
                let (k, ex) = exactness(s, j);
                Some((k, ex))
            },
            None => {
                let (j, ex) = exactness(s, i);
                match radix_marker(s, j, rdx) {
                    Some(k) => Some((k, ex)),
                    None => None,
                }
            },
        }
    }
}

pub fn num(s: &[char], i: usize, rdx: Radix) -> (res: Option<(usize, Number)>)
    requires
        i <= s@.len(),
    ensures
        match res {
            Some((j, n)) => spec_num(s@, i as int, rdx) == Some((j as int, n@)) && i < j
                <= s@.len() && spec_wf_number(n@),
            None => spec_num(s@, i as int, rdx) is None,
        },
{
    match prefix(s, i, rdx) {
        Some((j, ex)) => match real_number(s, j, rdx) {
            Some((k, u)) => match apply_exactness(ex, u) {
                Some(v) => Some((k, v)),
                None => None,
            },
            None => None,
        },
        None => None,
    }
}

pub fn number(s: &[char], i: usize) -> (res: Option<(usize, Number)>)
    requires
        i <= s@.len(),
    ensures
        match res {
            Some((j, n)) => spec_number(s@, i as int) == Some((j as int, n@)) && i < j <= s@.len()
                && spec_wf_number(n@),
            None => spec_number(s@, i as int) is None,
        },
{
    match num(s, i, Radix::Binary) {
        Some(x) => Some(x),
        None => match num(s, i, Radix::Octal) {
            Some(x) => Some(x),
            None => match num(s, i, Radix::Decimal) {
                Some(x) => Some(x),
                None => num(s, i, Radix::Hexadecimal),
            },
        },
    }
}

pub proof fn lemma_uinteger_bounds(s: Seq<char>, i: int, rdx: Radix)
    requires
        0 <= i <= s.len(),
        spec_uinteger(s, i, rdx) is Some,
    ensures
        i < spec_uinteger(s, i, rdx)->Some_0.0 <= s.len(),
{
    lemma_digit_run_end_bounds(s, i, rdx);
}

pub proof fn lemma_suffix_bounds(s: Seq<char>, i: int)
    requires
        0 <= i <= s.len(),
    ensures
        spec_suffix(s, i) matches Some((e, x)) ==> i <= e <= s.len(),
{
    if i < s.len() && s[i] == 'e' {
        let k = if i + 1 < s.len() && (s[i + 1] == '+' || s[i + 1] == '-') {
            i + 2
        } else {
            i + 1
        };
        lemma_digit_run_end_bounds(s, k, Radix::Decimal);
    }
}

pub proof fn lemma_decimal_bounds(s: Seq<char>, i: int, rdx: Radix)
    requires
        0 <= i <= s.len(),
        spec_decimal(s, i, rdx) is Found,
    ensures
        i < spec_decimal(s, i, rdx)->Found_0.0 <= s.len(),
{
    lemma_digit_run_end_bounds(s, i, Radix::Decimal);
    let a = spec_digit_run_end(s, i, Radix::Decimal);
    if a > i && a < s.len() && s[a] == '.' {
        lemma_digit_run_end_bounds(s, a + 1, Radix::Decimal);
        lemma_suffix_bounds(s, spec_digit_run_end(s, a + 1, Radix::Decimal));
    } else if i < s.len() && s[i] == '.' {
        lemma_digit_run_end_bounds(s, i + 1, Radix::Decimal);
        let b = spec_digit_run_end(s, i + 1, Radix::Decimal);
        if b > i + 1 {
            lemma_suffix_bounds(s, b);
        }
    } else {
        if spec_uinteger(s, i, Radix::Decimal) is Some {
            lemma_uinteger_bounds(s, i, Radix::Decimal);
            lemma_suffix_bounds(s, spec_uinteger(s, i, Radix::Decimal)->Some_0.0);
        }
    }
}

pub proof fn lemma_ureal_bounds(s: Seq<char>, i: int, rdx: Radix)
    requires
        0 <= i <= s.len(),
        spec_ureal(s, i, rdx) is Some,
    ensures
        i < spec_ureal(s, i, rdx)->Some_0.0 <= s.len(),
{
    if spec_decimal(s, i, rdx) is Found {
        lemma_decimal_bounds(s, i, rdx);
    }
    if spec_uinteger(s, i, rdx) is Some {
        lemma_uinteger_bounds(s, i, rdx);
        let a = spec_uinteger(s, i, rdx)->Some_0.0;
        if a < s.len() && s[a] == '/' && spec_uinteger(s, a + 1, rdx) is Some {
            lemma_uinteger_bounds(s, a + 1, rdx);
        }
    }
}

pub proof fn lemma_real_bounds(s: Seq<char>, i: int, rdx: Radix)
    requires
        0 <= i <= s.len(),
        spec_real(s, i, rdx) is Some,
    ensures
        i < spec_real(s, i, rdx)->Some_0.0 <= s.len(),
{
    let k = spec_sign(s, i).0;
    if spec_ureal(s, k, rdx) is Some {
        lemma_ureal_bounds(s, k, rdx);
    }
}

pub proof fn lemma_prefix_bounds(s: Seq<char>, i: int, rdx: Radix)
    requires
        0 <= i <= s.len(),
        spec_prefix(s, i, rdx) is Some,
    ensures
        i <= spec_prefix(s, i, rdx)->Some_0.0 <= s.len(),
{
}

pub proof fn lemma_num_bounds(s: Seq<char>, i: int, rdx: Radix)
    requires
        0 <= i <= s.len(),
        spec_num(s, i, rdx) is Some,
    ensures
        i < spec_num(s, i, rdx)->Some_0.0 <= s.len(),
{
    lemma_prefix_bounds(s, i, rdx);
    let j = spec_prefix(s, i, rdx)->Some_0.0;
    lemma_real_bounds(s, j, rdx);
}

pub proof fn lemma_number_bounds(s: Seq<char>, i: int)
    requires
        0 <= i <= s.len(),
        spec_number(s, i) is Some,
    ensures
        i < spec_number(s, i)->Some_0.0 <= s.len(),
{
    if spec_num(s, i, Radix::Binary) is Some {
        lemma_num_bounds(s, i, Radix::Binary);
    } else if spec_num(s, i, Radix::Octal) is Some {
        lemma_num_bounds(s, i, Radix::Octal);
    } else if spec_num(s, i, Radix::Decimal) is Some {
        lemma_num_bounds(s, i, Radix::Decimal);
    } else {
        lemma_num_bounds(s, i, Radix::Hexadecimal);
    }
}

/// An unsigned real begins with a digit of its radix or a dot.
pub proof fn lemma_ureal_first(s: Seq<char>, i: int, rdx: Radix)
    requires
        0 <= i <= s.len(),
        spec_ureal(s, i, rdx) is Some,
    ensures
        i < s.len(),
        spec_is_digit(s[i], rdx) || s[i] == '.',
{
    if spec_uinteger(s, i, rdx) is Some {
        lemma_digit_run_end_bounds(s, i, rdx);
    } else if spec_decimal(s, i, rdx) is Found {
        let a = spec_digit_run_end(s, i, Radix::Decimal);
        if a > i && a < s.len() && s[a] == '.' {
        } else if i < s.len() && s[i] == '.' {
        } else {
            lemma_digit_run_end_bounds(s, i, Radix::Decimal);
        }
    }
}

/// A numeric literal begins with a marker, a sign, a dot, or a digit.
pub proof fn lemma_num_first(s: Seq<char>, i: int, rdx: Radix)
    requires
        0 <= i <= s.len(),
        spec_num(s, i, rdx) is Some,
    ensures
        i < s.len(),
        s[i] == '#' ==> i + 1 < s.len() && (s[i + 1] == 'b' || s[i + 1] == 'o' || s[i + 1] == 'd'
            || s[i + 1] == 'x' || s[i + 1] == 'e' || s[i + 1] == 'i'),
        s[i] != '#' ==> s[i] == '+' || s[i] == '-' || s[i] == '.' || spec_is_digit(s[i], rdx),
{
    let j = spec_prefix(s, i, rdx)->Some_0.0;
    lemma_prefix_bounds(s, i, rdx);
    if j == i {
        // nothing of the prefix is spelled, so the real begins at i
        let k = spec_sign(s, i).0;
        if spec_ureal(s, k, rdx) is Some {
            if k == i {
                lemma_ureal_first(s, i, rdx);
            }
        }
    }
}

} // verus!
