use scheme_lexer::lexer::lex;
use scheme_lexer::numeric::number;
use scheme_lexer::token::{Flonum, Number, Token};

fn chars(s: &str) -> Vec<char> {
    s.chars().collect()
}

fn one_number(s: &str) -> Number {
    let v = chars(s);
    let (mut toks, rest) = lex(&v);
    assert_eq!(toks.len(), 1, "input {:?} should be one token", s);
    assert_eq!(rest, v.len(), "input {:?} should be fully consumed", s);
    match toks.remove(0) {
        Token::Number(n) => n,
        t => panic!("input {:?} lexed as {:?}, not a number", s, t),
    }
}

#[test]
fn booleans() {
    for (s, expect) in [("#t", true), ("#true", true), ("#f", false), ("#false", false)] {
        let v = chars(s);
        let (toks, rest) = lex(&v);
        assert_eq!(toks.len(), 1);
        match toks[0] {
            Token::Boolean(b) => assert_eq!(b, expect),
            ref t => panic!("{:?} lexed as {:?}", s, t),
        }
        assert_eq!(rest, v.len());
    }
}

#[test]
fn exact_forced_decimal_is_integer() {
    assert!(matches!(one_number("#e1.0"), Number::Integer(1)));
}

#[test]
fn inexact_forced_integer() {
    assert!(matches!(one_number("#i5"), Number::Real(Flonum::FromInteger(5))));
}

#[test]
fn simple_rational() {
    assert!(matches!(one_number("1/3"), Number::Rational { num: 1, den: 3 }));
}

#[test]
fn hex_literal() {
    assert!(matches!(one_number("#x10"), Number::Integer(16)));
}

#[test]
fn binary_literal() {
    assert!(matches!(one_number("#b101"), Number::Integer(5)));
}

#[test]
fn octal_literal() {
    assert!(matches!(one_number("#o17"), Number::Integer(15)));
}

#[test]
fn explicit_decimal_marker() {
    assert!(matches!(one_number("#d42"), Number::Integer(42)));
}

#[test]
fn marker_order_is_free() {
    assert!(matches!(one_number("#x#e10"), Number::Integer(16)));
    assert!(matches!(one_number("#e#x10"), Number::Integer(16)));
}

#[test]
fn oversized_integer_literal_fails() {
    let v = chars("99999999999999999999");
    let (toks, rest) = lex(&v);
    assert_eq!(toks.len(), 0);
    assert_eq!(rest, 0);
}

#[test]
fn largest_integer_literal() {
    assert!(matches!(one_number("9223372036854775807"), Number::Integer(i64::MAX)));
}

#[test]
fn exponent_stays_integer_by_exact_multiplication() {
    assert!(matches!(one_number("12e2"), Number::Integer(1200)));
}

#[test]
fn exponent_overflow_promotes_to_real() {
    let n = one_number("9223372036854775807e2");
    match n {
        Number::Real(Flonum::Decimal { neg, ref digits, point, exp }) => {
            assert!(!neg);
            assert_eq!(digits.iter().collect::<String>(), "9223372036854775807");
            assert_eq!(point, 0);
            assert_eq!(exp, 2);
        },
        other => panic!("lexed as {:?}", other),
    }
}

#[test]
fn decimal_point_form() {
    let n = one_number("1.5e2");
    match n {
        Number::Real(Flonum::Decimal { neg, ref digits, point, exp }) => {
            assert!(!neg);
            assert_eq!(digits.iter().collect::<String>(), "15");
            assert_eq!(point, 1);
            assert_eq!(exp, 2);
        },
        other => panic!("lexed as {:?}", other),
    }
}

#[test]
fn leading_dot_form() {
    let n = one_number(".5");
    match n {
        Number::Real(Flonum::Decimal { neg, ref digits, point, exp }) => {
            assert!(!neg);
            assert_eq!(digits.iter().collect::<String>(), "5");
            assert_eq!(point, 1);
            assert_eq!(exp, 0);
        },
        other => panic!("lexed as {:?}", other),
    }
}

#[test]
fn negated_decimal() {
    let n = one_number("-2.5");
    assert!(matches!(n, Number::Real(Flonum::Decimal { neg: true, .. })));
}

#[test]
fn exact_of_dot_form_with_exponent() {
    assert!(matches!(one_number("#e.5e1"), Number::Integer(5)));
}

#[test]
fn exact_of_trailing_zeros() {
    assert!(matches!(one_number("#e2.500e2"), Number::Integer(250)));
}

#[test]
fn exact_of_non_integer_decimal_fails() {
    let v = chars("#e1.5");
    let (toks, rest) = lex(&v);
    assert_eq!(toks.len(), 0);
    assert_eq!(rest, 0);
}

#[test]
fn exact_of_infinity_fails() {
    let v = chars("#e+inf.0");
    let (toks, rest) = lex(&v);
    assert_eq!(toks.len(), 0);
    assert_eq!(rest, 0);
}

#[test]
fn inexact_rational() {
    assert!(matches!(one_number("#i1/2"), Number::Real(Flonum::FromRational { num: 1, den: 2 })));
}

#[test]
fn infinities_and_nans() {
    assert!(matches!(one_number("+inf.0"), Number::Real(Flonum::PosInfinity)));
    assert!(matches!(one_number("-inf.0"), Number::Real(Flonum::NegInfinity)));
    assert!(matches!(one_number("+nan.0"), Number::Real(Flonum::NotANumber)));
    assert!(matches!(one_number("-nan.0"), Number::Real(Flonum::NotANumber)));
}

#[test]
fn zero_denominator_falls_back_to_integer() {
    let v = chars("1/0");
    let (toks, rest) = lex(&v);
    assert_eq!(toks.len(), 2);
    assert!(matches!(toks[0], Token::Number(Number::Integer(1))));
    assert!(matches!(toks[1], Token::Identifier));
    assert_eq!(rest, v.len());
}

#[test]
fn negative_exponent_is_not_a_suffix() {
    let v = chars("1e-3");
    let (toks, rest) = lex(&v);
    assert_eq!(toks.len(), 2);
    assert!(matches!(toks[0], Token::Number(Number::Integer(1))));
    assert!(matches!(toks[1], Token::Identifier));
    assert_eq!(rest, v.len());
}

#[test]
fn number_rejects_plain_word() {
    let v = chars("inf");
    assert!(number(&v, 0).is_none());
}

#[test]
fn trailing_dot_decimal() {
    let n = one_number("1.");
    match n {
        Number::Real(Flonum::Decimal { neg, ref digits, point, exp }) => {
            assert!(!neg);
            assert_eq!(digits.iter().collect::<String>(), "1");
            assert_eq!(point, 0);
            assert_eq!(exp, 0);
        },
        other => panic!("lexed as {:?}", other),
    }
}

#[test]
fn leading_dot_with_exponent() {
    let n = one_number(".5e3");
    match n {
        Number::Real(Flonum::Decimal { neg, ref digits, point, exp }) => {
            assert!(!neg);
            assert_eq!(digits.iter().collect::<String>(), "5");
            assert_eq!(point, 1);
            assert_eq!(exp, 3);
        },
        other => panic!("lexed as {:?}", other),
    }
}

#[test]
fn exact_of_trailing_dot() {
    assert!(matches!(one_number("#e1."), Number::Integer(1)));
}

#[test]
fn oversized_exponent_is_malformed() {
    // 10^19 leaves the signed 64-bit range: the literal fails as a
    // whole, with no fallback to the bare integer.
    let v = chars("7e19");
    let (toks, rest) = lex(&v);
    assert_eq!(toks.len(), 0);
    assert_eq!(rest, 0);
}

#[test]
fn oversized_exponent_on_decimal_form_is_malformed() {
    let v = chars("1.5e300");
    let (toks, rest) = lex(&v);
    assert_eq!(toks.len(), 0);
    assert_eq!(rest, 0);
}

#[test]
fn oversized_exponent_on_dot_form_is_malformed() {
    // The dot form fails as a literal; the dispatcher then takes `.`
    // as the period token and stops at the malformed remainder.
    let v = chars(".5e19");
    let (toks, rest) = lex(&v);
    assert_eq!(toks.len(), 1);
    assert!(matches!(toks[0], Token::Period));
    assert_eq!(rest, 1);
}

#[test]
fn largest_applicable_exponent() {
    assert!(matches!(one_number("1e18"), Number::Integer(1_000_000_000_000_000_000)));
}

#[test]
fn exactness_before_explicit_decimal_marker() {
    assert!(matches!(one_number("#e#d5"), Number::Integer(5)));
    assert!(matches!(one_number("#i#d5"), Number::Real(Flonum::FromInteger(5))));
    assert!(matches!(one_number("#d#e5"), Number::Integer(5)));
}
