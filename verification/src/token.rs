//! The token and number data model.
//!
//! A token is a tagged union with one case per lexical category.  Numbers
//! are exact integers, exact rationals, or inexact reals.  An inexact real
//! is held symbolically: the crate keeps the exact description the literal
//! spelled (a signed decimal significand with a power-of-ten exponent, an
//! integer, a quotient, an infinity or a NaN) rather than a machine float,
//! so that every consequence of the grammar stays provable; a consumer
//! realises the description as a machine float if it needs one.
//!
//! Each executable type has a spec-level model reached through `View`.
//! Characters are modelled by their Unicode scalar values, so a model
//! carries `int` where the executable value carries `char`.

use vstd::prelude::*;

verus! {

/// An inexact (floating) real value, described symbolically.
#[derive(Debug, Clone)]
pub enum Flonum {
    /// The literal `+inf.0`.
    PosInfinity,
    /// The literal `-inf.0`.
    NegInfinity,
    /// The literals `+nan.0` and `-nan.0` (the sign is not kept).
    NotANumber,
    /// The value (-1)^`neg` * D * 10^(`exp` - `point`), where D is the
    /// integer spelled by `digits` and `point` counts how many of the
    /// trailing digits stood after the decimal point.
    Decimal { neg: bool, digits: Vec<char>, point: usize, exp: u32 },
    /// The integer `i`, coerced to an inexact value.
    FromInteger(i64),
    /// The quotient `num` / `den`, coerced to an inexact value.
    FromRational { num: i64, den: u32 },
}

/// A numeric literal's value: exact integer, exact rational, or inexact real.
#[derive(Debug, Clone)]
pub enum Number {
    Integer(i64),
    Rational { num: i64, den: u32 },
    Real(Flonum),
}

/// One lexical token.
#[derive(Debug, Clone)]
pub enum Token {
    /// An identifier (the spelling is not captured).
    Identifier,
    Boolean(bool),
    Number(Number),
    /// A character literal's scalar value.
    Character(char),
    /// A string literal's decoded scalar values.
    Str(Vec<char>),
    OpenParen,
    CloseParen,
    /// `#(`
    OpenVec,
    /// `#u8(`
    OpenByteVec,
    Quote,
    BackQuote,
    Comma,
    CommaAt,
    Period,
}

/// An exactness marker in a numeric literal's prefix.
#[derive(Debug, Clone, Copy, PartialEq, Eq, Structural)]
pub enum Exactness {
    Inexact,
    Exact,
    Unspecified,
}

/// The radix a numeric literal is read in.
#[derive(Debug, Clone, Copy, PartialEq, Eq, Structural)]
pub enum Radix {
    Binary,
    Octal,
    Decimal,
    Hexadecimal,
}

/// Spec-level model of `Flonum`.
pub enum FlonumModel {
    PosInfinity,
    NegInfinity,
    NotANumber,
    Decimal { neg: bool, digits: Seq<char>, point: int, exp: int },
    FromInteger(int),
    FromRational { num: int, den: int },
}

/// Spec-level model of `Number`.
pub enum NumberModel {
    Integer(int),
    Rational { num: int, den: int },
    Real(FlonumModel),
}

/// Spec-level model of `Token`; characters appear as scalar values.
pub enum TokenModel {
    Identifier,
    Boolean(bool),
    Number(NumberModel),
    Character(int),
    Str(Seq<int>),
    OpenParen,
    CloseParen,
    OpenVec,
    OpenByteVec,
    Quote,
    BackQuote,
    Comma,
    CommaAt,
    Period,
}

impl View for Flonum {
    type V = FlonumModel;

    open spec fn view(&self) -> FlonumModel {
        match self {
            Flonum::PosInfinity => FlonumModel::PosInfinity,
            Flonum::NegInfinity => FlonumModel::NegInfinity,
            Flonum::NotANumber => FlonumModel::NotANumber,
            Flonum::Decimal { neg, digits, point, exp } => FlonumModel::Decimal {
                neg: *neg,
                digits: digits@,
                point: *point as int,
                exp: *exp as int,
            },
            Flonum::FromInteger(i) => FlonumModel::FromInteger(*i as int),
            Flonum::FromRational { num, den } => FlonumModel::FromRational {
                num: *num as int,
                den: *den as int,
            },
        }
    }
}

impl View for Number {
    type V = NumberModel;

    open spec fn view(&self) -> NumberModel {
        match self {
            Number::Integer(i) => NumberModel::Integer(*i as int),
            Number::Rational { num, den } => NumberModel::Rational {
                num: *num as int,
                den: *den as int,
            },
            Number::Real(f) => NumberModel::Real(f@),
        }
    }
}

impl View for Token {
    type V = TokenModel;

    open spec fn view(&self) -> TokenModel {
        match self {
            Token::Identifier => TokenModel::Identifier,
            Token::Boolean(b) => TokenModel::Boolean(*b),
            Token::Number(n) => TokenModel::Number(n@),
            Token::Character(c) => TokenModel::Character(*c as u32 as int),
            Token::Str(v) => TokenModel::Str(v@.map_values(|c: char| c as u32 as int)),
            Token::OpenParen => TokenModel::OpenParen,
            Token::CloseParen => TokenModel::CloseParen,
            Token::OpenVec => TokenModel::OpenVec,
            Token::OpenByteVec => TokenModel::OpenByteVec,
            Token::Quote => TokenModel::Quote,
            Token::BackQuote => TokenModel::BackQuote,
            Token::Comma => TokenModel::Comma,
            Token::CommaAt => TokenModel::CommaAt,
            Token::Period => TokenModel::Period,
        }
    }
}

} // verus!
