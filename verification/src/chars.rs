//! Character-class predicates of the lexical grammar.
//!
//! Pure, stateless classifiers: letters, per-radix digits, the special
//! initial and subsequent characters of identifiers, signs, and intraline
//! whitespace.  Each executable predicate returns exactly what its spec
//! counterpart states.

use vstd::prelude::*;
use crate::token::Radix;

verus! {

pub open spec fn spec_is_intraline_whitespace(c: char) -> bool {
    c == ' ' || c == '\t'
}

/// ASCII letters only, as the grammar demands.
pub open spec fn spec_is_letter(c: char) -> bool {
    (97 <= c as u32 && c as u32 <= 122) || (65 <= c as u32 && c as u32 <= 90)
}

pub open spec fn spec_is_special_initial(c: char) -> bool {
    c == '!' || c == '$' || c == '%' || c == '&' || c == '*' || c == '/' || c == ':'
        || c == '<' || c == '=' || c == '>' || c == '?' || c == '^' || c == '_' || c == '~'
}

pub open spec fn spec_is_initial(c: char) -> bool {
    spec_is_letter(c) || spec_is_special_initial(c)
}

pub open spec fn spec_is_explicit_sign(c: char) -> bool {
    c == '+' || c == '-'
}

pub open spec fn spec_is_special_subsequent(c: char) -> bool {
    spec_is_explicit_sign(c) || c == '.' || c == '@'
}

/// The value a character denotes as a digit: `0`..`9` for `'0'`..`'9'`,
/// `10`..`15` for the lower-case `'a'`..`'f'`, and `-1` for anything else.
pub open spec fn spec_digit_val(c: char) -> int {
    if 48 <= c as u32 && c as u32 <= 57 {
        c as u32 - 48
    } else if 97 <= c as u32 && c as u32 <= 102 {
        c as u32 - 97 + 10
    } else {
        -1
    }
}

pub open spec fn spec_radix_base(r: Radix) -> int {
    match r {
        Radix::Binary => 2,
        Radix::Octal => 8,
        Radix::Decimal => 10,
        Radix::Hexadecimal => 16,
    }
}

/// Whether `c` is a digit of the alphabet of radix `r`.
pub open spec fn spec_is_digit(c: char, r: Radix) -> bool {
    0 <= spec_digit_val(c) < spec_radix_base(r)
}

pub open spec fn spec_is_subsequent(c: char) -> bool {
    spec_is_initial(c) || spec_is_digit(c, Radix::Decimal) || spec_is_special_subsequent(c)
}

pub open spec fn spec_is_sign_subsequent(c: char) -> bool {
    spec_is_initial(c) || spec_is_explicit_sign(c) || c == '@'
}

pub open spec fn spec_is_dot_subsequent(c: char) -> bool {
    spec_is_sign_subsequent(c) || c == '.'
}

pub fn intraline_whitespace(c: char) -> (r: bool)
    ensures
        r == spec_is_intraline_whitespace(c),
{
    c == ' ' || c == '\t'
}

pub fn letter(c: char) -> (r: bool)
    ensures
        r == spec_is_letter(c),
{
    let u = c as u32;
    (97 <= u && u <= 122) || (65 <= u && u <= 90)
}

pub fn special_initial(c: char) -> (r: bool)
    ensures
        r == spec_is_special_initial(c),
{
    c == '!' || c == '$' || c == '%' || c == '&' || c == '*' || c == '/' || c == ':'
        || c == '<' || c == '=' || c == '>' || c == '?' || c == '^' || c == '_' || c == '~'
}

pub fn initial(c: char) -> (r: bool)
    ensures
        r == spec_is_initial(c),
{
    letter(c) || special_initial(c)
}

pub fn explicit_sign(c: char) -> (r: bool)
    ensures
        r == spec_is_explicit_sign(c),
{
    c == '+' || c == '-'
}

pub fn special_subsequent(c: char) -> (r: bool)
    ensures
        r == spec_is_special_subsequent(c),
{
    explicit_sign(c) || c == '.' || c == '@'
}

pub fn radix_base(r: Radix) -> (b: u8)
    ensures
        b as int == spec_radix_base(r),
{
    match r {
        Radix::Binary => 2,
        Radix::Octal => 8,
        Radix::Decimal => 10,
        Radix::Hexadecimal => 16,
    }
}

/// The value of `c` as a digit of radix `r`, if it is one.
pub fn digit(c: char, r: Radix) -> (res: Option<u8>)
    ensures
        match res {
            Some(v) => spec_is_digit(c, r) && v as int == spec_digit_val(c),
            None => !spec_is_digit(c, r),
        },
{
    let u = c as u32;
    let v: u32 = if 48 <= u && u <= 57 {
        u - 48
    } else if 97 <= u && u <= 102 {
        u - 97 + 10
    } else {
        return None;
    };
    if v < radix_base(r) as u32 {
        Some(v as u8)
    } else {
        None
    }
}

pub fn subsequent(c: char) -> (r: bool)
    ensures
        r == spec_is_subsequent(c),
{
    initial(c) || digit(c, Radix::Decimal).is_some() || special_subsequent(c)
}

pub fn sign_subsequent(c: char) -> (r: bool)
    ensures
        r == spec_is_sign_subsequent(c),
{
    initial(c) || explicit_sign(c) || c == '@'
}

pub fn dot_subsequent(c: char) -> (r: bool)
    ensures
        r == spec_is_dot_subsequent(c),
{
    sign_subsequent(c) || c == '.'
}

} // verus!
