//! Escape sequences shared by identifier, string and character grammars.
//!
//! A hex scalar escape is a run of lower-case hexadecimal digits whose
//! value must be a Unicode scalar value (not a surrogate, not above
//! `0x10FFFF`); an invalid value fails the production rather than
//! aborting.  A mnemonic escape is one of `\a`, `\b`, `\t`, `\n`, `\r`.

use vstd::prelude::*;
use crate::token::Radix;
use crate::chars::{digit, spec_is_digit, spec_digit_val};

verus! {

/// Whether `v` is a Unicode scalar value.
pub open spec fn spec_valid_scalar(v: int) -> bool {
    (0 <= v < 0xD800) || (0xE000 <= v <= 0x10FFFF)
}

/// End of the run of hexadecimal digits starting at `i`.
pub open spec fn spec_hex_run_end(s: Seq<char>, i: int) -> int
    decreases s.len() - i,
{
    if i < s.len() && spec_is_digit(s[i], Radix::Hexadecimal) {
        spec_hex_run_end(s, i + 1)
    } else {
        i
    }
}

/// The value of the digit run `s[i..j)`, most significant first.
pub open spec fn spec_hex_val(s: Seq<char>, i: int, j: int) -> int
    decreases j - i,
{
    if i < j {
        spec_hex_val(s, i, j - 1) * 16 + spec_digit_val(s[j - 1])
    } else {
        0
    }
}

/// A hex scalar value: one or more hexadecimal digits denoting a valid
/// Unicode scalar value.  Yields the end position and the value.
pub open spec fn spec_hex_scalar_value(s: Seq<char>, i: int) -> Option<(int, int)> {
    let j = spec_hex_run_end(s, i);
    if j == i {
        None
    } else if spec_valid_scalar(spec_hex_val(s, i, j)) {
        Some((j, spec_hex_val(s, i, j)))
    } else {
        None
    }
}

/// A mnemonic escape `\a`, `\b`, `\t`, `\n` or `\r`, as a scalar value.
pub open spec fn spec_mnemonic_escape(s: Seq<char>, i: int) -> Option<(int, int)> {
    if i + 1 < s.len() && s[i] == '\\' {
        if s[i + 1] == 'a' {
            Some((i + 2, 0x07))
        } else if s[i + 1] == 'b' {
            Some((i + 2, 0x08))
        } else if s[i + 1] == 't' {
            Some((i + 2, 0x09))
        } else if s[i + 1] == 'n' {
            Some((i + 2, 0x0A))
        } else if s[i + 1] == 'r' {
            Some((i + 2, 0x0D))
        } else {
            None
        }
    } else {
        None
    }
}

/// An inline hex escape `\x` followed by a hex scalar value.
pub open spec fn spec_inline_hex_escape(s: Seq<char>, i: int) -> Option<(int, int)> {
    if i + 1 < s.len() && s[i] == '\\' && s[i + 1] == 'x' {
        spec_hex_scalar_value(s, i + 2)
    } else {
        None
    }
}

pub proof fn lemma_hex_run_end_bounds(s: Seq<char>, i: int)
    requires
        0 <= i <= s.len(),
    ensures
        i <= spec_hex_run_end(s, i) <= s.len(),
    decreases s.len() - i,
{
    if i < s.len() && spec_is_digit(s[i], Radix::Hexadecimal) {
        lemma_hex_run_end_bounds(s, i + 1);
    }
}

/// Relies on `char::from_u32`: it returns the character holding exactly
/// the given scalar value, and `None` exactly for surrogates and values
/// above the Unicode maximum.
pub assume_specification[ char::from_u32 ](v: u32) -> (r: Option<char>)
    ensures
        match r {
            Some(c) => c as u32 == v && spec_valid_scalar(v as int),
            None => !spec_valid_scalar(v as int),
        },
;

/// One or more lower-case hex digits, decoded as a Unicode scalar value.
/// Fails if there is no digit or the value is not a valid scalar value.
pub fn hex_scalar_value(s: &[char], i: usize) -> (r: Option<(usize, char)>)
    requires
        i <= s@.len(),
    ensures
        match r {
            Some((j, c)) => spec_hex_scalar_value(s@, i as int) == Some((j as int, c as u32 as int))
                && i < j <= s@.len(),
            None => spec_hex_scalar_value(s@, i as int) is None,
        },
{
    let mut j: usize = i;
    let mut acc: u32 = 0;
    loop
        invariant
            i <= j <= s@.len(),
            spec_hex_run_end(s@, i as int) == spec_hex_run_end(s@, j as int),
            (spec_hex_val(s@, i as int, j as int) <= 0x10FFFF
                && acc as int == spec_hex_val(s@, i as int, j as int))
            || (spec_hex_val(s@, i as int, j as int) > 0x10FFFF && acc == 0x110000),
        ensures
            i <= j <= s@.len(),
            spec_hex_run_end(s@, i as int) == j as int,
            (spec_hex_val(s@, i as int, j as int) <= 0x10FFFF
                && acc as int == spec_hex_val(s@, i as int, j as int))
            || (spec_hex_val(s@, i as int, j as int) > 0x10FFFF && acc == 0x110000),
        decreases s@.len() - j,
    {
        if j < s.len() {
            match digit(s[j], Radix::Hexadecimal) {
                Some(d) => {
                    proof {
                        let ghost v = spec_hex_val(s@, i as int, j as int);
                        assert(spec_hex_val(s@, i as int, j + 1) == v * 16 + spec_digit_val(
                            s@[j as int]));
                        if v > 0x10FFFF {
                            assert(v * 16 >= v) by (nonlinear_arith)
                                requires
                                    v > 0,
                            ;
                        }
                    }
                    if acc <= 0x10FFFF {
                        acc = acc * 16 + d as u32;
                        if acc > 0x10FFFF {
                            acc = 0x110000;
                        }
                    }
                    j = j + 1;
                },
                None => {
                    break;
                },
            }
        } else {
            break;
        }
    }
    if j == i {
        return None;
    }
    if acc < 0xD800 || (0xE000 <= acc && acc <= 0x10FFFF) {
        match char::from_u32(acc) {
            Some(c) => {
                proof {
                    assert(spec_hex_scalar_value(s@, i as int) == Some((j as int, acc as int)));
                }
                Some((j, c))
            },
            None => None,
        }
    } else {
        None
    }
}

/// A mnemonic escape, decoded to its control character.
pub fn mnemonic_escape(s: &[char], i: usize) -> (r: Option<(usize, char)>)
    requires
        i <= s@.len(),
    ensures
        match r {
            Some((j, c)) => spec_mnemonic_escape(s@, i as int) == Some((j as int, c as u32 as int))
                && i < j <= s@.len(),
            None => spec_mnemonic_escape(s@, i as int) is None,
        },
{
    if i < s.len() && i + 1 < s.len() && s[i] == '\\' {
        let c = s[i + 1];
        if c == 'a' {
            Some((i + 2, '\x07'))
        } else if c == 'b' {
            Some((i + 2, '\x08'))
        } else if c == 't' {
            Some((i + 2, '\t'))
        } else if c == 'n' {
            Some((i + 2, '\n'))
        } else if c == 'r' {
            Some((i + 2, '\r'))
        } else {
            None
        }
    } else {
        None
    }
}

/// An inline hex escape `\xH...`, decoded to its character.
pub fn inline_hex_escape(s: &[char], i: usize) -> (r: Option<(usize, char)>)
    requires
        i <= s@.len(),
    ensures
        match r {
            Some((j, c)) => spec_inline_hex_escape(s@, i as int) == Some((j as int, c as u32 as int))
                && i < j <= s@.len(),
            None => spec_inline_hex_escape(s@, i as int) is None,
        },
{
    if i < s.len() && i + 1 < s.len() && s[i] == '\\' && s[i + 1] == 'x' {
        hex_scalar_value(s, i + 2)
    } else {
        None
    }
}

} // verus!
