//! Boolean, character and string literals, and bytevector elements.
//!
//! A boolean is `#t`, `#f`, `#true` or `#false`, longest spelling first.
//! A character literal `#\...` tries a character name, then a hex scalar
//! escape `#\x...`, then a single raw character, so `#\newline` is the
//! newline character and `#\x41` is `A`.  A string literal decodes its
//! escapes and drops line continuations.  A bytevector element is a
//! numeric literal that must be an exact integer of the unsigned 8-bit
//! range.

use vstd::prelude::*;
use crate::token::{Number, NumberModel};
use crate::chars::{intraline_whitespace, spec_is_intraline_whitespace};
use crate::atmosphere::{line_ending, spec_line_ending};
use crate::escape::{
    hex_scalar_value, mnemonic_escape, spec_hex_scalar_value, spec_mnemonic_escape,
    lemma_hex_run_end_bounds,
};
use crate::numeric::number;
use crate::numeric::spec_number;

verus! {

/// A boolean literal, longest spelling first.
pub open spec fn spec_boolean(s: Seq<char>, i: int) -> Option<(int, bool)> {
    if i + 4 < s.len() && s[i] == '#' && s[i + 1] == 't' && s[i + 2] == 'r' && s[i + 3] == 'u'
        && s[i + 4] == 'e' {
        Some((i + 5, true))
    } else if i + 5 < s.len() && s[i] == '#' && s[i + 1] == 'f' && s[i + 2] == 'a' && s[i + 3]
        == 'l' && s[i + 4] == 's' && s[i + 5] == 'e' {
        Some((i + 6, false))
    } else if i + 1 < s.len() && s[i] == '#' && s[i + 1] == 't' {
        Some((i + 2, true))
    } else if i + 1 < s.len() && s[i] == '#' && s[i + 1] == 'f' {
        Some((i + 2, false))
    } else {
        None
    }
}

pub fn boolean(s: &[char], i: usize) -> (res: Option<(usize, bool)>)
    requires
        i <= s@.len(),
    ensures
        match res {
            Some((j, b)) => spec_boolean(s@, i as int) == Some((j as int, b)) && i < j <= s@.len(),
            None => spec_boolean(s@, i as int) is None,
        },
{
    if s.len() - i > 4 && s[i] == '#' && s[i + 1] == 't' && s[i + 2] == 'r' && s[i + 3] == 'u'
        && s[i + 4] == 'e' {
        Some((i + 5, true))
    } else if s.len() - i > 5 && s[i] == '#' && s[i + 1] == 'f' && s[i + 2] == 'a' && s[i + 3]
        == 'l' && s[i + 4] == 's' && s[i + 5] == 'e' {
        Some((i + 6, false))
    } else if s.len() - i > 1 && s[i] == '#' && s[i + 1] == 't' {
        Some((i + 2, true))
    } else if s.len() - i > 1 && s[i] == '#' && s[i + 1] == 'f' {
        Some((i + 2, false))
    } else {
        None
    }
}

/// A named character, as (end, scalar value).
pub open spec fn spec_character_name(s: Seq<char>, i: int) -> Option<(int, int)> {
    if i + 4 < s.len() && s[i] == 'a' && s[i + 1] == 'l' && s[i + 2] == 'a' && s[i + 3] == 'r'
        && s[i + 4] == 'm' {
        Some((i + 5, 0x07))
    } else if i + 8 < s.len() && s[i] == 'b' && s[i + 1] == 'a' && s[i + 2] == 'c' && s[i + 3]
        == 'k' && s[i + 4] == 's' && s[i + 5] == 'p' && s[i + 6] == 'a' && s[i + 7] == 'c' && s[i
        + 8] == 'e' {
        Some((i + 9, 0x08))
    } else if i + 5 < s.len() && s[i] == 'd' && s[i + 1] == 'e' && s[i + 2] == 'l' && s[i + 3]
        == 'e' && s[i + 4] == 't' && s[i + 5] == 'e' {
        Some((i + 6, 0x7F))
    } else if i + 6 < s.len() && s[i] == 'n' && s[i + 1] == 'e' && s[i + 2] == 'w' && s[i + 3]
        == 'l' && s[i + 4] == 'i' && s[i + 5] == 'n' && s[i + 6] == 'e' {
        Some((i + 7, 0x0A))
    } else if i + 3 < s.len() && s[i] == 'n' && s[i + 1] == 'u' && s[i + 2] == 'l' && s[i + 3]
        == 'l' {
        Some((i + 4, 0x00))
    } else if i + 5 < s.len() && s[i] == 'r' && s[i + 1] == 'e' && s[i + 2] == 't' && s[i + 3]
        == 'u' && s[i + 4] == 'r' && s[i + 5] == 'n' {
        Some((i + 6, 0x0D))
    } else if i + 4 < s.len() && s[i] == 's' && s[i + 1] == 'p' && s[i + 2] == 'a' && s[i + 3]
        == 'c' && s[i + 4] == 'e' {
        Some((i + 5, 0x20))
    } else if i + 2 < s.len() && s[i] == 't' && s[i + 1] == 'a' && s[i + 2] == 'b' {
        Some((i + 3, 0x09))
    } else {
        None
    }
}

pub fn character_name(s: &[char], i: usize) -> (res: Option<(usize, char)>)
    requires
        i <= s@.len(),
    ensures
        match res {
            Some((j, c)) => spec_character_name(s@, i as int) == Some((j as int, c as u32 as int))
                && i < j <= s@.len(),
            None => spec_character_name(s@, i as int) is None,
        },
{
    if s.len() - i > 4 && s[i] == 'a' && s[i + 1] == 'l' && s[i + 2] == 'a' && s[i + 3] == 'r'
        && s[i + 4] == 'm' {
        Some((i + 5, '\x07'))
    } else if s.len() - i > 8 && s[i] == 'b' && s[i + 1] == 'a' && s[i + 2] == 'c' && s[i + 3]
        == 'k' && s[i + 4] == 's' && s[i + 5] == 'p' && s[i + 6] == 'a' && s[i + 7] == 'c' && s[i
        + 8] == 'e' {
        Some((i + 9, '\x08'))
    } else if s.len() - i > 5 && s[i] == 'd' && s[i + 1] == 'e' && s[i + 2] == 'l' && s[i + 3]
        == 'e' && s[i + 4] == 't' && s[i + 5] == 'e' {
        Some((i + 6, '\x7F'))
    } else if s.len() - i > 6 && s[i] == 'n' && s[i + 1] == 'e' && s[i + 2] == 'w' && s[i + 3]
        == 'l' && s[i + 4] == 'i' && s[i + 5] == 'n' && s[i + 6] == 'e' {
        Some((i + 7, '\n'))
    } else if s.len() - i > 3 && s[i] == 'n' && s[i + 1] == 'u' && s[i + 2] == 'l' && s[i + 3]
        == 'l' {
        Some((i + 4, '\0'))
    } else if s.len() - i > 5 && s[i] == 'r' && s[i + 1] == 'e' && s[i + 2] == 't' && s[i + 3]
        == 'u' && s[i + 4] == 'r' && s[i + 5] == 'n' {
        Some((i + 6, '\r'))
    } else if s.len() - i > 4 && s[i] == 's' && s[i + 1] == 'p' && s[i + 2] == 'a' && s[i + 3]
        == 'c' && s[i + 4] == 'e' {
        Some((i + 5, ' '))
    } else if s.len() - i > 2 && s[i] == 't' && s[i + 1] == 'a' && s[i + 2] == 'b' {
        Some((i + 3, '\t'))
    } else {
        None
    }
}

/// A character literal `#\...`: a character name, a hex scalar escape,
/// or one raw character, in that order.
pub open spec fn spec_character(s: Seq<char>, i: int) -> Option<(int, int)> {
    if i + 1 < s.len() && s[i] == '#' && s[i + 1] == '\\' {
        match spec_character_name(s, i + 2) {
            Some((j, v)) => Some((j, v)),
            None => {
                if i + 2 < s.len() && s[i + 2] == 'x' && spec_hex_scalar_value(s, i + 3) is Some {
                    spec_hex_scalar_value(s, i + 3)
                } else if i + 2 < s.len() {
                    Some((i + 3, s[i + 2] as u32 as int))
                } else {
                    None
                }
            },
        }
    } else {
        None
    }
}

pub fn character(s: &[char], i: usize) -> (res: Option<(usize, char)>)
    requires
        i <= s@.len(),
    ensures
        match res {
            Some((j, c)) => spec_character(s@, i as int) == Some((j as int, c as u32 as int)) && i
                < j <= s@.len(),
            None => spec_character(s@, i as int) is None,
        },
{
    if s.len() - i > 1 && s[i] == '#' && s[i + 1] == '\\' {
        match character_name(s, i + 2) {
            Some((j, c)) => Some((j, c)),
            None => {
                if s.len() - i > 2 && s[i + 2] == 'x' {
                    match hex_scalar_value(s, i + 3) {
                        Some((j, c)) => Some((j, c)),
                        None => Some((i + 3, s[i + 2])),
                    }
                } else if s.len() - i > 2 {
                    Some((i + 3, s[i + 2]))
                } else {
                    None
                }
            },
        }
    } else {
        None
    }
}

/// End of a run of intraline whitespace.
pub open spec fn spec_intraline_run(s: Seq<char>, i: int) -> int
    decreases s.len() - i,
{
    if i < s.len() && spec_is_intraline_whitespace(s[i]) {
        spec_intraline_run(s, i + 1)
    } else {
        i
    }
}

/// One string element, as (end, decoded scalar value): a plain character,
/// a mnemonic escape, `\"`, `\\`, a line continuation (which contributes
/// no character), or an inline hex escape.
pub open spec fn spec_string_element(s: Seq<char>, i: int) -> Option<(int, Option<int>)> {
    if i < s.len() && s[i] != '"' && s[i] != '\\' {
        Some((i + 1, Some(s[i] as u32 as int)))
    } else if spec_mnemonic_escape(s, i) is Some {
        Some((spec_mnemonic_escape(s, i)->Some_0.0, Some(spec_mnemonic_escape(s, i)->Some_0.1)))
    } else if i + 1 < s.len() && s[i] == '\\' && s[i + 1] == '"' {
        Some((i + 2, Some(34)))
    } else if i + 1 < s.len() && s[i] == '\\' && s[i + 1] == '\\' {
        Some((i + 2, Some(92)))
    } else if i < s.len() && s[i] == '\\' && spec_line_ending(
        s,
        spec_intraline_run(s, i + 1),
    ) is Some {
        Some(
            (
                spec_intraline_run(s, spec_line_ending(s, spec_intraline_run(s, i + 1))->Some_0),
                None,
            ),
        )
    } else if i + 1 < s.len() && s[i] == '\\' && s[i + 1] == 'x' && spec_hex_scalar_value(
        s,
        i + 2,
    ) is Some {
        Some(
            (
                spec_hex_scalar_value(s, i + 2)->Some_0.0,
                Some(spec_hex_scalar_value(s, i + 2)->Some_0.1),
            ),
        )
    } else {
        None
    }
}

/// The rest of a string literal after the opening quote: elements up to
/// the closing quote, as (position after the quote, decoded values).
pub open spec fn spec_string_body(s: Seq<char>, j: int) -> Option<(int, Seq<int>)>
    decreases s.len() - j,
{
    match spec_string_element(s, j) {
        Some((k, ov)) => if j < k <= s.len() {
            match spec_string_body(s, k) {
                Some((e, rest)) => Some(
                    (
                        e,
                        match ov {
                            Some(v) => seq![v] + rest,
                            None => rest,
                        },
                    ),
                ),
                None => None,
            }
        } else {
            None
        },
        None => if j < s.len() && s[j] == '"' {
            Some((j + 1, Seq::empty()))
        } else {
            None
        },
    }
}

/// A string literal, as (end, decoded scalar values).
pub open spec fn spec_string(s: Seq<char>, i: int) -> Option<(int, Seq<int>)> {
    if i < s.len() && s[i] == '"' {
        spec_string_body(s, i + 1)
    } else {
        None
    }
}

pub proof fn lemma_intraline_run_bounds(s: Seq<char>, i: int)
    requires
        0 <= i <= s.len(),
    ensures
        i <= spec_intraline_run(s, i) <= s.len(),
    decreases s.len() - i,
{
    if i < s.len() && spec_is_intraline_whitespace(s[i]) {
        lemma_intraline_run_bounds(s, i + 1);
    }
}

pub fn intraline_run(s: &[char], i: usize) -> (j: usize)
    requires
        i <= s@.len(),
    ensures
        j as int == spec_intraline_run(s@, i as int),
        i <= j <= s@.len(),
{
    let mut j: usize = i;
    loop
        invariant
            i <= j <= s@.len(),
            spec_intraline_run(s@, i as int) == spec_intraline_run(s@, j as int),
        decreases s@.len() - j,
    {
        if j < s.len() && intraline_whitespace(s[j]) {
            j = j + 1;
        } else {
            return j;
        }
    }
}

pub fn string_element(s: &[char], i: usize) -> (res: Option<(usize, Option<char>)>)
    requires
        i <= s@.len(),
    ensures
        match res {
            Some((j, oc)) => spec_string_element(s@, i as int) == Some(
                (
                    j as int,
                    match oc {
                        Some(c) => Some(c as u32 as int),
                        None => None,
                    },
                ),
            ) && i < j <= s@.len(),
            None => spec_string_element(s@, i as int) is None,
        },
{
    if i < s.len() && s[i] != '"' && s[i] != '\\' {
        Some((i + 1, Some(s[i])))
    } else {
        match mnemonic_escape(s, i) {
            Some((j, c)) => Some((j, Some(c))),
            None => {
                if s.len() - i > 1 && s[i] == '\\' && s[i + 1] == '"' {
                    Some((i + 2, Some('"')))
                } else if s.len() - i > 1 && s[i] == '\\' && s[i + 1] == '\\' {
                    Some((i + 2, Some('\\')))
                } else if i < s.len() && s[i] == '\\' {
                    let a = intraline_run(s, i + 1);
                    match line_ending(s, a) {
                        Some(b) => {
                            let c = intraline_run(s, b);
                            Some((c, None))
                        },
                        None => {
                            if s.len() - i > 1 && s[i + 1] == 'x' {
                                match hex_scalar_value(s, i + 2) {
                                    Some((j, c)) => Some((j, Some(c))),
                                    None => None,
                                }
                            } else {
                                None
                            }
                        },
                    }
                } else {
                    None
                }
            },
        }
    }
}

/// A string literal: `"` elements `"`, with escapes decoded.
pub fn string(s: &[char], i: usize) -> (res: Option<(usize, Vec<char>)>)
    requires
        i <= s@.len(),
    ensures
        match res {
            Some((j, v)) => spec_string(s@, i as int) == Some(
                (j as int, v@.map_values(|c: char| c as u32 as int)),
            ) && i < j <= s@.len(),
            None => spec_string(s@, i as int) is None,
        },
{
    if i < s.len() && s[i] == '"' {
        let mut acc: Vec<char> = Vec::new();
        let mut cur: usize = i + 1;
        loop
            invariant
                i < s@.len(),
                s@[i as int] == '"',
                i + 1 <= cur <= s@.len(),
                match spec_string_body(s@, cur as int) {
                    Some((e, rest)) => spec_string_body(s@, i + 1) == Some(
                        (e, acc@.map_values(|c: char| c as u32 as int) + rest),
                    ),
                    None => spec_string_body(s@, i + 1) is None,
                },
            decreases s@.len() - cur,
        {
            match string_element(s, cur) {
                Some((k, oc)) => {
                    proof {
                        let prev = acc@.map_values(|c: char| c as u32 as int);
                        match spec_string_body(s@, k as int) {
                            Some((e, rest)) => {
                                match spec_string_element(s@, cur as int)->Some_0.1 {
                                    Some(v) => {
                                        assert(prev + (seq![v] + rest) =~= (prev + seq![v])
                                            + rest);
                                    },
                                    None => {},
                                }
                            },
                            None => {},
                        }
                    }
                    match oc {
                        Some(c) => {
                            acc.push(c);
                            proof {
                                assert(acc@.map_values(|cc: char| cc as u32 as int) =~= acc@
                                    .subrange(0, acc@.len() - 1).map_values(
                                    |cc: char| cc as u32 as int,
                                ) + seq![c as u32 as int]);
                            }
                        },
                        None => {},
                    }
                    cur = k;
                },
                None => {
                    if cur < s.len() && s[cur] == '"' {
                        proof {
                            let built = acc@.map_values(|c: char| c as u32 as int);
                            assert(built + Seq::<int>::empty() =~= built);
                        }
                        return Some((cur + 1, acc));
                    } else {
                        return None;
                    }
                },
            }
        }
    } else {
        None
    }
}

/// A bytevector element: a numeric literal that is an exact integer of
/// the unsigned 8-bit range.
pub open spec fn spec_byte(s: Seq<char>, i: int) -> Option<(int, int)> {
    match spec_number(s, i) {
        Some((j, n)) => match n {
            NumberModel::Integer(v) => if 0 <= v <= 255 {
                Some((j, v))
            } else {
                None
            },
            _ => None,
        },
        None => None,
    }
}

pub fn byte(s: &[char], i: usize) -> (res: Option<(usize, u8)>)
    requires
        i <= s@.len(),
    ensures
        match res {
            Some((j, v)) => spec_byte(s@, i as int) == Some((j as int, v as int)) && i < j
                <= s@.len(),
            None => spec_byte(s@, i as int) is None,
        },
{
    match number(s, i) {
        Some((j, n)) => match n {
            Number::Integer(v) => {
                if 0 <= v && v <= 255 {
                    Some((j, v as u8))
                } else {
                    None
                }
            },
            _ => None,
        },
        None => None,
    }
}

/// End of a run of bytevector elements.
pub open spec fn spec_bytes_run(s: Seq<char>, j: int) -> int
    decreases s.len() - j,
{
    match spec_byte(s, j) {
        Some((k, v)) => if j < k <= s.len() {
            spec_bytes_run(s, k)
        } else {
            j
        },
        None => j,
    }
}

/// A bytevector literal `#u8( byte* )`, recognised but not collected.
pub open spec fn spec_bytevector(s: Seq<char>, i: int) -> Option<int> {
    if i + 3 < s.len() && s[i] == '#' && s[i + 1] == 'u' && s[i + 2] == '8' && s[i + 3] == '(' {
        let j = spec_bytes_run(s, i + 4);
        if j < s.len() && s[j] == ')' {
            Some(j + 1)
        } else {
            None
        }
    } else {
        None
    }
}

pub fn bytevector(s: &[char], i: usize) -> (res: Option<usize>)
    requires
        i <= s@.len(),
    ensures
        match res {
            Some(j) => spec_bytevector(s@, i as int) == Some(j as int) && i < j <= s@.len(),
            None => spec_bytevector(s@, i as int) is None,
        },
{
    if s.len() - i > 3 && s[i] == '#' && s[i + 1] == 'u' && s[i + 2] == '8' && s[i + 3] == '(' {
        let mut j: usize = i + 4;
        loop
            invariant
                i + 4 <= j <= s@.len(),
                spec_bytes_run(s@, i + 4) == spec_bytes_run(s@, j as int),
            ensures
                i + 4 <= j <= s@.len(),
                j as int == spec_bytes_run(s@, i + 4),
            decreases s@.len() - j,
        {
            match byte(s, j) {
                Some((k, _v)) => {
                    j = k;
                },
                None => {
                    break;
                },
            }
        }
        if j < s.len() && s[j] == ')' {
            Some(j + 1)
        } else {
            None
        }
    } else {
        None
    }
}

pub proof fn lemma_boolean_bounds(s: Seq<char>, i: int)
    requires
        0 <= i <= s.len(),
        spec_boolean(s, i) is Some,
    ensures
        i < spec_boolean(s, i)->Some_0.0 <= s.len(),
{
}

pub proof fn lemma_character_bounds(s: Seq<char>, i: int)
    requires
        0 <= i <= s.len(),
        spec_character(s, i) is Some,
    ensures
        i < spec_character(s, i)->Some_0.0 <= s.len(),
{
    if i + 1 < s.len() && s[i] == '#' && s[i + 1] == '\\' {
        if spec_character_name(s, i + 2) is Some {
        } else if i + 2 < s.len() && s[i + 2] == 'x' && spec_hex_scalar_value(s, i + 3) is Some {
            lemma_hex_run_end_bounds(s, i + 3);
        }
    }
}

pub proof fn lemma_string_body_bounds(s: Seq<char>, j: int)
    requires
        0 <= j <= s.len(),
        spec_string_body(s, j) is Some,
    ensures
        j < spec_string_body(s, j)->Some_0.0 <= s.len(),
    decreases s.len() - j,
{
    match spec_string_element(s, j) {
        Some((k, ov)) => {
            if j < k <= s.len() {
                lemma_string_body_bounds(s, k);
            }
        },
        None => {},
    }
}

pub proof fn lemma_string_bounds(s: Seq<char>, i: int)
    requires
        0 <= i <= s.len(),
        spec_string(s, i) is Some,
    ensures
        i < spec_string(s, i)->Some_0.0 <= s.len(),
{
    lemma_string_body_bounds(s, i + 1);
}

} // verus!
