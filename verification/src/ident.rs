//! The identifier grammar.
//!
//! An identifier is an initial character followed by subsequent
//! characters, a pipe-quoted symbol `|...|` whose elements may be escapes,
//! or a "peculiar" identifier spelled with signs and dots: a lone explicit
//! sign, a sign followed by a dot-subsequent character and further
//! subsequent characters, or a dot followed by the same.  A lone `.` is
//! not an identifier; the dispatcher turns it into the period token.
//!
//! Only recognition matters here: the token carries no spelling, so each
//! parser returns the position after the identifier.

use vstd::prelude::*;
use crate::chars::{
    initial, subsequent, explicit_sign, dot_subsequent, spec_is_initial, spec_is_subsequent,
    spec_is_explicit_sign, spec_is_dot_subsequent,
};
use crate::escape::{
    inline_hex_escape, mnemonic_escape, spec_inline_hex_escape, spec_mnemonic_escape,
};

verus! {

/// End of the run of subsequent characters starting at `i`.
pub open spec fn spec_subsequent_run(s: Seq<char>, i: int) -> int
    decreases s.len() - i,
{
    if i < s.len() && spec_is_subsequent(s[i]) {
        spec_subsequent_run(s, i + 1)
    } else {
        i
    }
}

/// One element of a pipe-quoted symbol: any character but `|` and `\`,
/// an inline hex escape, a mnemonic escape, or `\|`.
pub open spec fn spec_symbol_element(s: Seq<char>, i: int) -> Option<int> {
    if i < s.len() && s[i] != '|' && s[i] != '\\' {
        Some(i + 1)
    } else if i < s.len() && s[i] == '\\' {
        if spec_inline_hex_escape(s, i) is Some {
            Some(spec_inline_hex_escape(s, i)->Some_0.0)
        } else if spec_mnemonic_escape(s, i) is Some {
            Some(spec_mnemonic_escape(s, i)->Some_0.0)
        } else if i + 1 < s.len() && s[i + 1] == '|' {
            Some(i + 2)
        } else {
            None
        }
    } else {
        None
    }
}

/// End of the run of symbol elements starting at `i`.
pub open spec fn spec_symbol_run(s: Seq<char>, i: int) -> int
    decreases s.len() - i,
{
    match spec_symbol_element(s, i) {
        Some(j) => if i < j && j <= s.len() {
            spec_symbol_run(s, j)
        } else {
            i
        },
        None => i,
    }
}

/// A peculiar identifier: a lone explicit sign, or a sign or dot followed
/// by a dot-subsequent character and a run of subsequent characters.
pub open spec fn spec_peculiar_identifier(s: Seq<char>, i: int) -> Option<int> {
    if i < s.len() && spec_is_explicit_sign(s[i]) {
        if i + 1 < s.len() && spec_is_dot_subsequent(s[i + 1]) {
            Some(spec_subsequent_run(s, i + 2))
        } else {
            Some(i + 1)
        }
    } else if i < s.len() && s[i] == '.' {
        if i + 1 < s.len() && spec_is_dot_subsequent(s[i + 1]) {
            Some(spec_subsequent_run(s, i + 2))
        } else {
            None
        }
    } else {
        None
    }
}

pub open spec fn spec_identifier(s: Seq<char>, i: int) -> Option<int> {
    if i < s.len() && spec_is_initial(s[i]) {
        Some(spec_subsequent_run(s, i + 1))
    } else if i < s.len() && s[i] == '|' {
        match spec_symbol_run(s, i + 1) {
            j => if j < s.len() && s[j] == '|' {
                Some(j + 1)
            } else {
                None
            },
        }
    } else {
        spec_peculiar_identifier(s, i)
    }
}

pub proof fn lemma_subsequent_run_bounds(s: Seq<char>, i: int)
    requires
        0 <= i <= s.len(),
    ensures
        i <= spec_subsequent_run(s, i) <= s.len(),
    decreases s.len() - i,
{
    if i < s.len() && spec_is_subsequent(s[i]) {
        lemma_subsequent_run_bounds(s, i + 1);
    }
}

pub proof fn lemma_symbol_run_bounds(s: Seq<char>, i: int)
    requires
        0 <= i <= s.len(),
    ensures
        i <= spec_symbol_run(s, i) <= s.len(),
    decreases s.len() - i,
{
    match spec_symbol_element(s, i) {
        Some(j) => {
            if i < j && j <= s.len() {
                lemma_symbol_run_bounds(s, j);
            }
        },
        None => {},
    }
}

pub proof fn lemma_identifier_bounds(s: Seq<char>, i: int)
    requires
        0 <= i <= s.len(),
        spec_identifier(s, i) is Some,
    ensures
        i < spec_identifier(s, i)->Some_0 <= s.len(),
{
    if i < s.len() && spec_is_initial(s[i]) {
        lemma_subsequent_run_bounds(s, i + 1);
    } else if i < s.len() && s[i] == '|' {
        lemma_symbol_run_bounds(s, i + 1);
    } else {
        if i < s.len() && (spec_is_explicit_sign(s[i]) || s[i] == '.') {
            if i + 1 < s.len() && spec_is_dot_subsequent(s[i + 1]) {
                lemma_subsequent_run_bounds(s, i + 2);
            }
        }
    }
}

/// Consume the run of subsequent characters from `i`.
fn subsequent_run(s: &[char], i: usize) -> (r: usize)
    requires
        i <= s@.len(),
    ensures
        r as int == spec_subsequent_run(s@, i as int),
        i <= r <= s@.len(),
{
    let mut j: usize = i;
    loop
        invariant
            i <= j <= s@.len(),
            spec_subsequent_run(s@, i as int) == spec_subsequent_run(s@, j as int),
        decreases s@.len() - j,
    {
        if j < s.len() && subsequent(s[j]) {
            j = j + 1;
        } else {
            return j;
        }
    }
}

/// One element of a pipe-quoted symbol.
pub fn symbol_element(s: &[char], i: usize) -> (r: Option<usize>)
    requires
        i <= s@.len(),
    ensures
        match r {
            Some(j) => spec_symbol_element(s@, i as int) == Some(j as int) && i < j <= s@.len(),
            None => spec_symbol_element(s@, i as int) is None,
        },
{
    if i < s.len() && s[i] != '|' && s[i] != '\\' {
        Some(i + 1)
    } else if i < s.len() && s[i] == '\\' {
        match inline_hex_escape(s, i) {
            Some((j, _c)) => Some(j),
            None => match mnemonic_escape(s, i) {
                Some((j, _c)) => Some(j),
                None => {
                    if i + 1 < s.len() && s[i + 1] == '|' {
                        Some(i + 2)
                    } else {
                        None
                    }
                },
            },
        }
    } else {
        None
    }
}

pub fn peculiar_identifier(s: &[char], i: usize) -> (r: Option<usize>)
    requires
        i <= s@.len(),
    ensures
        match r {
            Some(j) => spec_peculiar_identifier(s@, i as int) == Some(j as int)
                && i < j <= s@.len(),
            None => spec_peculiar_identifier(s@, i as int) is None,
        },
{
    if i < s.len() && explicit_sign(s[i]) {
        if i + 1 < s.len() && dot_subsequent(s[i + 1]) {
            Some(subsequent_run(s, i + 2))
        } else {
            Some(i + 1)
        }
    } else if i < s.len() && s[i] == '.' {
        if i + 1 < s.len() && dot_subsequent(s[i + 1]) {
            Some(subsequent_run(s, i + 2))
        } else {
            None
        }
    } else {
        None
    }
}

pub fn identifier(s: &[char], i: usize) -> (r: Option<usize>)
    requires
        i <= s@.len(),
    ensures
        match r {
            Some(j) => spec_identifier(s@, i as int) == Some(j as int) && i < j <= s@.len(),
            None => spec_identifier(s@, i as int) is None,
        },
{
    if i < s.len() && initial(s[i]) {
        Some(subsequent_run(s, i + 1))
    } else if i < s.len() && s[i] == '|' {
        let mut j: usize = i + 1;
        loop
            invariant
                i + 1 <= j <= s@.len(),
                spec_symbol_run(s@, i + 1) == spec_symbol_run(s@, j as int),
            ensures
                i + 1 <= j <= s@.len(),
                spec_symbol_run(s@, i + 1) == j as int,
            decreases s@.len() - j,
        {
            match symbol_element(s, j) {
                Some(k) => {
                    j = k;
                },
                None => {
                    break;
                },
            }
        }
        if j < s.len() && s[j] == '|' {
            Some(j + 1)
        } else {
            None
        }
    } else {
        peculiar_identifier(s, i)
    }
}

/// An identifier begins with an initial character, a pipe, a sign or a
/// dot.
pub proof fn lemma_identifier_first(s: Seq<char>, i: int)
    requires
        0 <= i <= s.len(),
        spec_identifier(s, i) is Some,
    ensures
        i < s.len(),
        spec_is_initial(s[i]) || s[i] == '|' || spec_is_explicit_sign(s[i]) || s[i] == '.',
{
}

} // verus!
