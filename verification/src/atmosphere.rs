//! Intertoken space: whitespace, comments and directives.
//!
//! Atmosphere carries no semantic value and may appear between any two
//! tokens.  A line comment runs from `;` to (not including) the next line
//! ending.  A block comment `#| ... |#` nests to arbitrary depth; its body
//! is scanned with an explicit depth counter, so deeply nested comments
//! cannot exhaust the call stack.  A datum comment `#;` would have to
//! consume one whole datum; the datum reader is outside this component, so
//! that production is declared and always fails.
//!
//! Every parser takes the input and a position and returns the position
//! after what it consumed; each is proved equal to its spec counterpart.

use vstd::prelude::*;
use crate::chars::{intraline_whitespace, spec_is_intraline_whitespace};

verus! {

pub open spec fn spec_line_ending(s: Seq<char>, i: int) -> Option<int> {
    if i < s.len() && s[i] == '\n' {
        Some(i + 1)
    } else if i < s.len() && s[i] == '\r' {
        if i + 1 < s.len() && s[i + 1] == '\n' {
            Some(i + 2)
        } else {
            Some(i + 1)
        }
    } else {
        None
    }
}

pub open spec fn spec_whitespace(s: Seq<char>, i: int) -> Option<int> {
    if i < s.len() && spec_is_intraline_whitespace(s[i]) {
        Some(i + 1)
    } else {
        spec_line_ending(s, i)
    }
}

/// End of a line comment's text: the first position at or after `j`
/// holding a line ending, or the end of input.
pub open spec fn spec_line_comment_end(s: Seq<char>, j: int) -> int
    decreases s.len() - j,
{
    if j < s.len() && s[j] != '\n' && s[j] != '\r' {
        spec_line_comment_end(s, j + 1)
    } else {
        j
    }
}

pub open spec fn spec_line_comment(s: Seq<char>, i: int) -> Option<int> {
    if i < s.len() && s[i] == ';' {
        Some(spec_line_comment_end(s, i + 1))
    } else {
        None
    }
}

/// Scan a block comment's body from `j` with `d` unclosed inner openers:
/// the position after the closer that balances the outermost opener, or
/// `None` if the input ends first.
pub open spec fn spec_comment_scan(s: Seq<char>, j: int, d: nat) -> Option<int>
    decreases s.len() - j,
{
    if j + 2 <= s.len() && s[j] == '|' && s[j + 1] == '#' {
        if d == 0 {
            Some(j + 2)
        } else {
            spec_comment_scan(s, j + 2, (d - 1) as nat)
        }
    } else if j + 2 <= s.len() && s[j] == '#' && s[j + 1] == '|' {
        spec_comment_scan(s, j + 2, d + 1)
    } else if j < s.len() {
        spec_comment_scan(s, j + 1, d)
    } else {
        None
    }
}

pub open spec fn spec_nested_comment(s: Seq<char>, i: int) -> Option<int> {
    if i + 2 <= s.len() && s[i] == '#' && s[i + 1] == '|' {
        spec_comment_scan(s, i + 2, 0)
    } else {
        None
    }
}

/// A datum: outside this component, so the production always fails.
pub open spec fn spec_datum(s: Seq<char>, i: int) -> Option<int> {
    None
}

pub open spec fn spec_comment(s: Seq<char>, i: int) -> Option<int> {
    if spec_line_comment(s, i) is Some {
        spec_line_comment(s, i)
    } else if spec_nested_comment(s, i) is Some {
        spec_nested_comment(s, i)
    } else if i + 2 <= s.len() && s[i] == '#' && s[i + 1] == ';' {
        spec_datum(s, i + 2)
    } else {
        None
    }
}

/// `fold-case` as it appears in both directives, checked at `i`.
pub open spec fn spec_fold_case_at(s: Seq<char>, i: int) -> bool {
    s.len() - i > 8 && s[i] == 'f' && s[i + 1] == 'o' && s[i + 2] == 'l' && s[i + 3] == 'd'
        && s[i + 4] == '-' && s[i + 5] == 'c' && s[i + 6] == 'a' && s[i + 7] == 's'
        && s[i + 8] == 'e'
}

pub open spec fn spec_directive(s: Seq<char>, i: int) -> Option<int> {
    if i + 2 <= s.len() && s[i] == '#' && s[i + 1] == '!' {
        if spec_fold_case_at(s, i + 2) {
            Some(i + 11)
        } else if i + 5 <= s.len() && s[i + 2] == 'n' && s[i + 3] == 'o' && s[i + 4] == '-'
            && spec_fold_case_at(s, i + 5) {
            Some(i + 14)
        } else {
            None
        }
    } else {
        None
    }
}

pub open spec fn spec_atmosphere(s: Seq<char>, i: int) -> Option<int> {
    if spec_whitespace(s, i) is Some {
        spec_whitespace(s, i)
    } else if spec_comment(s, i) is Some {
        spec_comment(s, i)
    } else {
        spec_directive(s, i)
    }
}

/// The position after all atmosphere reachable from `i`; never fails.
pub open spec fn spec_intertoken(s: Seq<char>, i: int) -> int
    decreases s.len() - i,
{
    match spec_atmosphere(s, i) {
        Some(j) => if i < j && j <= s.len() {
            spec_intertoken(s, j)
        } else {
            i
        },
        None => i,
    }
}

pub proof fn lemma_line_comment_end_bounds(s: Seq<char>, j: int)
    requires
        0 <= j <= s.len(),
    ensures
        j <= spec_line_comment_end(s, j) <= s.len(),
    decreases s.len() - j,
{
    if j < s.len() && s[j] != '\n' && s[j] != '\r' {
        lemma_line_comment_end_bounds(s, j + 1);
    }
}

pub proof fn lemma_comment_scan_bounds(s: Seq<char>, j: int, d: nat)
    requires
        0 <= j <= s.len(),
        spec_comment_scan(s, j, d) is Some,
    ensures
        j < spec_comment_scan(s, j, d)->Some_0 <= s.len(),
    decreases s.len() - j,
{
    if j + 2 <= s.len() && s[j] == '|' && s[j + 1] == '#' {
        if d != 0 {
            lemma_comment_scan_bounds(s, j + 2, (d - 1) as nat);
        }
    } else if j + 2 <= s.len() && s[j] == '#' && s[j + 1] == '|' {
        lemma_comment_scan_bounds(s, j + 2, d + 1);
    } else if j < s.len() {
        lemma_comment_scan_bounds(s, j + 1, d);
    }
}

pub proof fn lemma_intertoken_bounds(s: Seq<char>, i: int)
    requires
        0 <= i <= s.len(),
    ensures
        i <= spec_intertoken(s, i) <= s.len(),
    decreases s.len() - i,
{
    match spec_atmosphere(s, i) {
        Some(j) => {
            if i < j && j <= s.len() {
                lemma_intertoken_bounds(s, j);
            }
        },
        None => {},
    }
}

/// Skipping atmosphere twice adds nothing: the stop position is stable.
pub proof fn lemma_intertoken_idempotent(s: Seq<char>, i: int)
    requires
        0 <= i <= s.len(),
    ensures
        spec_intertoken(s, spec_intertoken(s, i)) == spec_intertoken(s, i),
    decreases s.len() - i,
{
    match spec_atmosphere(s, i) {
        Some(j) => {
            if i < j && j <= s.len() {
                lemma_intertoken_idempotent(s, j);
            }
        },
        None => {},
    }
}

pub fn line_ending(s: &[char], i: usize) -> (r: Option<usize>)
    requires
        i <= s@.len(),
    ensures
        match r {
            Some(j) => spec_line_ending(s@, i as int) == Some(j as int) && j <= s@.len(),
            None => spec_line_ending(s@, i as int) is None,
        },
{
    if i < s.len() && s[i] == '\n' {
        Some(i + 1)
    } else if i < s.len() && s[i] == '\r' {
        if i + 1 < s.len() && s[i + 1] == '\n' {
            Some(i + 2)
        } else {
            Some(i + 1)
        }
    } else {
        None
    }
}

pub fn whitespace(s: &[char], i: usize) -> (r: Option<usize>)
    requires
        i <= s@.len(),
    ensures
        match r {
            Some(j) => spec_whitespace(s@, i as int) == Some(j as int) && j <= s@.len(),
            None => spec_whitespace(s@, i as int) is None,
        },
{
    if i < s.len() && intraline_whitespace(s[i]) {
        Some(i + 1)
    } else {
        line_ending(s, i)
    }
}

/// One delimiter character or line ending, as the grammar classes them.
pub fn delimiter(s: &[char], i: usize) -> (r: Option<usize>)
    requires
        i <= s@.len(),
    ensures
        match r {
            Some(j) => i < j <= s@.len() && (spec_whitespace(s@, i as int) == Some(j as int)
                || (j == i + 1 && (s@[i as int] == '|' || s@[i as int] == '('
                    || s@[i as int] == ')' || s@[i as int] == '"' || s@[i as int] == ';'))),
            None => spec_whitespace(s@, i as int) is None && (i == s@.len()
                || !(s@[i as int] == '|' || s@[i as int] == '(' || s@[i as int] == ')'
                    || s@[i as int] == '"' || s@[i as int] == ';')),
        },
{
    match whitespace(s, i) {
        Some(j) => Some(j),
        None => {
            if i < s.len() && (s[i] == '|' || s[i] == '(' || s[i] == ')' || s[i] == '"'
                || s[i] == ';') {
                Some(i + 1)
            } else {
                None
            }
        },
    }
}

pub fn nested_comment(s: &[char], i: usize) -> (r: Option<usize>)
    requires
        i <= s@.len(),
    ensures
        match r {
            Some(j) => spec_nested_comment(s@, i as int) == Some(j as int) && i < j <= s@.len(),
            None => spec_nested_comment(s@, i as int) is None,
        },
{
    if i < s.len() && i + 1 < s.len() && s[i] == '#' && s[i + 1] == '|' {
        let mut j: usize = i + 2;
        let mut d: u64 = 0;
        loop
            invariant
                i + 2 <= j <= s@.len(),
                s@[i as int] == '#' && s@[i as int + 1] == '|',
                2 * (d as int) <= j - i - 2,
                spec_comment_scan(s@, i + 2, 0) == spec_comment_scan(s@, j as int, d as nat),
            decreases s@.len() - j,
        {
            if j < s.len() && j + 1 < s.len() && s[j] == '|' && s[j + 1] == '#' {
                if d == 0 {
                    proof {
                        lemma_comment_scan_bounds(s@, i + 2, 0);
                    }
                    return Some(j + 2);
                } else {
                    d = d - 1;
                    j = j + 2;
                }
            } else if j < s.len() && j + 1 < s.len() && s[j] == '#' && s[j + 1] == '|' {
                d = d + 1;
                j = j + 2;
            } else if j < s.len() {
                j = j + 1;
            } else {
                return None;
            }
        }
    } else {
        None
    }
}

/// A datum comment must skip one whole datum; the datum reader is outside
/// this component, so the production is declared and never succeeds.
pub fn datum(s: &[char], i: usize) -> (r: Option<usize>)
    requires
        i <= s@.len(),
    ensures
        r is None,
        spec_datum(s@, i as int) is None,
{
    None
}

pub fn comment(s: &[char], i: usize) -> (r: Option<usize>)
    requires
        i <= s@.len(),
    ensures
        match r {
            Some(j) => spec_comment(s@, i as int) == Some(j as int) && i < j <= s@.len(),
            None => spec_comment(s@, i as int) is None,
        },
{
    if i < s.len() && s[i] == ';' {
        let mut j: usize = i + 1;
        loop
            invariant
                i + 1 <= j <= s@.len(),
                s@[i as int] == ';',
                spec_line_comment_end(s@, i + 1) == spec_line_comment_end(s@, j as int),
            decreases s@.len() - j,
        {
            if j < s.len() && s[j] != '\n' && s[j] != '\r' {
                j = j + 1;
            } else {
                return Some(j);
            }
        }
    } else {
        match nested_comment(s, i) {
            Some(j) => Some(j),
            None => {
                if i < s.len() && i + 1 < s.len() && s[i] == '#' && s[i + 1] == ';' {
                    datum(s, i + 2)
                } else {
                    None
                }
            },
        }
    }
}

pub fn directive(s: &[char], i: usize) -> (r: Option<usize>)
    requires
        i <= s@.len(),
    ensures
        match r {
            Some(j) => spec_directive(s@, i as int) == Some(j as int) && i < j <= s@.len(),
            None => spec_directive(s@, i as int) is None,
        },
{
    if i < s.len() && i + 1 < s.len() && s[i] == '#' && s[i + 1] == '!' {
        if fold_case_at(s, i + 2) {
            Some(i + 11)
        } else if s.len() - i > 4 && s[i + 2] == 'n' && s[i + 3] == 'o' && s[i + 4] == '-'
            && fold_case_at(s, i + 5) {
            Some(i + 14)
        } else {
            None
        }
    } else {
        None
    }
}

fn fold_case_at(s: &[char], i: usize) -> (r: bool)
    requires
        i <= s@.len(),
    ensures
        r == spec_fold_case_at(s@, i as int),
{
    s.len() - i > 8 && s[i] == 'f' && s[i + 1] == 'o' && s[i + 2] == 'l' && s[i + 3] == 'd'
        && s[i + 4] == '-' && s[i + 5] == 'c' && s[i + 6] == 'a' && s[i + 7] == 's'
        && s[i + 8] == 'e'
}

pub fn atmosphere(s: &[char], i: usize) -> (r: Option<usize>)
    requires
        i <= s@.len(),
    ensures
        match r {
            Some(j) => spec_atmosphere(s@, i as int) == Some(j as int) && i < j <= s@.len(),
            None => spec_atmosphere(s@, i as int) is None,
        },
{
    match whitespace(s, i) {
        Some(j) => Some(j),
        None => match comment(s, i) {
            Some(j) => Some(j),
            None => directive(s, i),
        },
    }
}

pub fn intertoken_space(s: &[char], i: usize) -> (r: usize)
    requires
        i <= s@.len(),
    ensures
        r as int == spec_intertoken(s@, i as int),
        i <= r <= s@.len(),
{
    let mut j: usize = i;
    loop
        invariant
            i <= j <= s@.len(),
            spec_intertoken(s@, i as int) == spec_intertoken(s@, j as int),
        decreases s@.len() - j,
    {
        match atmosphere(s, j) {
            Some(k) => {
                j = k;
            },
            None => {
                return j;
            },
        }
    }
}

} // verus!
