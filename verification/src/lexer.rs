//! The token dispatcher and the lexer driver.
//!
//! `token` tries, in a fixed order, boolean, number, identifier,
//! character, string, then the fixed punctuation marks, and returns the
//! first success; ambiguity between overlapping spellings (`+` the
//! identifier against `+5` the number, `.` the period against `...` the
//! identifier and `.5` the number) is resolved entirely by that order.
//! `lex` repeatedly skips intertoken space and takes one token until no
//! further token can be taken, and reports the position it stopped at:
//! the whole input was lexed exactly when that position is its end.

use vstd::prelude::*;
use crate::token::{Token, TokenModel};
use crate::atmosphere::{intertoken_space, spec_intertoken, lemma_intertoken_idempotent,
    lemma_intertoken_bounds};
use crate::ident::{identifier, spec_identifier, lemma_identifier_bounds, lemma_identifier_first};
use crate::literal::{
    boolean, character, string, spec_boolean, spec_character, spec_string, lemma_boolean_bounds,
    lemma_character_bounds, lemma_string_bounds,
};
use crate::numeric::{
    number, spec_number, spec_num, spec_prefix, spec_uinteger, spec_decimal, spec_ureal,
    spec_infnan, spec_real, lemma_number_bounds, lemma_num_first,
};
use crate::token::Exactness;
use crate::token::Radix;
use crate::atmosphere::{spec_atmosphere, spec_whitespace, spec_comment, spec_directive};

verus! {

/// One token, by ordered alternation.
pub open spec fn spec_token(s: Seq<char>, i: int) -> Option<(int, TokenModel)> {
    if spec_boolean(s, i) is Some {
        Some((spec_boolean(s, i)->Some_0.0, TokenModel::Boolean(spec_boolean(s, i)->Some_0.1)))
    } else if spec_number(s, i) is Some {
        Some((spec_number(s, i)->Some_0.0, TokenModel::Number(spec_number(s, i)->Some_0.1)))
    } else if spec_identifier(s, i) is Some {
        Some((spec_identifier(s, i)->Some_0, TokenModel::Identifier))
    } else if spec_character(s, i) is Some {
        Some(
            (spec_character(s, i)->Some_0.0, TokenModel::Character(spec_character(s, i)->Some_0.1)),
        )
    } else if spec_string(s, i) is Some {
        Some((spec_string(s, i)->Some_0.0, TokenModel::Str(spec_string(s, i)->Some_0.1)))
    } else if i < s.len() && s[i] == '(' {
        Some((i + 1, TokenModel::OpenParen))
    } else if i < s.len() && s[i] == ')' {
        Some((i + 1, TokenModel::CloseParen))
    } else if i + 1 < s.len() && s[i] == '#' && s[i + 1] == '(' {
        Some((i + 2, TokenModel::OpenVec))
    } else if i + 3 < s.len() && s[i] == '#' && s[i + 1] == 'u' && s[i + 2] == '8' && s[i + 3]
        == '(' {
        Some((i + 4, TokenModel::OpenByteVec))
    } else if i < s.len() && s[i] == '\'' {
        Some((i + 1, TokenModel::Quote))
    } else if i < s.len() && s[i] == '`' {
        Some((i + 1, TokenModel::BackQuote))
    } else if i + 1 < s.len() && s[i] == ',' && s[i + 1] == '@' {
        Some((i + 2, TokenModel::CommaAt))
    } else if i < s.len() && s[i] == ',' {
        Some((i + 1, TokenModel::Comma))
    } else if i < s.len() && s[i] == '.' {
        Some((i + 1, TokenModel::Period))
    } else {
        None
    }
}

pub fn token(s: &[char], i: usize) -> (res: Option<(usize, Token)>)
    requires
        i <= s@.len(),
    ensures
        match res {
            Some((j, t)) => spec_token(s@, i as int) == Some((j as int, t@)) && i < j <= s@.len(),
            None => spec_token(s@, i as int) is None,
        },
{
    match boolean(s, i) {
        Some((j, b)) => {
            return Some((j, Token::Boolean(b)));
        },
        None => {},
    }
    match number(s, i) {
        Some((j, n)) => {
            return Some((j, Token::Number(n)));
        },
        None => {},
    }
    match identifier(s, i) {
        Some(j) => {
            return Some((j, Token::Identifier));
        },
        None => {},
    }
    match character(s, i) {
        Some((j, c)) => {
            return Some((j, Token::Character(c)));
        },
        None => {},
    }
    match string(s, i) {
        Some((j, v)) => {
            return Some((j, Token::Str(v)));
        },
        None => {},
    }
    if i < s.len() && s[i] == '(' {
        Some((i + 1, Token::OpenParen))
    } else if i < s.len() && s[i] == ')' {
        Some((i + 1, Token::CloseParen))
    } else if s.len() - i > 1 && s[i] == '#' && s[i + 1] == '(' {
        Some((i + 2, Token::OpenVec))
    } else if s.len() - i > 3 && s[i] == '#' && s[i + 1] == 'u' && s[i + 2] == '8' && s[i + 3]
        == '(' {
        Some((i + 4, Token::OpenByteVec))
    } else if i < s.len() && s[i] == '\'' {
        Some((i + 1, Token::Quote))
    } else if i < s.len() && s[i] == '`' {
        Some((i + 1, Token::BackQuote))
    } else if s.len() - i > 1 && s[i] == ',' && s[i + 1] == '@' {
        Some((i + 2, Token::CommaAt))
    } else if i < s.len() && s[i] == ',' {
        Some((i + 1, Token::Comma))
    } else if i < s.len() && s[i] == '.' {
        Some((i + 1, Token::Period))
    } else {
        None
    }
}

/// The full pass from position `i`: skip intertoken space, take one
/// token, and repeat until no token can be taken; the result is the
/// token sequence and the position the pass stopped at.
pub open spec fn spec_lex_from(s: Seq<char>, i: int) -> (Seq<TokenModel>, int)
    decreases s.len() - i,
{
    let j = spec_intertoken(s, i);
    match spec_token(s, j) {
        Some((k, t)) => if i <= j && j < k && k <= s.len() {
            let rest = spec_lex_from(s, k);
            (seq![t] + rest.0, rest.1)
        } else {
            (Seq::empty(), j)
        },
        None => (Seq::empty(), j),
    }
}

/// Lex a whole input: every token found, in order, and the position at
/// which lexing stopped — the input's length exactly when the whole
/// input was atmosphere and tokens.
pub fn lex(s: &[char]) -> (res: (Vec<Token>, usize))
    ensures
        res.0@.map_values(|t: Token| t@) == spec_lex_from(s@, 0).0,
        res.1 as int == spec_lex_from(s@, 0).1,
        res.1 <= s@.len(),
{
    let mut toks: Vec<Token> = Vec::new();
    let mut cur: usize = 0;
    proof {
        assert(Seq::<TokenModel>::empty() + spec_lex_from(s@, 0).0 =~= spec_lex_from(s@, 0).0);
        assert(toks@.map_values(|t: Token| t@) =~= Seq::<TokenModel>::empty());
    }
    loop
        invariant
            cur <= s@.len(),
            spec_lex_from(s@, 0).0 == toks@.map_values(|t: Token| t@) + spec_lex_from(
                s@,
                cur as int,
            ).0,
            spec_lex_from(s@, 0).1 == spec_lex_from(s@, cur as int).1,
        decreases s@.len() - cur,
    {
        let j = intertoken_space(s, cur);
        match token(s, j) {
            Some((k, t)) => {
                proof {
                    let prev = toks@.map_values(|tt: Token| tt@);
                    let rest = spec_lex_from(s@, k as int);
                    assert(spec_lex_from(s@, cur as int) == (seq![t@] + rest.0, rest.1));
                    assert(prev + (seq![t@] + rest.0) =~= (prev + seq![t@]) + rest.0);
                }
                toks.push(t);
                proof {
                    assert(toks@.map_values(|tt: Token| tt@) =~= toks@.subrange(
                        0,
                        toks@.len() - 1,
                    ).map_values(|tt: Token| tt@) + seq![t@]);
                }
                cur = k;
            },
            None => {
                proof {
                    assert(spec_lex_from(s@, cur as int) == (Seq::<TokenModel>::empty(),
                        j as int));
                    assert(toks@.map_values(|t: Token| t@) + Seq::<TokenModel>::empty()
                        =~= toks@.map_values(|t: Token| t@));
                }
                return (toks, j);
            },
        }
    }
}

pub proof fn lemma_token_bounds(s: Seq<char>, i: int)
    requires
        0 <= i <= s.len(),
        spec_token(s, i) is Some,
    ensures
        i < spec_token(s, i)->Some_0.0 <= s.len(),
{
    if spec_boolean(s, i) is Some {
        lemma_boolean_bounds(s, i);
    } else if spec_number(s, i) is Some {
        lemma_number_bounds(s, i);
    } else if spec_identifier(s, i) is Some {
        lemma_identifier_bounds(s, i);
    } else if spec_character(s, i) is Some {
        lemma_character_bounds(s, i);
    } else if spec_string(s, i) is Some {
        lemma_string_bounds(s, i);
    }
}

/// Where a token begins, no atmosphere begins: the first characters of
/// the two grammars are disjoint, so skipping intertoken space can never
/// eat a prefix of a token.
pub proof fn lemma_token_not_atmosphere(s: Seq<char>, i: int)
    requires
        0 <= i <= s.len(),
        spec_token(s, i) is Some,
    ensures
        spec_atmosphere(s, i) is None,
{
    if spec_atmosphere(s, i) is Some {
        // what atmosphere demands of the first characters
        assert(spec_whitespace(s, i) is Some || spec_comment(s, i) is Some || spec_directive(
            s,
            i,
        ) is Some);
        // what each token alternative demands of them
        if spec_boolean(s, i) is Some {
        } else if spec_number(s, i) is Some {
            if spec_num(s, i, Radix::Binary) is Some {
                lemma_num_first(s, i, Radix::Binary);
            } else if spec_num(s, i, Radix::Octal) is Some {
                lemma_num_first(s, i, Radix::Octal);
            } else if spec_num(s, i, Radix::Decimal) is Some {
                lemma_num_first(s, i, Radix::Decimal);
            } else {
                lemma_num_first(s, i, Radix::Hexadecimal);
            }
        } else if spec_identifier(s, i) is Some {
            lemma_identifier_first(s, i);
        }
        assert(false);
    }
}

/// Where a full pass stops, nothing more can be consumed: no atmosphere
/// and no token begins there.
pub proof fn lemma_lex_from_stop(s: Seq<char>, i: int)
    requires
        0 <= i <= s.len(),
    ensures
        0 <= spec_lex_from(s, i).1 <= s.len(),
        spec_intertoken(s, spec_lex_from(s, i).1) == spec_lex_from(s, i).1,
        spec_token(s, spec_lex_from(s, i).1) is None,
    decreases s.len() - i,
{
    let j = spec_intertoken(s, i);
    lemma_intertoken_bounds(s, i);
    match spec_token(s, j) {
        Some((k, t)) => {
            lemma_token_bounds(s, j);
            lemma_lex_from_stop(s, k);
        },
        None => {
            lemma_intertoken_idempotent(s, i);
        },
    }
}

/// Re-lexing the unconsumed remainder of a pass yields no tokens and
/// stops where the pass stopped: a pass is maximal, so running the lexer
/// again on what it left over adds nothing to the token sequence.
pub proof fn lemma_relex_remainder(s: Seq<char>)
    ensures
        spec_lex_from(s, spec_lex_from(s, 0).1) == (
            Seq::<TokenModel>::empty(),
            spec_lex_from(s, 0).1,
        ),
{
    lemma_lex_from_stop(s, 0);
}

/// What a pass consumed, concatenated with its unconsumed remainder, is
/// the original input again, so re-lexing that concatenation reproduces
/// exactly the token sequence of the original pass.
pub proof fn lemma_relex_rejoined_input(s: Seq<char>)
    ensures
        ({
            let n = spec_lex_from(s, 0).1;
            spec_lex_from(s.take(n) + s.skip(n), 0) == spec_lex_from(s, 0)
        }),
{
    lemma_lex_from_stop(s, 0);
    let n = spec_lex_from(s, 0).1;
    assert(s.take(n) + s.skip(n) =~= s);
}

/// A string that is exactly one valid token spelling lexes to exactly
/// that one token and an empty remainder.
pub proof fn lemma_single_token_spelling(s: Seq<char>)
    requires
        spec_token(s, 0) is Some,
        spec_token(s, 0)->Some_0.0 == s.len(),
    ensures
        spec_lex_from(s, 0) == (seq![spec_token(s, 0)->Some_0.1], s.len() as int),
{
    lemma_token_not_atmosphere(s, 0);
    lemma_token_bounds(s, 0);
    let t = spec_token(s, 0)->Some_0.1;
    let n = s.len() as int;
    assert(spec_intertoken(s, 0) == 0);
    // after the token, the input is exhausted: nothing more matches
    assert(spec_atmosphere(s, n) is None);
    assert(spec_intertoken(s, n) == n);
    assert(spec_token(s, n) is None) by {
        lemma_token_none_at_end(s);
    }
    assert(spec_lex_from(s, n) == (Seq::<TokenModel>::empty(), n));
    assert(spec_lex_from(s, 0) == (seq![t] + Seq::<TokenModel>::empty(), n));
    assert(seq![t] + Seq::<TokenModel>::empty() =~= seq![t]);
}

/// No token begins at the end of the input.
proof fn lemma_token_none_at_end(s: Seq<char>)
    ensures
        spec_token(s, s.len() as int) is None,
{
    let n = s.len() as int;
    assert(spec_boolean(s, n) is None);
    assert(spec_num(s, n, Radix::Binary) is None);
    assert(spec_num(s, n, Radix::Octal) is None);
    assert(spec_num(s, n, Radix::Decimal) is None) by {
        assert(spec_prefix(s, n, Radix::Decimal) == Some((n, Exactness::Unspecified)));
        assert(spec_uinteger(s, n, Radix::Decimal) is None);
        assert(spec_decimal(s, n, Radix::Decimal) is Absent);
        assert(spec_ureal(s, n, Radix::Decimal) is None);
        assert(spec_infnan(s, n) is None);
        assert(spec_real(s, n, Radix::Decimal) is None);
    }
    assert(spec_num(s, n, Radix::Hexadecimal) is None);
    assert(spec_number(s, n) is None);
    assert(spec_identifier(s, n) is None);
    assert(spec_character(s, n) is None);
    assert(spec_string(s, n) is None);
}

} // verus!
