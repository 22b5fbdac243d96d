use scheme_lexer::lexer::{lex, token};
use scheme_lexer::token::{Number, Token};

fn chars(s: &str) -> Vec<char> {
    s.chars().collect()
}

#[test]
fn single_token_spelling_lexes_whole() {
    let v = chars("abc");
    let (toks, rest) = lex(&v);
    assert_eq!(toks.len(), 1);
    assert!(matches!(toks[0], Token::Identifier));
    assert_eq!(rest, v.len());
}

#[test]
fn lone_minus_is_identifier() {
    let v = chars("-");
    let (toks, rest) = lex(&v);
    assert_eq!(toks.len(), 1);
    assert!(matches!(toks[0], Token::Identifier));
    assert_eq!(rest, 1);
}

#[test]
fn minus_five_is_number() {
    let v = chars("-5");
    let (toks, rest) = lex(&v);
    assert_eq!(toks.len(), 1);
    assert!(matches!(toks[0], Token::Number(Number::Integer(-5))));
    assert_eq!(rest, 2);
}

#[test]
fn ellipsis_is_identifier() {
    let v = chars("...");
    let (toks, rest) = lex(&v);
    assert_eq!(toks.len(), 1);
    assert!(matches!(toks[0], Token::Identifier));
    assert_eq!(rest, 3);
}

#[test]
fn lone_dot_is_period() {
    let v = chars(".");
    let (toks, rest) = lex(&v);
    assert_eq!(toks.len(), 1);
    assert!(matches!(toks[0], Token::Period));
    assert_eq!(rest, 1);
}

#[test]
fn arrow_identifier_is_one_token() {
    let v = chars("->foo");
    let (toks, rest) = lex(&v);
    assert_eq!(toks.len(), 1);
    assert!(matches!(toks[0], Token::Identifier));
    assert_eq!(rest, 5);
}

#[test]
fn nested_block_comment_is_atmosphere() {
    let v = chars("#|a #|b|# c|#");
    let (toks, rest) = lex(&v);
    assert_eq!(toks.len(), 0);
    assert_eq!(rest, v.len());
}

#[test]
fn back_to_back_block_comments() {
    let v = chars("#|x|##|y|# 7");
    let (toks, rest) = lex(&v);
    assert_eq!(toks.len(), 1);
    assert!(matches!(toks[0], Token::Number(Number::Integer(7))));
    assert_eq!(rest, v.len());
}

#[test]
fn unterminated_block_comment_stops_lexing() {
    let v = chars("#| open");
    let (toks, rest) = lex(&v);
    assert_eq!(toks.len(), 0);
    assert_eq!(rest, 0);
}

#[test]
fn line_comment_is_atmosphere() {
    let v = chars("; hello\n42");
    let (toks, rest) = lex(&v);
    assert_eq!(toks.len(), 1);
    assert!(matches!(toks[0], Token::Number(Number::Integer(42))));
    assert_eq!(rest, v.len());
}

#[test]
fn empty_line_comment_is_atmosphere() {
    let v = chars(";\n5");
    let (toks, rest) = lex(&v);
    assert_eq!(toks.len(), 1);
    assert!(matches!(toks[0], Token::Number(Number::Integer(5))));
    assert_eq!(rest, v.len());
}

#[test]
fn fold_case_directive_is_atmosphere() {
    let v = chars("#!fold-case 5 #!no-fold-case");
    let (toks, rest) = lex(&v);
    assert_eq!(toks.len(), 1);
    assert!(matches!(toks[0], Token::Number(Number::Integer(5))));
    assert_eq!(rest, v.len());
}

#[test]
fn punctuation_tokens() {
    let v = chars("( ) #( #u8( ' ` ,@ , .");
    let (toks, rest) = lex(&v);
    assert_eq!(toks.len(), 9);
    assert!(matches!(toks[0], Token::OpenParen));
    assert!(matches!(toks[1], Token::CloseParen));
    assert!(matches!(toks[2], Token::OpenVec));
    assert!(matches!(toks[3], Token::OpenByteVec));
    assert!(matches!(toks[4], Token::Quote));
    assert!(matches!(toks[5], Token::BackQuote));
    assert!(matches!(toks[6], Token::CommaAt));
    assert!(matches!(toks[7], Token::Comma));
    assert!(matches!(toks[8], Token::Period));
    assert_eq!(rest, v.len());
}

#[test]
fn small_expression() {
    let v = chars("(+ 1 20)");
    let (toks, rest) = lex(&v);
    assert_eq!(toks.len(), 5);
    assert!(matches!(toks[0], Token::OpenParen));
    assert!(matches!(toks[1], Token::Identifier));
    assert!(matches!(toks[2], Token::Number(Number::Integer(1))));
    assert!(matches!(toks[3], Token::Number(Number::Integer(20))));
    assert!(matches!(toks[4], Token::CloseParen));
    assert_eq!(rest, v.len());
}

#[test]
fn pipe_quoted_symbol_is_identifier() {
    let v = chars("|two words \\x41;|");
    let (toks, rest) = lex(&v);
    assert_eq!(toks.len(), 1);
    assert!(matches!(toks[0], Token::Identifier));
    assert_eq!(rest, v.len());
}

#[test]
fn unterminated_pipe_symbol_stops_lexing() {
    let v = chars("|open");
    let (toks, rest) = lex(&v);
    assert_eq!(toks.len(), 0);
    assert_eq!(rest, 0);
}

#[test]
fn relexing_remainder_adds_nothing() {
    let v = chars("1 2 |open");
    let (toks, rest) = lex(&v);
    assert_eq!(toks.len(), 2);
    assert!(matches!(toks[0], Token::Number(Number::Integer(1))));
    assert!(matches!(toks[1], Token::Number(Number::Integer(2))));
    let remainder: Vec<char> = v[rest..].to_vec();
    let (again, again_rest) = lex(&remainder);
    assert_eq!(again.len(), 0);
    assert_eq!(again_rest, 0);
}

#[test]
fn rejoined_input_reproduces_tokens() {
    let v = chars("#t #f junk\u{1}more");
    let (toks, rest) = lex(&v);
    let mut rejoined: Vec<char> = v[..rest].to_vec();
    rejoined.extend_from_slice(&v[rest..]);
    let (again, again_rest) = lex(&rejoined);
    assert_eq!(again.len(), toks.len());
    assert_eq!(again_rest, rest);
}

#[test]
fn token_fails_without_consuming() {
    let v = chars("\u{1}");
    assert!(token(&v, 0).is_none());
}

#[test]
fn token_after_position() {
    let v = chars("ab(");
    let r = token(&v, 2);
    assert!(matches!(r, Some((3, Token::OpenParen))));
}

#[test]
fn empty_input() {
    let v: Vec<char> = Vec::new();
    let (toks, rest) = lex(&v);
    assert_eq!(toks.len(), 0);
    assert_eq!(rest, 0);
}

#[test]
fn atmosphere_only_input_is_fully_consumed() {
    let v: Vec<char> = "  \t ; trailing comment".chars().collect();
    let (toks, rest) = lex(&v);
    assert_eq!(toks.len(), 0);
    assert_eq!(rest, v.len());
}

#[test]
fn datum_comment_needs_the_datum_reader() {
    // A datum comment must swallow one whole datum; the datum reader is
    // outside this component, so lexing stops at the marker.
    let v = chars("#;(1) 2");
    let (toks, rest) = lex(&v);
    assert_eq!(toks.len(), 0);
    assert_eq!(rest, 0);
}
