use scheme_lexer::atmosphere::delimiter;
use scheme_lexer::lexer::lex;
use scheme_lexer::literal::{byte, bytevector};
use scheme_lexer::token::Token;

fn chars(s: &str) -> Vec<char> {
    s.chars().collect()
}

fn one_string(s: &str) -> Vec<char> {
    let v = chars(s);
    let (mut toks, rest) = lex(&v);
    assert_eq!(toks.len(), 1, "input {:?} should be one token", s);
    assert_eq!(rest, v.len(), "input {:?} should be fully consumed", s);
    match toks.remove(0) {
        Token::Str(t) => t,
        t => panic!("input {:?} lexed as {:?}, not a string", s, t),
    }
}

fn one_char(s: &str) -> char {
    let v = chars(s);
    let (mut toks, rest) = lex(&v);
    assert_eq!(toks.len(), 1, "input {:?} should be one token", s);
    assert_eq!(rest, v.len(), "input {:?} should be fully consumed", s);
    match toks.remove(0) {
        Token::Character(c) => c,
        t => panic!("input {:?} lexed as {:?}, not a character", s, t),
    }
}

#[test]
fn mnemonic_escapes_decode() {
    assert_eq!(one_string("\"a\\nb\\tc\""), vec!['a', '\n', 'b', '\t', 'c']);
}

#[test]
fn quote_and_backslash_escapes() {
    assert_eq!(one_string("\"x\\\"y\\\\z\""), vec!['x', '"', 'y', '\\', 'z']);
}

#[test]
fn line_continuation_contributes_nothing() {
    assert_eq!(one_string("\"a\\ \n  b\""), vec!['a', 'b']);
}

#[test]
fn hex_escape_in_string() {
    assert_eq!(one_string("\"\\x41;\""), vec!['A', ';']);
}

#[test]
fn empty_string() {
    assert_eq!(one_string("\"\""), Vec::<char>::new());
}

#[test]
fn unterminated_string_stops_lexing() {
    let v = chars("\"abc");
    let (toks, rest) = lex(&v);
    assert_eq!(toks.len(), 0);
    assert_eq!(rest, 0);
}

#[test]
fn surrogate_hex_escape_fails() {
    let v = chars("\"\\xd800\"");
    let (toks, rest) = lex(&v);
    assert_eq!(toks.len(), 0);
    assert_eq!(rest, 0);
}

#[test]
fn named_characters() {
    assert_eq!(one_char("#\\newline"), '\n');
    assert_eq!(one_char("#\\alarm"), '\x07');
    assert_eq!(one_char("#\\backspace"), '\x08');
    assert_eq!(one_char("#\\delete"), '\x7F');
    assert_eq!(one_char("#\\null"), '\0');
    assert_eq!(one_char("#\\return"), '\r');
    assert_eq!(one_char("#\\space"), ' ');
    assert_eq!(one_char("#\\tab"), '\t');
}

#[test]
fn hex_character_literal() {
    assert_eq!(one_char("#\\x41"), 'A');
}

#[test]
fn raw_character_literal() {
    assert_eq!(one_char("#\\a"), 'a');
    assert_eq!(one_char("#\\x"), 'x');
    assert_eq!(one_char("#\\("), '(');
}

#[test]
fn byte_accepts_the_unsigned_8_bit_range() {
    let v = chars("255");
    assert!(matches!(byte(&v, 0), Some((3, 255))));
    let v = chars("256");
    assert!(byte(&v, 0).is_none());
    let v = chars("-1");
    assert!(byte(&v, 0).is_none());
    let v = chars("1/2");
    assert!(byte(&v, 0).is_none());
}

#[test]
fn bytevector_recognition() {
    let v = chars("#u8()");
    assert_eq!(bytevector(&v, 0), Some(5));
    let v = chars("#u8(200)");
    assert_eq!(bytevector(&v, 0), Some(8));
    let v = chars("#u8(300)");
    assert!(bytevector(&v, 0).is_none());
}

#[test]
fn delimiter_classes() {
    for s in [" ", "\t", "\n", "|", "(", ")", "\"", ";"] {
        let v = chars(s);
        assert!(delimiter(&v, 0).is_some(), "{:?} should be a delimiter", s);
    }
    let v = chars("a");
    assert!(delimiter(&v, 0).is_none());
}
