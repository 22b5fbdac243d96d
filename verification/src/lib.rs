//! Lexical front end for a Scheme-family source language.
//!
//! The crate turns a sequence of Unicode scalar values into the ordered
//! sequence of lexical tokens of an R7RS-style grammar: identifiers,
//! booleans, numbers in four radixes, characters, strings, and the fixed
//! punctuation marks, with whitespace, comments and directives elided
//! between them.  Every parser is written as recursive descent with
//! ordered alternation and is verified against a spec-level parser over
//! `Seq<char>` that states the grammar directly.
//!
//! The entry points are `lexer::lex` for a whole input and
//! `lexer::token` for a single token; `token` holds the data model.

pub mod token;
pub mod chars;
pub mod atmosphere;
pub mod escape;
pub mod ident;
pub mod digits;
pub mod exact;
pub mod numeric;
pub mod literal;
pub mod lexer;
