//! Lexical categories produced by the scanner, together with their
//! mathematical model over sequences of characters.

use vstd::prelude::*;

verus! {

/// One lexical unit of the source text. Numeric tokens hold the parsed
/// 64-bit signed value, never raw text.
#[derive(Debug, PartialEq, Eq)]
pub enum Token {
    Keyword(String),
    Identifier(String),
    Number(i64),
    Operator(String),
    Symbol(char),
    StringLiteral(String),
    Comment,
    Whitespace,
    Eof,
}

/// The mathematical model of a token: text payloads become character
/// sequences and the numeric payload becomes an unbounded integer.
pub enum SpecToken {
    Keyword(Seq<char>),
    Identifier(Seq<char>),
    Number(int),
    Operator(Seq<char>),
    Symbol(char),
    StringLiteral(Seq<char>),
    Comment,
    Whitespace,
    Eof,
}

impl View for Token {
    type V = SpecToken;

    open spec fn view(&self) -> SpecToken {
        match self {
            Token::Keyword(t) => SpecToken::Keyword(t@),
            Token::Identifier(t) => SpecToken::Identifier(t@),
            Token::Number(n) => SpecToken::Number(*n as int),
            Token::Operator(t) => SpecToken::Operator(t@),
            Token::Symbol(c) => SpecToken::Symbol(*c),
            Token::StringLiteral(t) => SpecToken::StringLiteral(t@),
            Token::Comment => SpecToken::Comment,
            Token::Whitespace => SpecToken::Whitespace,
            Token::Eof => SpecToken::Eof,
        }
    }
}

} // verus!
