use vstd::prelude::*;

verus! {

/// The closed classification of lexical tokens: single-character
/// punctuation, one-or-two-character operators, literal kinds, reserved
/// keywords, and the end-of-input marker.
#[derive(Clone, Copy, Debug, PartialEq, Eq, Structural, Hash)]
pub enum TokenType {
    // One char tokens
    LeftParen,
    RightParen,
    LeftBrace,
    RightBrace,
    Comma,
    Dot,
    Plus,
    Minus,
    Star,
    Slash,
    Semicolon,
    // One or two char tokens
    Bang,
    BangEqual,
    Assign,
    Equals,
    Greater,
    GreaterEqual,
    Less,
    LessEqual,
    // Literals
    Number,
    Identifier,
    String,
    // Keywords
    And,
    Or,
    If,
    Else,
    True,
    False,
    For,
    While,
    Fun,
    Class,
    Return,
    Let,
    This,
    Super,
    Print,
    Nil,
    // EOF
    Eof,
}

} // verus!
