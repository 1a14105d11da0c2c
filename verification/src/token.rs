use vstd::prelude::*;
use crate::object::{Object, ObjModel};
use crate::token_type::TokenType;

verus! {

/// Mathematical model of a token: its kind, the exact source substring it
/// was scanned from, the literal value carried by number and string tokens,
/// and the source line it ends on.
pub ghost struct TokenModel {
    pub kind: TokenType,
    pub lexeme: Seq<char>,
    pub literal: Option<ObjModel>,
    pub line: int,
}

/// A classified lexical unit, created by the scanner and read-only
/// thereafter.
#[derive(Debug)]
pub struct Token {
    pub ttype: TokenType,
    pub lexeme: String,
    pub literal: Option<Object>,
    pub line: usize,
}

impl View for Token {
    type V = TokenModel;

    open spec fn view(&self) -> TokenModel {
        TokenModel {
            kind: self.ttype,
            lexeme: self.lexeme@,
            literal: match self.literal {
                Some(o) => Some(o@),
                None => None,
            },
            line: self.line as int,
        }
    }
}

impl Token {
    /// A number or string literal payload, when present, is well-formed.
    pub open spec fn wf(self) -> bool {
        match self.literal {
            Some(o) => o.wf(),
            None => true,
        }
    }

    pub fn new(ttype: TokenType, lexeme: String, literal: Option<Object>, line: usize) -> (t:
        Token)
        ensures
            t.ttype == ttype,
            t.lexeme == lexeme,
            t.literal == literal,
            t.line == line,
    {
        Token { ttype, lexeme, literal, line }
    }
}

impl Clone for Token {
    /// A clone is equal to the original, field by field.
    fn clone(&self) -> (t: Token)
        ensures
            t.ttype == self.ttype,
            t.lexeme == self.lexeme,
            t.literal == self.literal,
            t.line == self.line,
            t@ == self@,
            t.wf() == self.wf(),
    {
        let literal = match &self.literal {
            Some(o) => Some(o.clone()),
            None => None,
        };
        Token { ttype: self.ttype, lexeme: self.lexeme.clone(), literal, line: self.line }
    }
}

} // verus!
