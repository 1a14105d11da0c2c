use vstd::prelude::*;
use vstd::string::StringExecFns;
use crate::text::{dec_digits, dec_string};
use crate::token::{Token, TokenModel};
use crate::token_type::TokenType;

verus! {

/// Mathematical model of a diagnostic: the anchoring token if any, the
/// source line, and the message.
pub ghost struct ErrModel {
    pub token: Option<TokenModel>,
    pub line: int,
    pub message: Seq<char>,
}

/// A diagnostic from any stage of the pipeline.  Errors are plain data:
/// constructing one has no side effect, and [`TeciError::report`] renders
/// the stable diagnostic line that callers may print.
#[derive(Debug)]
pub struct TeciError {
    pub token: Option<Token>,
    pub line: usize,
    pub message: String,
}

impl View for TeciError {
    type V = ErrModel;

    open spec fn view(&self) -> ErrModel {
        ErrModel {
            token: match self.token {
                Some(t) => Some(t@),
                None => None,
            },
            line: self.line as int,
            message: self.message@,
        }
    }
}

/// The rendered diagnostic line: generic errors carry a context string,
/// token-anchored errors name the offending lexeme, or `at end` for the
/// end-of-input token.
pub open spec fn render_model(e: ErrModel, context: Seq<char>) -> Seq<char> {
    match e.token {
        Some(t) => {
            if t.kind == TokenType::Eof {
                "[line "@ + dec_digits(e.line) + "] Error: "@ + e.message + " at end"@
            } else {
                "[line "@ + dec_digits(e.line) + "] Error: "@ + e.message + " at '"@ + t.lexeme
                    + "'"@
            }
        },
        None => "[line "@ + dec_digits(e.line) + "] Error "@ + context + ": "@ + e.message,
    }
}

impl Clone for TeciError {
    /// A clone is equal to the original, field by field.
    fn clone(&self) -> (e: TeciError)
        ensures
            e.token == self.token,
            e.line == self.line,
            e.message == self.message,
            e@ == self@,
    {
        let token = match &self.token {
            Some(t) => Some(t.clone()),
            None => None,
        };
        TeciError { token, line: self.line, message: self.message.clone() }
    }
}

impl TeciError {
    /// A generic (lexical) error at a source line, with no anchoring token.
    pub fn new(line: usize, message: &str) -> (e: TeciError)
        ensures
            e@ == (ErrModel { token: None, line: line as int, message: message@ }),
    {
        TeciError { token: None, line, message: message.to_owned() }
    }

    /// A syntax error anchored at the offending token.
    pub fn parse_error(token: Token, message: &str) -> (e: TeciError)
        ensures
            e@ == (ErrModel {
                token: Some(token@),
                line: token.line as int,
                message: message@,
            }),
    {
        let line = token.line;
        TeciError { token: Some(token), line, message: message.to_owned() }
    }

    /// A runtime error anchored at the operator or variable token.
    pub fn runtime_error(token: Token, message: &str) -> (e: TeciError)
        ensures
            e@ == (ErrModel {
                token: Some(token@),
                line: token.line as int,
                message: message@,
            }),
    {
        let line = token.line;
        TeciError { token: Some(token), line, message: message.to_owned() }
    }

    /// Render the stable one-line diagnostic form.
    pub fn report(&self, context: &str) -> (r: String)
        ensures
            r@ == render_model(self@, context@),
    {
        let mut s = String::new();
        s.append("[line ");
        s.append(dec_string(self.line as u64).as_str());
        match &self.token {
            Some(t) => {
                s.append("] Error: ");
                s.append(self.message.as_str());
                if matches!(t.ttype, TokenType::Eof) {
                    s.append(" at end");
                } else {
                    s.append(" at '");
                    s.append(t.lexeme.as_str());
                    s.append("'");
                }
            },
            None => {
                s.append("] Error ");
                s.append(context);
                s.append(": ");
                s.append(self.message.as_str());
            },
        }
        proof {
            assert(s@ =~= render_model(self@, context@));
        }
        s
    }
}

} // verus!
