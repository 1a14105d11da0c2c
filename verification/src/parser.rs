use vstd::prelude::*;
use crate::error::TeciError;
use crate::expr::{expr_wf, AssignExpr, BinaryExpr, Expr, GroupingExpr, LiteralExpr, UnaryExpr,
    VariableExpr};
use crate::object::Object;
use crate::error::ErrModel;
use crate::scanner::{all_tokens_wf, err_models};
use crate::stmt::{stmt_wf, ExpressionStmt, LetStmt, PrintStmt, Stmt};
use crate::token::Token;
use crate::token_type::TokenType;

verus! {

/// A scanner-produced token sequence: nonempty, ends with the end-of-input
/// marker, which appears nowhere else, and every literal payload is
/// well-formed.
pub open spec fn parser_tokens_wf(ts: Seq<Token>) -> bool {
    &&& ts.len() >= 1
    &&& ts[ts.len() - 1].ttype == TokenType::Eof
    &&& forall|k: int| 0 <= k < ts.len() - 1 ==> (#[trigger] ts[k]).ttype != TokenType::Eof
    &&& all_tokens_wf(ts)
}

/// A token kind that can start a new statement or declaration: the place
/// panic-mode recovery resumes at.
pub open spec fn starts_declaration(t: TokenType) -> bool {
    ||| t == TokenType::Class
    ||| t == TokenType::Fun
    ||| t == TokenType::Let
    ||| t == TokenType::For
    ||| t == TokenType::If
    ||| t == TokenType::While
    ||| t == TokenType::Print
    ||| t == TokenType::Return
}

/// A token that would extend a parse at the `factor` level.
pub open spec fn continues_factor(t: TokenType) -> bool {
    t == TokenType::Star || t == TokenType::Slash
}

/// A token that would extend a parse at the `term` level.
pub open spec fn continues_term(t: TokenType) -> bool {
    continues_factor(t) || t == TokenType::Minus || t == TokenType::Plus
}

/// A token that would extend a parse at the `comparison` level.
pub open spec fn continues_comparison(t: TokenType) -> bool {
    continues_term(t) || t == TokenType::Greater || t == TokenType::GreaterEqual || t
        == TokenType::Less || t == TokenType::LessEqual
}

/// A token that would extend a parse at the `equality` level.
pub open spec fn continues_equality(t: TokenType) -> bool {
    continues_comparison(t) || t == TokenType::BangEqual || t == TokenType::Equals
}

/// A token that would extend a parse at the `expression` level.
pub open spec fn continues_expression(t: TokenType) -> bool {
    continues_equality(t) || t == TokenType::Assign
}

/// The recursive-descent, precedence-climbing parser: one cursor over a
/// fixed token sequence, one token of lookahead, panic-mode recovery at
/// statement boundaries so that one pass can surface several independent
/// syntax errors.
pub struct Parser {
    tokens: Vec<Token>,
    current: usize,
    had_error: bool,
    errors: Vec<TeciError>,
}

impl Parser {
    /// The token sequence being parsed.
    pub closed spec fn toks(self) -> Seq<Token> {
        self.tokens@
    }

    /// The cursor.
    pub closed spec fn cur(self) -> int {
        self.current as int
    }

    /// No syntax error has been recorded.
    pub closed spec fn ok(self) -> bool {
        !self.had_error
    }

    /// How many syntax diagnostics have been recorded.
    pub closed spec fn error_count(self) -> nat {
        self.errors@.len()
    }

    /// The recorded syntax diagnostics, oldest first.
    pub closed spec fn errs(self) -> Seq<ErrModel> {
        err_models(self.errors@)
    }

    /// The cursor stands on the end-of-input token.
    pub closed spec fn at_end_spec(self) -> bool {
        self.tokens@[self.current as int].ttype == TokenType::Eof
    }

    /// Internal consistency: the token sequence is scanner-shaped, the
    /// cursor never passes the end-of-input token, and the error flag
    /// mirrors the recorded diagnostics.
    pub closed spec fn wf(self) -> bool {
        &&& parser_tokens_wf(self.tokens@)
        &&& self.current < self.tokens@.len()
        &&& self.had_error == (self.errors@.len() > 0)
    }

    pub fn new(tokens: Vec<Token>) -> (p: Parser)
        requires
            parser_tokens_wf(tokens@),
        ensures
            p.wf(),
            p.toks() == tokens@,
            p.cur() == 0,
            p.ok(),
            p.error_count() == 0,
            p.errs() == Seq::<ErrModel>::empty(),
            p.at_end_spec() == (tokens@[0].ttype == TokenType::Eof),
    {
        Parser { tokens, current: 0, had_error: false, errors: Vec::new() }
    }

    /// No syntax error was recorded over the whole parse.
    pub fn succeded(&self) -> (r: bool)
        ensures
            r == self.ok(),
    {
        !self.had_error
    }

    fn peek(&self) -> (t: Token)
        requires
            self.wf(),
        ensures
            t.ttype == self.toks()[self.cur()].ttype,
            t.lexeme == self.toks()[self.cur()].lexeme,
            t.literal == self.toks()[self.cur()].literal,
            t.line == self.toks()[self.cur()].line,
            t@ == self.toks()[self.cur()]@,
            t.wf() == self.toks()[self.cur()].wf(),
    {
        self.tokens[self.current].clone()
    }

    fn previous(&self) -> (t: Token)
        requires
            self.wf(),
            self.cur() >= 1,
        ensures
            t.ttype == self.toks()[self.cur() - 1].ttype,
            t.lexeme == self.toks()[self.cur() - 1].lexeme,
            t.literal == self.toks()[self.cur() - 1].literal,
            t.line == self.toks()[self.cur() - 1].line,
            t@ == self.toks()[self.cur() - 1]@,
            t.wf() == self.toks()[self.cur() - 1].wf(),
    {
        self.tokens[self.current - 1].clone()
    }

    fn is_at_end(&self) -> (b: bool)
        requires
            self.wf(),
        ensures
            b == self.at_end_spec(),
            b == (self.cur() == self.toks().len() - 1),
    {
        let b = matches!(self.tokens[self.current].ttype, TokenType::Eof);
        proof {
            if self.cur() < self.toks().len() - 1 {
                assert(self.toks()[self.cur()].ttype != TokenType::Eof);
            }
        }
        b
    }

    fn advance(&mut self) -> (t: Token)
        requires
            old(self).wf(),
            old(self).cur() >= 1 || !old(self).at_end_spec(),
        ensures
            final(self).wf(),
            final(self).toks() == old(self).toks(),
            final(self).errors == old(self).errors,
            final(self).ok() == old(self).ok(),
            final(self).error_count() == old(self).error_count(),
            final(self).cur() == (if old(self).at_end_spec() {
                old(self).cur()
            } else {
                old(self).cur() + 1
            }),
            t@ == old(self).toks()[final(self).cur() - 1]@,
            t.ttype == old(self).toks()[final(self).cur() - 1].ttype,
            t.literal == old(self).toks()[final(self).cur() - 1].literal,
            t.wf() == old(self).toks()[final(self).cur() - 1].wf(),
            final(self).cur() >= 1,
    {
        let n: usize = self.tokens.len();
        proof {
            assert(self.toks().len() == n);
        }
        if !self.is_at_end() {
            self.current = self.current + 1;
        }
        self.previous()
    }

    fn check(&self, ttype: TokenType) -> (b: bool)
        requires
            self.wf(),
        ensures
            b == (!self.at_end_spec() && self.toks()[self.cur()].ttype == ttype),
    {
        if self.is_at_end() {
            false
        } else {
            let t = self.peek();
            t.ttype == ttype
        }
    }

    fn is_match(&mut self, types: &[TokenType]) -> (b: bool)
        requires
            old(self).wf(),
        ensures
            final(self).wf(),
            final(self).toks() == old(self).toks(),
            final(self).errors == old(self).errors,
            final(self).ok() == old(self).ok(),
            final(self).error_count() == old(self).error_count(),
            b == (!old(self).at_end_spec() && types@.contains(
                old(self).toks()[old(self).cur()].ttype,
            )),
            final(self).cur() == (if b {
                old(self).cur() + 1
            } else {
                old(self).cur()
            }),
    {
        let mut i: usize = 0;
        while i < types.len()
            invariant
                old(self).wf(),
                *self == *old(self),
                i <= types@.len(),
                forall|k: int| 0 <= k < i ==> !(!old(self).at_end_spec() && (#[trigger] types@[k])
                    == old(self).toks()[old(self).cur()].ttype),
            decreases types@.len() - i,
        {
            if self.check(types[i]) {
                self.advance();
                return true;
            }
            i = i + 1;
        }
        false
    }

    /// Record a syntax diagnostic at the offending token and hand it back,
    /// marking the whole parse as failed.
    fn error(&mut self, token: Token, message: &str) -> (e: TeciError)
        requires
            old(self).wf(),
        ensures
            final(self).wf(),
            final(self).toks() == old(self).toks(),
            final(self).cur() == old(self).cur(),
            !final(self).ok(),
            final(self).error_count() == old(self).error_count() + 1,
            final(self).errs() == old(self).errs().push(e@),
            e@ == (crate::error::ErrModel {
                token: Some(token@),
                line: token.line as int,
                message: message@,
            }),
    {
        self.had_error = true;
        let e = TeciError::parse_error(token, message);
        self.errors.push(e.clone());
        proof {
            assert(self.errs() =~= old(self).errs().push(e@));
        }
        e
    }

    fn consume(&mut self, ttype: TokenType, error_message: &str) -> (r: Result<Token, TeciError>)
        requires
            old(self).wf(),
        ensures
            final(self).wf(),
            final(self).toks() == old(self).toks(),
            final(self).ok() ==> old(self).ok(),
            final(self).error_count() >= old(self).error_count(),
            r is Ok <==> !old(self).at_end_spec() && old(self).toks()[old(self).cur()].ttype
                == ttype,
            match r {
                Ok(t) => {
                    &&& final(self).cur() == old(self).cur() + 1
                    &&& t@ == old(self).toks()[old(self).cur()]@
                    &&& t.ttype == ttype
                    &&& t.wf() == old(self).toks()[old(self).cur()].wf()
                    &&& final(self).ok() == old(self).ok()
                    &&& final(self).error_count() == old(self).error_count()
                    &&& final(self).errs() == old(self).errs()
                },
                Err(e) => {
                    &&& final(self).cur() == old(self).cur()
                    &&& !final(self).ok()
                    &&& final(self).error_count() == old(self).error_count() + 1
                    &&& e@ == (ErrModel {
                        token: Some(old(self).toks()[old(self).cur()]@),
                        line: old(self).toks()[old(self).cur()].line as int,
                        message: error_message@,
                    })
                    &&& final(self).errs() == old(self).errs().push(e@)
                },
            },
    {
        if self.check(ttype) {
            Ok(self.advance())
        } else {
            let t = self.peek();
            Err(self.error(t, error_message))
        }
    }

    /// Panic-mode recovery: discard tokens until just past a statement
    /// terminator or at a token that can start a new declaration.
    fn synchronize(&mut self)
        requires
            old(self).wf(),
            old(self).cur() >= 1 || !old(self).at_end_spec(),
        ensures
            final(self).wf(),
            final(self).toks() == old(self).toks(),
            final(self).ok() == old(self).ok(),
            final(self).error_count() == old(self).error_count(),
            final(self).errs() == old(self).errs(),
            old(self).cur() <= final(self).cur(),
            !old(self).at_end_spec() ==> old(self).cur() < final(self).cur(),
            final(self).cur() >= 1,
            final(self).at_end_spec() || final(self).toks()[final(self).cur() - 1].ttype
                == TokenType::Semicolon || starts_declaration(
                final(self).toks()[final(self).cur()].ttype,
            ),
    {
        self.advance();
        while !self.is_at_end()
            invariant
                old(self).wf(),
                self.wf(),
                self.toks() == old(self).toks(),
                self.errors == old(self).errors,
                self.ok() == old(self).ok(),
                old(self).cur() <= self.cur(),
                !old(self).at_end_spec() ==> old(self).cur() < self.cur(),
                self.cur() >= 1,
            decreases self.toks().len() - self.cur(),
        {
            let prev = self.previous();
            if matches!(prev.ttype, TokenType::Semicolon) {
                return ;
            }
            let next = self.peek();
            if matches!(
                next.ttype,
                TokenType::Class | TokenType::Fun | TokenType::Let | TokenType::For | TokenType::If
                    | TokenType::While | TokenType::Print | TokenType::Return,
            ) {
                return ;
            }
            self.advance();
        }
    }
}

} // verus!

verus! {

/// What every parsing step preserves: the token sequence, forward-only
/// cursor movement, internal consistency, and the diagnostics ledger, which
/// only ever grows at its end.
pub open spec fn frame(pre: Parser, post: Parser) -> bool {
    &&& post.wf()
    &&& post.toks() == pre.toks()
    &&& pre.cur() <= post.cur()
    &&& post.error_count() >= pre.error_count()
    &&& (post.ok() ==> pre.ok())
    &&& pre.errs().len() <= post.errs().len()
    &&& forall|k: int| 0 <= k < pre.errs().len() ==> (#[trigger] post.errs()[k]) == pre.errs()[k]
}

impl Parser {
    /// Parse the whole program: the statements of every declaration that
    /// parsed, and every syntax diagnostic recorded on the way.  A nonempty
    /// diagnostic sequence marks the parse as failed; the partial statement
    /// list must not be executed then.
    pub fn parse(&mut self) -> (r: (Vec<Stmt>, Vec<TeciError>))
        requires
            old(self).wf(),
            old(self).ok(),
        ensures
            final(self).wf(),
            final(self).toks() == old(self).toks(),
            crate::stmt::stmts_wf(r.0@),
            final(self).ok() <==> r.1@.len() == 0,
            err_models(r.1@) == final(self).errs(),
            final(self).at_end_spec(),
            old(self).at_end_spec() ==> r.0@ == Seq::<Stmt>::empty() && r.1@.len() == 0
                && final(self).ok(),
            r.1@.len() == 0 && !old(self).at_end_spec() ==> r.0@.len() >= 1,
            r.1@.len() == 0 ==> spans_program(
                old(self).toks(),
                r.0@,
                old(self).cur(),
                old(self).toks().len() - 1,
            ),
            ({
                let acc = p_program(old(self).toks(), old(self).cur());
                (r.1@.len() == 0) <==> (acc matches Some(jc) && jc.1)
            }),
    {
        reveal(p_program);
        let mut statements: Vec<Stmt> = Vec::new();
        let ghost c0 = old(self).cur();
        while !self.is_at_end()
            invariant
                self.wf(),
                self.toks() == old(self).toks(),
                c0 == old(self).cur(),
                old(self).at_end_spec() ==> self.cur() == old(self).cur() && statements@
                    == Seq::<Stmt>::empty() && self.errs() == old(self).errs(),
                self.cur() > c0 ==> statements@.len() >= 1 || self.errs().len() > 0,
                old(self).errs().len() <= self.errs().len(),
                forall|k: int| 0 <= k < old(self).errs().len() ==> (#[trigger] self.errs()[k])
                    == old(self).errs()[k],
                (p_program(self.toks(), c0) matches Some(jc0) && jc0.1) ==> self.errs() == old(
                    self,
                ).errs(),
                self.errs() == old(self).errs() ==> (match p_program(self.toks(), self.cur()) {
                    Some(jc) => p_program(self.toks(), c0) == Some((jc.0, jc.1)),
                    None => p_program(self.toks(), c0) is None,
                }),
                crate::stmt::stmts_wf(statements@),
                self.error_count() == 0 ==> spans_program(
                    self.toks(),
                    statements@,
                    c0,
                    self.cur(),
                ),
            decreases self.toks().len() - self.cur(),
        {
            reveal(p_program);
            let ghost pcur = self.cur();
            let ghost perrs = self.errs();
            match self.declaration() {
                Ok(s) => {
                    proof {
                        let toks = self.toks();
                        if self.errs() == old(self).errs() {
                            assert(perrs =~= old(self).errs());
                            assert(self.errs() =~= perrs);
                        }
                        if p_program(toks, c0) is Some {
                            let jc0 = p_program(toks, c0)->Some_0;
                            if jc0.1 {
                                assert(perrs == old(self).errs());
                                assert(p_program(toks, pcur) == Some((jc0.0, true)));
                                assert(p_declaration(toks, pcur) matches Some(jc) && jc.1);
                                assert(self.errs() =~= old(self).errs());
                            }
                        }
                    }
                    let ghost ps = statements@;
                    proof {
                        if self.error_count() == 0 {
                            lemma_spans_program_snoc(
                                self.toks(),
                                ps,
                                s,
                                c0,
                                pcur,
                                self.cur(),
                            );
                        }
                    }
                    statements.push(s);
                    proof {
                        assert forall|k: int| 0 <= k < statements@.len() implies stmt_wf(
                            #[trigger] statements@[k],
                        ) by {
                            if k < ps.len() {
                                assert(stmt_wf(ps[k]));
                            }
                        }
                    }
                },
                Err(_) => {
                    proof {
                        let toks = self.toks();
                        if p_program(toks, c0) is Some {
                            let jc0 = p_program(toks, c0)->Some_0;
                            if jc0.1 {
                                assert(perrs == old(self).errs());
                                assert(p_program(toks, pcur) == Some((jc0.0, true)));
                                assert(p_declaration(toks, pcur) is Some);
                                assert(false);
                            }
                        }
                    }
                },
            }
        }
        proof {
            if self.errors@.len() == 0 {
                assert(self.errs() =~= old(self).errs());
            }
            if self.errs() == old(self).errs() {
                assert(self.errs().len() == 0);
            }
        }
        let recorded = self.errors.clone();
        proof {
            assert(err_models(recorded@) =~= self.errs());
        }
        (statements, recorded)
    }

    /// One declaration: a `let` declaration or a statement, recovering at a
    /// statement boundary after a syntax error.
    #[verifier::rlimit(100)]
    fn declaration(&mut self) -> (r: Result<Stmt, TeciError>)
        requires
            old(self).wf(),
            !old(self).at_end_spec(),
        ensures
            frame(*old(self), *final(self)),
            old(self).cur() < final(self).cur(),
            r is Err ==> final(self).error_count() > old(self).error_count(),
            r is Err ==> final(self).cur() >= 1 && (final(self).at_end_spec()
                || final(self).toks()[final(self).cur() - 1].ttype == TokenType::Semicolon
                || starts_declaration(final(self).toks()[final(self).cur()].ttype)),
            r is Ok ==> forall|k: int|
                old(self).errs().len() <= k < final(self).errs().len()
                    ==> ((#[trigger] final(self).errs()[k]).message
                    == "Invalid assignment target"@ && final(self).errs()[k].token is Some
                    && final(self).errs()[k].token->0.kind == TokenType::Assign),
            r is Ok ==> stmt_wf(r->Ok_0),
            r is Ok && final(self).error_count() == old(self).error_count()
                ==> spans_declaration(
                old(self).toks(),
                r->Ok_0,
                old(self).cur(),
                final(self).cur(),
            ),
            ({
                match p_declaration(old(self).toks(), old(self).cur()) {
                    Some(jc) => r is Ok && final(self).cur() == jc.0 && (jc.1
                        <==> final(self).errs() == old(self).errs()),
                    None => r is Err,
                }
            }),
        decreases old(self).toks().len() - old(self).cur(), 12int,
    {
        reveal(p_declaration);
        let matched = self.is_match(&[TokenType::Let]);
        let res = if matched {
            self.let_declaration()
        } else {
            self.statement()
        };
        match res {
            Ok(s) => Ok(s),
            Err(e) => {
                self.synchronize();
                Err(e)
            },
        }
    }

    /// `let IDENTIFIER ("=" expression)? ";"`, entered after the `let`
    /// keyword has been consumed.
    fn let_declaration(&mut self) -> (r: Result<Stmt, TeciError>)
        requires
            old(self).wf(),
        ensures
            frame(*old(self), *final(self)),
            r is Err ==> final(self).error_count() > old(self).error_count(),
            r is Ok ==> forall|k: int|
                old(self).errs().len() <= k < final(self).errs().len()
                    ==> ((#[trigger] final(self).errs()[k]).message
                    == "Invalid assignment target"@ && final(self).errs()[k].token is Some
                    && final(self).errs()[k].token->0.kind == TokenType::Assign),
            r is Ok ==> stmt_wf(r->Ok_0) && old(self).cur() < final(self).cur(),
            r is Ok && final(self).error_count() == old(self).error_count() ==> spans_let_tail(
                old(self).toks(),
                r->Ok_0,
                old(self).cur(),
                final(self).cur(),
            ),
            old(self).toks()[old(self).cur()].ttype != TokenType::Identifier ==> r is Err
                && r->Err_0@ == (ErrModel {
                token: Some(old(self).toks()[old(self).cur()]@),
                line: old(self).toks()[old(self).cur()].line as int,
                message: "Expected variable name"@,
            }) && final(self).errs() == old(self).errs().push(r->Err_0@),
            ({
                match p_let_tail(old(self).toks(), old(self).cur()) {
                    Some(jc) => r is Ok && final(self).cur() == jc.0 && (jc.1
                        <==> final(self).errs() == old(self).errs()),
                    None => r is Err,
                }
            }),
        decreases old(self).toks().len() - old(self).cur(), 11int,
    {
        reveal(p_let_tail);
        let name = self.consume(TokenType::Identifier, "Expected variable name")?;
        let matched = self.is_match(&[TokenType::Assign]);
        let initializer = if matched {
            Some(self.expression()?)
        } else {
            None
        };
        self.consume(TokenType::Semicolon, "Expected ';' after variable declaration")?;
        Ok(Stmt::Let(LetStmt { name, initializer }))
    }

    /// A print statement or an expression statement.
    fn statement(&mut self) -> (r: Result<Stmt, TeciError>)
        requires
            old(self).wf(),
        ensures
            frame(*old(self), *final(self)),
            r is Err ==> final(self).error_count() > old(self).error_count(),
            r is Ok ==> forall|k: int|
                old(self).errs().len() <= k < final(self).errs().len()
                    ==> ((#[trigger] final(self).errs()[k]).message
                    == "Invalid assignment target"@ && final(self).errs()[k].token is Some
                    && final(self).errs()[k].token->0.kind == TokenType::Assign),
            r is Ok ==> stmt_wf(r->Ok_0) && old(self).cur() < final(self).cur(),
            r is Ok && final(self).error_count() == old(self).error_count()
                ==> spans_plain_statement(
                old(self).toks(),
                r->Ok_0,
                old(self).cur(),
                final(self).cur(),
            ),
            ({
                match p_plain_statement(old(self).toks(), old(self).cur()) {
                    Some(jc) => r is Ok && final(self).cur() == jc.0 && (jc.1
                        <==> final(self).errs() == old(self).errs()),
                    None => r is Err,
                }
            }),
        decreases old(self).toks().len() - old(self).cur(), 11int,
    {
        reveal(p_plain_statement);
        let matched = self.is_match(&[TokenType::Print]);
        if matched {
            self.print_statement()
        } else {
            self.expr_statement()
        }
    }

    /// `print expression ";"`, entered after the `print` keyword.
    #[verifier::rlimit(50)]
    fn print_statement(&mut self) -> (r: Result<Stmt, TeciError>)
        requires
            old(self).wf(),
        ensures
            frame(*old(self), *final(self)),
            r is Err ==> final(self).error_count() > old(self).error_count(),
            r is Ok ==> forall|k: int|
                old(self).errs().len() <= k < final(self).errs().len()
                    ==> ((#[trigger] final(self).errs()[k]).message
                    == "Invalid assignment target"@ && final(self).errs()[k].token is Some
                    && final(self).errs()[k].token->0.kind == TokenType::Assign),
            r is Ok ==> stmt_wf(r->Ok_0) && old(self).cur() < final(self).cur(),
            r is Ok && final(self).error_count() == old(self).error_count() ==> ({
                &&& r->Ok_0 is Print
                &&& spans_expression(
                    old(self).toks(),
                    r->Ok_0->Print_0.expression,
                    old(self).cur(),
                    final(self).cur() - 1,
                )
                &&& old(self).toks()[final(self).cur() - 1].ttype == TokenType::Semicolon
            }),
            ({
                match p_expr_semi(old(self).toks(), old(self).cur()) {
                    Some(jc) => r is Ok && final(self).cur() == jc.0 && (jc.1
                        <==> final(self).errs() == old(self).errs()),
                    None => r is Err,
                }
            }),
        decreases old(self).toks().len() - old(self).cur(), 10int,
    {
        reveal(p_expr_semi);
        let expr = self.expression()?;
        self.consume(TokenType::Semicolon, "Expected ';' after expression")?;
        Ok(Stmt::Print(PrintStmt { expression: expr }))
    }

    /// `expression ";"`.
    #[verifier::rlimit(50)]
    fn expr_statement(&mut self) -> (r: Result<Stmt, TeciError>)
        requires
            old(self).wf(),
        ensures
            frame(*old(self), *final(self)),
            r is Err ==> final(self).error_count() > old(self).error_count(),
            r is Ok ==> forall|k: int|
                old(self).errs().len() <= k < final(self).errs().len()
                    ==> ((#[trigger] final(self).errs()[k]).message
                    == "Invalid assignment target"@ && final(self).errs()[k].token is Some
                    && final(self).errs()[k].token->0.kind == TokenType::Assign),
            r is Ok ==> stmt_wf(r->Ok_0) && old(self).cur() < final(self).cur(),
            r is Ok && final(self).error_count() == old(self).error_count() ==> ({
                &&& r->Ok_0 is Expression
                &&& spans_expression(
                    old(self).toks(),
                    r->Ok_0->Expression_0.expression,
                    old(self).cur(),
                    final(self).cur() - 1,
                )
                &&& old(self).toks()[final(self).cur() - 1].ttype == TokenType::Semicolon
            }),
            ({
                match p_expr_semi(old(self).toks(), old(self).cur()) {
                    Some(jc) => r is Ok && final(self).cur() == jc.0 && (jc.1
                        <==> final(self).errs() == old(self).errs()),
                    None => r is Err,
                }
            }),
        decreases old(self).toks().len() - old(self).cur(), 10int,
    {
        reveal(p_expr_semi);
        let expr = self.expression()?;
        self.consume(TokenType::Semicolon, "Expected ';' after expression")?;
        Ok(Stmt::Expression(ExpressionStmt { expression: expr }))
    }

    /// The expression entry point.
    fn expression(&mut self) -> (r: Result<Expr, TeciError>)
        requires
            old(self).wf(),
        ensures
            frame(*old(self), *final(self)),
            r is Err ==> final(self).error_count() > old(self).error_count(),
            r is Ok ==> forall|k: int|
                old(self).errs().len() <= k < final(self).errs().len()
                    ==> ((#[trigger] final(self).errs()[k]).message
                    == "Invalid assignment target"@ && final(self).errs()[k].token is Some
                    && final(self).errs()[k].token->0.kind == TokenType::Assign),
            r is Ok ==> expr_wf(r->Ok_0) && old(self).cur() < final(self).cur(),
            r is Ok && final(self).error_count() == old(self).error_count() ==> spans_expression(
                old(self).toks(),
                r->Ok_0,
                old(self).cur(),
                final(self).cur(),
            ),
            r is Ok ==> !continues_expression(final(self).toks()[final(self).cur()].ttype),
            ({
                match p_expression(old(self).toks(), old(self).cur()) {
                    Some(jc) => r is Ok && final(self).cur() == jc.0 && (jc.1
                        <==> final(self).errs() == old(self).errs()),
                    None => r is Err,
                }
            }),
            r is Ok ==> (r->Ok_0 is Variable <==> (final(self).cur() == old(self).cur() + 1
                && old(self).toks()[old(self).cur()].ttype == TokenType::Identifier)),
        decreases old(self).toks().len() - old(self).cur(), 9int,
    {
        self.assignment()
    }

    /// Right-associative assignment; the left-hand side must reduce to a
    /// variable, otherwise an invalid-assignment-target diagnostic is
    /// recorded without aborting the parse.
    #[verifier::rlimit(100)]
    #[verifier::spinoff_prover]
    fn assignment(&mut self) -> (r: Result<Expr, TeciError>)
        requires
            old(self).wf(),
        ensures
            frame(*old(self), *final(self)),
            r is Err ==> final(self).error_count() > old(self).error_count(),
            r is Ok ==> forall|k: int|
                old(self).errs().len() <= k < final(self).errs().len()
                    ==> ((#[trigger] final(self).errs()[k]).message
                    == "Invalid assignment target"@ && final(self).errs()[k].token is Some
                    && final(self).errs()[k].token->0.kind == TokenType::Assign),
            r is Ok ==> expr_wf(r->Ok_0) && old(self).cur() < final(self).cur(),
            r is Ok && final(self).error_count() == old(self).error_count() ==> spans_assignment(
                old(self).toks(),
                r->Ok_0,
                old(self).cur(),
                final(self).cur(),
            ),
            r is Ok ==> !continues_expression(final(self).toks()[final(self).cur()].ttype),
            ({
                match p_assignment(old(self).toks(), old(self).cur()) {
                    Some(jc) => r is Ok && final(self).cur() == jc.0 && (jc.1
                        <==> final(self).errs() == old(self).errs()),
                    None => r is Err,
                }
            }),
            r is Ok ==> (r->Ok_0 is Variable <==> (final(self).cur() == old(self).cur() + 1
                && old(self).toks()[old(self).cur()].ttype == TokenType::Identifier)),
        decreases old(self).toks().len() - old(self).cur(), 8int,
    {
        let ghost c0 = old(self).cur();
        let expr = self.equality()?;
        let ghost mid = self.cur();
        let matched = self.is_match(&[TokenType::Assign]);
        if matched {
            let equals = self.previous();
            let value = self.assignment()?;
            match expr {
                Expr::Variable(var_exp) => {
                    proof {
                        if self.error_count() == old(self).error_count() {
                            lemma_spans_variable(
                                old(self).toks(),
                                Expr::Variable(var_exp),
                                c0,
                                mid,
                            );
                        }
                    }
                    let name = var_exp.name;
                    return Ok(Expr::Assign(AssignExpr { name, value: Box::new(value) }));
                },
                other => {
                    self.error(equals, "Invalid assignment target");
                    return Ok(other);
                },
            }
        }
        Ok(expr)
    }

    /// Left-associative equality operators.
    fn equality(&mut self) -> (r: Result<Expr, TeciError>)
        requires
            old(self).wf(),
        ensures
            frame(*old(self), *final(self)),
            r is Err ==> final(self).error_count() > old(self).error_count(),
            r is Ok ==> forall|k: int|
                old(self).errs().len() <= k < final(self).errs().len()
                    ==> ((#[trigger] final(self).errs()[k]).message
                    == "Invalid assignment target"@ && final(self).errs()[k].token is Some
                    && final(self).errs()[k].token->0.kind == TokenType::Assign),
            r is Ok ==> expr_wf(r->Ok_0) && old(self).cur() < final(self).cur(),
            r is Ok && final(self).error_count() == old(self).error_count() ==> spans_equality(
                old(self).toks(),
                r->Ok_0,
                old(self).cur(),
                final(self).cur(),
            ),
            r is Ok ==> !continues_equality(final(self).toks()[final(self).cur()].ttype),
            ({
                match p_equality(old(self).toks(), old(self).cur()) {
                    Some(jc) => r is Ok && final(self).cur() == jc.0 && (jc.1
                        <==> final(self).errs() == old(self).errs()),
                    None => r is Err,
                }
            }),
            r is Ok ==> (r->Ok_0 is Variable <==> (final(self).cur() == old(self).cur() + 1
                && old(self).toks()[old(self).cur()].ttype == TokenType::Identifier)),
        decreases old(self).toks().len() - old(self).cur(), 7int,
    {
        let ghost c0 = old(self).cur();
        let mut expr = self.comparison()?;
        loop
            invariant
                self.wf(),
                self.toks() == old(self).toks(),
                old(self).cur() < self.cur(),
                self.error_count() >= old(self).error_count(),
                (self.ok() ==> old(self).ok()),
                old(self).errs().len() <= self.errs().len(),
                forall|k: int| 0 <= k < old(self).errs().len() ==> (#[trigger] self.errs()[k])
                    == old(self).errs()[k],
                forall|k: int|
                    old(self).errs().len() <= k < self.errs().len()
                        ==> ((#[trigger] self.errs()[k]).message == "Invalid assignment target"@
                        && self.errs()[k].token is Some && self.errs()[k].token->0.kind
                        == TokenType::Assign),
                expr_wf(expr),
                c0 == old(self).cur(),
                expr is Variable <==> (self.cur() == c0 + 1 && self.toks()[c0].ttype
                    == TokenType::Identifier),
                self.error_count() == old(self).error_count() ==> spans_equality(
                    self.toks(),
                    expr,
                    c0,
                    self.cur(),
                ),
                !continues_comparison(self.toks()[self.cur()].ttype),
                ({
                    match p_equality_loop(self.toks(), self.cur()) {
                        Some(jc) => p_equality(self.toks(), c0) == Some(
                            (jc.0, (self.errs() == old(self).errs()) && jc.1),
                        ),
                        None => p_equality(self.toks(), c0) is None,
                    }
                }),
            ensures
                !continues_equality(self.toks()[self.cur()].ttype),
            decreases self.toks().len() - self.cur(),
        {
            let ghost lend = self.cur();
            let ghost perrs = self.errs();
            let matched = self.is_match(&[TokenType::BangEqual, TokenType::Equals]);
            if !matched {
                break ;
            }
            let operator = self.previous();
            let right = self.comparison()?;
            expr = Expr::Binary(
                BinaryExpr { left: Box::new(expr), operator, right: Box::new(right) },
            );
            proof {
                if self.errs() == old(self).errs() {
                    assert(perrs =~= old(self).errs());
                }
                if perrs == old(self).errs() && self.errs() == perrs {
                    assert(self.errs() =~= old(self).errs());
                }
                if self.error_count() == old(self).error_count() {
                    let toks = self.toks();
                    let b = expr->Binary_0;
                    assert(spans_equality(toks, *b.left, c0, lend));
                    assert(b.operator@ == toks[lend]@);
                    assert(spans_comparison(toks, *b.right, lend + 1, self.cur()));
                    assert(exists|m: int|
                        {
                            &&& c0 < m < self.cur()
                            &&& 0 <= m < toks.len()
                            &&& b.operator@ == (#[trigger] toks[m])@
                            &&& b.operator.ttype == toks[m].ttype
                            &&& spans_equality(toks, *b.left, c0, m)
                            &&& spans_comparison(toks, *b.right, m + 1, self.cur())
                        }) by {
                        assert(spans_equality(toks, *b.left, c0, lend) && spans_comparison(
                            toks,
                            *b.right,
                            lend + 1,
                            self.cur(),
                        ));
                    }
                }
            }
        }
        Ok(expr)
    }

    /// Left-associative relational operators.
    fn comparison(&mut self) -> (r: Result<Expr, TeciError>)
        requires
            old(self).wf(),
        ensures
            frame(*old(self), *final(self)),
            r is Err ==> final(self).error_count() > old(self).error_count(),
            r is Ok ==> forall|k: int|
                old(self).errs().len() <= k < final(self).errs().len()
                    ==> ((#[trigger] final(self).errs()[k]).message
                    == "Invalid assignment target"@ && final(self).errs()[k].token is Some
                    && final(self).errs()[k].token->0.kind == TokenType::Assign),
            r is Ok ==> expr_wf(r->Ok_0) && old(self).cur() < final(self).cur(),
            r is Ok && final(self).error_count() == old(self).error_count() ==> spans_comparison(
                old(self).toks(),
                r->Ok_0,
                old(self).cur(),
                final(self).cur(),
            ),
            r is Ok ==> !continues_comparison(final(self).toks()[final(self).cur()].ttype),
            ({
                match p_comparison(old(self).toks(), old(self).cur()) {
                    Some(jc) => r is Ok && final(self).cur() == jc.0 && (jc.1
                        <==> final(self).errs() == old(self).errs()),
                    None => r is Err,
                }
            }),
            r is Ok ==> (r->Ok_0 is Variable <==> (final(self).cur() == old(self).cur() + 1
                && old(self).toks()[old(self).cur()].ttype == TokenType::Identifier)),
        decreases old(self).toks().len() - old(self).cur(), 6int,
    {
        let ghost c0 = old(self).cur();
        let mut expr = self.term()?;
        loop
            invariant
                self.wf(),
                self.toks() == old(self).toks(),
                old(self).cur() < self.cur(),
                self.error_count() >= old(self).error_count(),
                (self.ok() ==> old(self).ok()),
                old(self).errs().len() <= self.errs().len(),
                forall|k: int| 0 <= k < old(self).errs().len() ==> (#[trigger] self.errs()[k])
                    == old(self).errs()[k],
                forall|k: int|
                    old(self).errs().len() <= k < self.errs().len()
                        ==> ((#[trigger] self.errs()[k]).message == "Invalid assignment target"@
                        && self.errs()[k].token is Some && self.errs()[k].token->0.kind
                        == TokenType::Assign),
                expr_wf(expr),
                c0 == old(self).cur(),
                expr is Variable <==> (self.cur() == c0 + 1 && self.toks()[c0].ttype
                    == TokenType::Identifier),
                self.error_count() == old(self).error_count() ==> spans_comparison(
                    self.toks(),
                    expr,
                    c0,
                    self.cur(),
                ),
                !continues_term(self.toks()[self.cur()].ttype),
                ({
                    match p_comparison_loop(self.toks(), self.cur()) {
                        Some(jc) => p_comparison(self.toks(), c0) == Some(
                            (jc.0, (self.errs() == old(self).errs()) && jc.1),
                        ),
                        None => p_comparison(self.toks(), c0) is None,
                    }
                }),
            ensures
                !continues_comparison(self.toks()[self.cur()].ttype),
            decreases self.toks().len() - self.cur(),
        {
            let ghost lend = self.cur();
            let ghost perrs = self.errs();
            let matched = self.is_match(
                &[
                    TokenType::Greater,
                    TokenType::GreaterEqual,
                    TokenType::Less,
                    TokenType::LessEqual,
                ],
            );
            if !matched {
                break ;
            }
            let operator = self.previous();
            let right = self.term()?;
            expr = Expr::Binary(
                BinaryExpr { left: Box::new(expr), operator, right: Box::new(right) },
            );
            proof {
                if self.errs() == old(self).errs() {
                    assert(perrs =~= old(self).errs());
                }
                if perrs == old(self).errs() && self.errs() == perrs {
                    assert(self.errs() =~= old(self).errs());
                }
                if self.error_count() == old(self).error_count() {
                    let toks = self.toks();
                    let b = expr->Binary_0;
                    assert(spans_comparison(toks, *b.left, c0, lend));
                    assert(b.operator@ == toks[lend]@);
                    assert(spans_term(toks, *b.right, lend + 1, self.cur()));
                    assert(exists|m: int|
                        {
                            &&& c0 < m < self.cur()
                            &&& 0 <= m < toks.len()
                            &&& b.operator@ == (#[trigger] toks[m])@
                            &&& b.operator.ttype == toks[m].ttype
                            &&& spans_comparison(toks, *b.left, c0, m)
                            &&& spans_term(toks, *b.right, m + 1, self.cur())
                        }) by {
                        assert(spans_comparison(toks, *b.left, c0, lend) && spans_term(
                            toks,
                            *b.right,
                            lend + 1,
                            self.cur(),
                        ));
                    }
                }
            }
        }
        Ok(expr)
    }

    /// Left-associative additive operators.
    fn term(&mut self) -> (r: Result<Expr, TeciError>)
        requires
            old(self).wf(),
        ensures
            frame(*old(self), *final(self)),
            r is Err ==> final(self).error_count() > old(self).error_count(),
            r is Ok ==> forall|k: int|
                old(self).errs().len() <= k < final(self).errs().len()
                    ==> ((#[trigger] final(self).errs()[k]).message
                    == "Invalid assignment target"@ && final(self).errs()[k].token is Some
                    && final(self).errs()[k].token->0.kind == TokenType::Assign),
            r is Ok ==> expr_wf(r->Ok_0) && old(self).cur() < final(self).cur(),
            r is Ok && final(self).error_count() == old(self).error_count() ==> spans_term(
                old(self).toks(),
                r->Ok_0,
                old(self).cur(),
                final(self).cur(),
            ),
            r is Ok ==> !continues_term(final(self).toks()[final(self).cur()].ttype),
            ({
                match p_term(old(self).toks(), old(self).cur()) {
                    Some(jc) => r is Ok && final(self).cur() == jc.0 && (jc.1
                        <==> final(self).errs() == old(self).errs()),
                    None => r is Err,
                }
            }),
            r is Ok ==> (r->Ok_0 is Variable <==> (final(self).cur() == old(self).cur() + 1
                && old(self).toks()[old(self).cur()].ttype == TokenType::Identifier)),
        decreases old(self).toks().len() - old(self).cur(), 5int,
    {
        let ghost c0 = old(self).cur();
        let mut expr = self.factor()?;
        loop
            invariant
                self.wf(),
                self.toks() == old(self).toks(),
                old(self).cur() < self.cur(),
                self.error_count() >= old(self).error_count(),
                (self.ok() ==> old(self).ok()),
                old(self).errs().len() <= self.errs().len(),
                forall|k: int| 0 <= k < old(self).errs().len() ==> (#[trigger] self.errs()[k])
                    == old(self).errs()[k],
                forall|k: int|
                    old(self).errs().len() <= k < self.errs().len()
                        ==> ((#[trigger] self.errs()[k]).message == "Invalid assignment target"@
                        && self.errs()[k].token is Some && self.errs()[k].token->0.kind
                        == TokenType::Assign),
                expr_wf(expr),
                c0 == old(self).cur(),
                expr is Variable <==> (self.cur() == c0 + 1 && self.toks()[c0].ttype
                    == TokenType::Identifier),
                self.error_count() == old(self).error_count() ==> spans_term(
                    self.toks(),
                    expr,
                    c0,
                    self.cur(),
                ),
                !continues_factor(self.toks()[self.cur()].ttype),
                ({
                    match p_term_loop(self.toks(), self.cur()) {
                        Some(jc) => p_term(self.toks(), c0) == Some(
                            (jc.0, (self.errs() == old(self).errs()) && jc.1),
                        ),
                        None => p_term(self.toks(), c0) is None,
                    }
                }),
            ensures
                !continues_term(self.toks()[self.cur()].ttype),
            decreases self.toks().len() - self.cur(),
        {
            let ghost lend = self.cur();
            let ghost perrs = self.errs();
            let matched = self.is_match(&[TokenType::Minus, TokenType::Plus]);
            if !matched {
                break ;
            }
            let operator = self.previous();
            let right = self.factor()?;
            expr = Expr::Binary(
                BinaryExpr { left: Box::new(expr), operator, right: Box::new(right) },
            );
            proof {
                if self.errs() == old(self).errs() {
                    assert(perrs =~= old(self).errs());
                }
                if perrs == old(self).errs() && self.errs() == perrs {
                    assert(self.errs() =~= old(self).errs());
                }
                if self.error_count() == old(self).error_count() {
                    let toks = self.toks();
                    let b = expr->Binary_0;
                    assert(spans_term(toks, *b.left, c0, lend));
                    assert(b.operator@ == toks[lend]@);
                    assert(spans_factor(toks, *b.right, lend + 1, self.cur()));
                    assert(exists|m: int|
                        {
                            &&& c0 < m < self.cur()
                            &&& 0 <= m < toks.len()
                            &&& b.operator@ == (#[trigger] toks[m])@
                            &&& b.operator.ttype == toks[m].ttype
                            &&& spans_term(toks, *b.left, c0, m)
                            &&& spans_factor(toks, *b.right, m + 1, self.cur())
                        }) by {
                        assert(spans_term(toks, *b.left, c0, lend) && spans_factor(
                            toks,
                            *b.right,
                            lend + 1,
                            self.cur(),
                        ));
                    }
                }
            }
        }
        Ok(expr)
    }

    /// Left-associative multiplicative operators.
    fn factor(&mut self) -> (r: Result<Expr, TeciError>)
        requires
            old(self).wf(),
        ensures
            frame(*old(self), *final(self)),
            r is Err ==> final(self).error_count() > old(self).error_count(),
            r is Ok ==> forall|k: int|
                old(self).errs().len() <= k < final(self).errs().len()
                    ==> ((#[trigger] final(self).errs()[k]).message
                    == "Invalid assignment target"@ && final(self).errs()[k].token is Some
                    && final(self).errs()[k].token->0.kind == TokenType::Assign),
            r is Ok ==> expr_wf(r->Ok_0) && old(self).cur() < final(self).cur(),
            r is Ok && final(self).error_count() == old(self).error_count() ==> spans_factor(
                old(self).toks(),
                r->Ok_0,
                old(self).cur(),
                final(self).cur(),
            ),
            r is Ok ==> !continues_factor(final(self).toks()[final(self).cur()].ttype),
            ({
                match p_factor(old(self).toks(), old(self).cur()) {
                    Some(jc) => r is Ok && final(self).cur() == jc.0 && (jc.1
                        <==> final(self).errs() == old(self).errs()),
                    None => r is Err,
                }
            }),
            r is Ok ==> (r->Ok_0 is Variable <==> (final(self).cur() == old(self).cur() + 1
                && old(self).toks()[old(self).cur()].ttype == TokenType::Identifier)),
        decreases old(self).toks().len() - old(self).cur(), 4int,
    {
        let ghost c0 = old(self).cur();
        let mut expr = self.unary()?;
        loop
            invariant
                self.wf(),
                self.toks() == old(self).toks(),
                old(self).cur() < self.cur(),
                self.error_count() >= old(self).error_count(),
                (self.ok() ==> old(self).ok()),
                old(self).errs().len() <= self.errs().len(),
                forall|k: int| 0 <= k < old(self).errs().len() ==> (#[trigger] self.errs()[k])
                    == old(self).errs()[k],
                forall|k: int|
                    old(self).errs().len() <= k < self.errs().len()
                        ==> ((#[trigger] self.errs()[k]).message == "Invalid assignment target"@
                        && self.errs()[k].token is Some && self.errs()[k].token->0.kind
                        == TokenType::Assign),
                expr_wf(expr),
                c0 == old(self).cur(),
                expr is Variable <==> (self.cur() == c0 + 1 && self.toks()[c0].ttype
                    == TokenType::Identifier),
                self.error_count() == old(self).error_count() ==> spans_factor(
                    self.toks(),
                    expr,
                    c0,
                    self.cur(),
                ),
                ({
                    match p_factor_loop(self.toks(), self.cur()) {
                        Some(jc) => p_factor(self.toks(), c0) == Some(
                            (jc.0, (self.errs() == old(self).errs()) && jc.1),
                        ),
                        None => p_factor(self.toks(), c0) is None,
                    }
                }),
            ensures
                !continues_factor(self.toks()[self.cur()].ttype),
            decreases self.toks().len() - self.cur(),
        {
            let ghost lend = self.cur();
            let ghost perrs = self.errs();
            let matched = self.is_match(&[TokenType::Star, TokenType::Slash]);
            if !matched {
                break ;
            }
            let operator = self.previous();
            let right = self.unary()?;
            expr = Expr::Binary(
                BinaryExpr { left: Box::new(expr), operator, right: Box::new(right) },
            );
            proof {
                if self.errs() == old(self).errs() {
                    assert(perrs =~= old(self).errs());
                }
                if perrs == old(self).errs() && self.errs() == perrs {
                    assert(self.errs() =~= old(self).errs());
                }
                if self.error_count() == old(self).error_count() {
                    let toks = self.toks();
                    let b = expr->Binary_0;
                    assert(spans_factor(toks, *b.left, c0, lend));
                    assert(b.operator@ == toks[lend]@);
                    assert(spans_unary(toks, *b.right, lend + 1, self.cur()));
                    assert(exists|m: int|
                        {
                            &&& c0 < m < self.cur()
                            &&& 0 <= m < toks.len()
                            &&& b.operator@ == (#[trigger] toks[m])@
                            &&& b.operator.ttype == toks[m].ttype
                            &&& spans_factor(toks, *b.left, c0, m)
                            &&& spans_unary(toks, *b.right, m + 1, self.cur())
                        }) by {
                        assert(spans_factor(toks, *b.left, c0, lend) && spans_unary(
                            toks,
                            *b.right,
                            lend + 1,
                            self.cur(),
                        ));
                    }
                }
            }
        }
        Ok(expr)
    }

    /// Right-associative unary operators.
    #[verifier::rlimit(100)]
    fn unary(&mut self) -> (r: Result<Expr, TeciError>)
        requires
            old(self).wf(),
        ensures
            frame(*old(self), *final(self)),
            r is Err ==> final(self).error_count() > old(self).error_count(),
            r is Ok ==> forall|k: int|
                old(self).errs().len() <= k < final(self).errs().len()
                    ==> ((#[trigger] final(self).errs()[k]).message
                    == "Invalid assignment target"@ && final(self).errs()[k].token is Some
                    && final(self).errs()[k].token->0.kind == TokenType::Assign),
            r is Ok ==> expr_wf(r->Ok_0) && old(self).cur() < final(self).cur(),
            r is Ok && final(self).error_count() == old(self).error_count() ==> spans_unary(
                old(self).toks(),
                r->Ok_0,
                old(self).cur(),
                final(self).cur(),
            ),
            ({
                match p_unary(old(self).toks(), old(self).cur()) {
                    Some(jc) => r is Ok && final(self).cur() == jc.0 && (jc.1
                        <==> final(self).errs() == old(self).errs()),
                    None => r is Err,
                }
            }),
            r is Ok ==> (r->Ok_0 is Variable <==> (final(self).cur() == old(self).cur() + 1
                && old(self).toks()[old(self).cur()].ttype == TokenType::Identifier)),
        decreases old(self).toks().len() - old(self).cur(), 3int,
    {
        let matched = self.is_match(&[TokenType::Bang, TokenType::Minus]);
        if matched {
            let operator = self.previous();
            let right = self.unary()?;
            Ok(Expr::Unary(UnaryExpr { operator, right: Box::new(right) }))
        } else {
            self.primary()
        }
    }

    /// Literals, variables and parenthesized expressions.
    #[verifier::rlimit(100)]
    fn primary(&mut self) -> (r: Result<Expr, TeciError>)
        requires
            old(self).wf(),
        ensures
            frame(*old(self), *final(self)),
            r is Err ==> final(self).error_count() > old(self).error_count(),
            r is Ok ==> forall|k: int|
                old(self).errs().len() <= k < final(self).errs().len()
                    ==> ((#[trigger] final(self).errs()[k]).message
                    == "Invalid assignment target"@ && final(self).errs()[k].token is Some
                    && final(self).errs()[k].token->0.kind == TokenType::Assign),
            r is Ok ==> expr_wf(r->Ok_0) && old(self).cur() < final(self).cur(),
            r is Ok && final(self).error_count() == old(self).error_count() ==> spans_primary(
                old(self).toks(),
                r->Ok_0,
                old(self).cur(),
                final(self).cur(),
            ),
            ({
                let k = old(self).toks()[old(self).cur()].ttype;
                (k == TokenType::False || k == TokenType::True || k == TokenType::Nil || k
                    == TokenType::String || k == TokenType::Number || k == TokenType::Identifier)
                    ==> r is Ok && final(self).cur() == old(self).cur() + 1 && final(self).errs()
                    == old(self).errs()
            }),
            ({
                let k = old(self).toks()[old(self).cur()].ttype;
                !(k == TokenType::False || k == TokenType::True || k == TokenType::Nil || k
                    == TokenType::String || k == TokenType::Number || k == TokenType::Identifier
                    || k == TokenType::LeftParen) ==> r is Err && final(self).cur() == old(
                    self,
                ).cur() && r->Err_0@ == (ErrModel {
                    token: Some(old(self).toks()[old(self).cur()]@),
                    line: old(self).toks()[old(self).cur()].line as int,
                    message: "Expected expression"@,
                }) && final(self).errs() == old(self).errs().push(r->Err_0@)
            }),
            ({
                match p_primary(old(self).toks(), old(self).cur()) {
                    Some(jc) => r is Ok && final(self).cur() == jc.0 && (jc.1
                        <==> final(self).errs() == old(self).errs()),
                    None => r is Err,
                }
            }),
            r is Ok ==> (r->Ok_0 is Variable <==> (final(self).cur() == old(self).cur() + 1
                && old(self).toks()[old(self).cur()].ttype == TokenType::Identifier)),
        decreases old(self).toks().len() - old(self).cur(), 2int,
    {
        let matched = self.is_match(&[TokenType::False]);
        if matched {
            return Ok(Expr::Literal(LiteralExpr { value: Some(Object::Bool(false)) }));
        }
        let matched = self.is_match(&[TokenType::True]);
        if matched {
            return Ok(Expr::Literal(LiteralExpr { value: Some(Object::Bool(true)) }));
        }
        let matched = self.is_match(&[TokenType::Nil]);
        if matched {
            return Ok(Expr::Literal(LiteralExpr { value: Some(Object::Nil) }));
        }
        let matched = self.is_match(&[TokenType::String, TokenType::Number]);
        if matched {
            let prev = self.previous();
            return Ok(Expr::Literal(LiteralExpr { value: prev.literal }));
        }
        let matched = self.is_match(&[TokenType::LeftParen]);
        if matched {
            let expr = self.expression()?;
            self.consume(TokenType::RightParen, "Expected ')' after expression")?;
            return Ok(Expr::Grouping(GroupingExpr { expression: Box::new(expr) }));
        }
        let matched = self.is_match(&[TokenType::Identifier]);
        if matched {
            let prev = self.previous();
            return Ok(Expr::Variable(VariableExpr { name: prev }));
        }
        let t = self.peek();
        Err(self.error(t, "Expected expression"))
    }
}

} // verus!

verus! {

// ---------------------------------------------------------------------------
// The grammar, as a relation between token spans and trees.
//
// `spans_X(toks, e, i, j)` says: tree `e` is the parse of `toks[i .. j)` at
// precedence level `X`, exactly as the grammar
//
//     program     := declaration* EOF
//     declaration := "let" letDecl | statement
//     letDecl     := IDENTIFIER ("=" expression)? ";"
//     statement   := "print" expression ";" | expression ";"
//     expression  := assignment
//     assignment  := IDENTIFIER "=" assignment | equality
//     equality    := comparison (("!=" | "==") comparison)*
//     comparison  := term ((">" | ">=" | "<" | "<=") term)*
//     term        := factor (("-" | "+") factor)*
//     factor      := unary (("*" | "/") unary)*
//     unary       := ("!" | "-") unary | primary
//     primary     := NUMBER | STRING | "true" | "false" | "nil"
//                  | IDENTIFIER | "(" expression ")"
//
// derives it.  Each parsing function promises that, when it succeeds
// without recording a diagnostic, its result stands in this relation with
// exactly the tokens it consumed.
// ---------------------------------------------------------------------------
/// `primary`: a literal, a variable, or a parenthesized expression.
pub open spec fn spans_primary(toks: Seq<Token>, e: Expr, i: int, j: int) -> bool
    decreases e, 0int,
{
    match e {
        Expr::Literal(l) => {
            &&& 0 <= i < toks.len()
            &&& j == i + 1
            &&& {
                ||| (toks[i].ttype == TokenType::False && l.value == Some(Object::Bool(false)))
                ||| (toks[i].ttype == TokenType::True && l.value == Some(Object::Bool(true)))
                ||| (toks[i].ttype == TokenType::Nil && l.value == Some(Object::Nil))
                ||| ((toks[i].ttype == TokenType::String || toks[i].ttype == TokenType::Number)
                    && l.value == toks[i].literal)
            }
        },
        Expr::Variable(v) => {
            &&& 0 <= i < toks.len()
            &&& j == i + 1
            &&& toks[i].ttype == TokenType::Identifier
            &&& v.name@ == toks[i]@
        },
        Expr::Grouping(g) => {
            &&& 0 <= i
            &&& i + 1 < j <= toks.len()
            &&& toks[i].ttype == TokenType::LeftParen
            &&& toks[j - 1].ttype == TokenType::RightParen
            &&& spans_expression(toks, *g.expression, i + 1, j - 1)
        },
        _ => false,
    }
}

/// `unary`: `!` or `-` applied recursively, or a primary.
pub open spec fn spans_unary(toks: Seq<Token>, e: Expr, i: int, j: int) -> bool
    decreases e, 1int,
{
    ||| (match e {
        Expr::Unary(u) => {
            &&& 0 <= i < toks.len()
            &&& (toks[i].ttype == TokenType::Bang || toks[i].ttype == TokenType::Minus)
            &&& u.operator@ == toks[i]@
            &&& u.operator.ttype == toks[i].ttype
            &&& spans_unary(toks, *u.right, i + 1, j)
        },
        _ => false,
    })
    ||| spans_primary(toks, e, i, j)
}

/// `factor`: left-associative `*` and `/` over unary.
pub open spec fn spans_factor(toks: Seq<Token>, e: Expr, i: int, j: int) -> bool
    decreases e, 2int,
{
    ||| (match e {
        Expr::Binary(b) => {
            &&& (b.operator.ttype == TokenType::Star || b.operator.ttype == TokenType::Slash)
            &&& exists|m: int|
                {
                    &&& i < m < j
                    &&& 0 <= m < toks.len()
                    &&& b.operator@ == (#[trigger] toks[m])@
                    &&& b.operator.ttype == toks[m].ttype
                    &&& spans_factor(toks, *b.left, i, m)
                    &&& spans_unary(toks, *b.right, m + 1, j)
                }
        },
        _ => false,
    })
    ||| spans_unary(toks, e, i, j)
}

/// `term`: left-associative `-` and `+` over factor.
pub open spec fn spans_term(toks: Seq<Token>, e: Expr, i: int, j: int) -> bool
    decreases e, 3int,
{
    ||| (match e {
        Expr::Binary(b) => {
            &&& (b.operator.ttype == TokenType::Minus || b.operator.ttype == TokenType::Plus)
            &&& exists|m: int|
                {
                    &&& i < m < j
                    &&& 0 <= m < toks.len()
                    &&& b.operator@ == (#[trigger] toks[m])@
                    &&& b.operator.ttype == toks[m].ttype
                    &&& spans_term(toks, *b.left, i, m)
                    &&& spans_factor(toks, *b.right, m + 1, j)
                }
        },
        _ => false,
    })
    ||| spans_factor(toks, e, i, j)
}

/// `comparison`: left-associative relational operators over term.
pub open spec fn spans_comparison(toks: Seq<Token>, e: Expr, i: int, j: int) -> bool
    decreases e, 4int,
{
    ||| (match e {
        Expr::Binary(b) => {
            &&& (b.operator.ttype == TokenType::Greater || b.operator.ttype
                == TokenType::GreaterEqual || b.operator.ttype == TokenType::Less
                || b.operator.ttype == TokenType::LessEqual)
            &&& exists|m: int|
                {
                    &&& i < m < j
                    &&& 0 <= m < toks.len()
                    &&& b.operator@ == (#[trigger] toks[m])@
                    &&& b.operator.ttype == toks[m].ttype
                    &&& spans_comparison(toks, *b.left, i, m)
                    &&& spans_term(toks, *b.right, m + 1, j)
                }
        },
        _ => false,
    })
    ||| spans_term(toks, e, i, j)
}

/// `equality`: left-associative `!=` and `==` over comparison.
pub open spec fn spans_equality(toks: Seq<Token>, e: Expr, i: int, j: int) -> bool
    decreases e, 5int,
{
    ||| (match e {
        Expr::Binary(b) => {
            &&& (b.operator.ttype == TokenType::BangEqual || b.operator.ttype
                == TokenType::Equals)
            &&& exists|m: int|
                {
                    &&& i < m < j
                    &&& 0 <= m < toks.len()
                    &&& b.operator@ == (#[trigger] toks[m])@
                    &&& b.operator.ttype == toks[m].ttype
                    &&& spans_equality(toks, *b.left, i, m)
                    &&& spans_comparison(toks, *b.right, m + 1, j)
                }
        },
        _ => false,
    })
    ||| spans_comparison(toks, e, i, j)
}

/// `assignment`: a variable assigned the assignment to its right, or an
/// equality.
pub open spec fn spans_assignment(toks: Seq<Token>, e: Expr, i: int, j: int) -> bool
    decreases e, 6int,
{
    ||| (match e {
        Expr::Assign(a) => {
            &&& 0 <= i
            &&& i + 1 < toks.len()
            &&& toks[i].ttype == TokenType::Identifier
            &&& a.name@ == toks[i]@
            &&& toks[i + 1].ttype == TokenType::Assign
            &&& spans_assignment(toks, *a.value, i + 2, j)
        },
        _ => false,
    })
    ||| spans_equality(toks, e, i, j)
}

/// `expression` is `assignment`.
pub open spec fn spans_expression(toks: Seq<Token>, e: Expr, i: int, j: int) -> bool
    decreases e, 7int,
{
    spans_assignment(toks, e, i, j)
}

/// The tail of a `let` declaration, after the keyword itself.
pub open spec fn spans_let_tail(toks: Seq<Token>, s: Stmt, i: int, j: int) -> bool {
    match s {
        Stmt::Let(ls) => {
            &&& 0 <= i < toks.len()
            &&& toks[i].ttype == TokenType::Identifier
            &&& ls.name@ == toks[i]@
            &&& match ls.initializer {
                None => {
                    &&& j == i + 2
                    &&& i + 1 < toks.len()
                    &&& toks[i + 1].ttype == TokenType::Semicolon
                },
                Some(init) => {
                    &&& i + 1 < toks.len()
                    &&& toks[i + 1].ttype == TokenType::Assign
                    &&& i + 2 < j - 1 + 1
                    &&& 0 <= j - 1 < toks.len()
                    &&& toks[j - 1].ttype == TokenType::Semicolon
                    &&& spans_expression(toks, init, i + 2, j - 1)
                },
            }
        },
        _ => false,
    }
}

/// A print statement or an expression statement.
pub open spec fn spans_plain_statement(toks: Seq<Token>, s: Stmt, i: int, j: int) -> bool {
    match s {
        Stmt::Print(ps) => {
            &&& 0 <= i < toks.len()
            &&& toks[i].ttype == TokenType::Print
            &&& 0 <= j - 1 < toks.len()
            &&& toks[j - 1].ttype == TokenType::Semicolon
            &&& spans_expression(toks, ps.expression, i + 1, j - 1)
        },
        Stmt::Expression(es) => {
            &&& 0 <= i < toks.len()
            &&& toks[i].ttype != TokenType::Print
            &&& 0 <= j - 1 < toks.len()
            &&& toks[j - 1].ttype == TokenType::Semicolon
            &&& spans_expression(toks, es.expression, i, j - 1)
        },
        _ => false,
    }
}

/// One declaration: a `let` declaration or a statement.
pub open spec fn spans_declaration(toks: Seq<Token>, s: Stmt, i: int, j: int) -> bool {
    ||| (0 <= i < toks.len() && toks[i].ttype == TokenType::Let && spans_let_tail(
        toks,
        s,
        i + 1,
        j,
    ))
    ||| (0 <= i < toks.len() && toks[i].ttype != TokenType::Let && spans_plain_statement(
        toks,
        s,
        i,
        j,
    ))
}

/// A whole program: the statements partition the token span.
pub open spec fn spans_program(toks: Seq<Token>, ss: Seq<Stmt>, i: int, j: int) -> bool
    decreases ss.len(),
{
    if ss.len() == 0 {
        i == j
    } else {
        exists|m: int|
            #![trigger spans_declaration(toks, ss[0], i, m)]
            {
                &&& i < m <= j
                &&& spans_declaration(toks, ss[0], i, m)
                &&& spans_program(toks, ss.drop_first(), m, j)
            }
    }
}

/// Extending a parsed program by one more declaration at its end.
proof fn lemma_spans_program_snoc(toks: Seq<Token>, ss: Seq<Stmt>, s: Stmt, i: int, m: int, j: int)
    requires
        spans_program(toks, ss, i, m),
        spans_declaration(toks, s, m, j),
        m < j,
    ensures
        spans_program(toks, ss.push(s), i, j),
    decreases ss.len(),
{
    if ss.len() == 0 {
        assert(ss.push(s)[0] == s);
        assert(ss.push(s).drop_first() =~= Seq::<Stmt>::empty());
        assert(spans_program(toks, ss.push(s).drop_first(), j, j));
    } else {
        let m0 = choose|m0: int|
            #![trigger spans_declaration(toks, ss[0], i, m0)]
            {
                &&& i < m0 <= m
                &&& spans_declaration(toks, ss[0], i, m0)
                &&& spans_program(toks, ss.drop_first(), m0, m)
            };
        lemma_spans_program_snoc(toks, ss.drop_first(), s, m0, m, j);
        assert(ss.push(s)[0] == ss[0]);
        assert(ss.push(s).drop_first() =~= ss.drop_first().push(s));
        assert(spans_declaration(toks, ss.push(s)[0], i, m0) && spans_program(
            toks,
            ss.push(s).drop_first(),
            m0,
            j,
        ));
    }
}

} // verus!

verus! {

/// A variable reference parses only as one identifier token: climbing the
/// precedence chain, every level but `primary` rejects it.
proof fn lemma_spans_variable(toks: Seq<Token>, e: Expr, i: int, j: int)
    requires
        spans_equality(toks, e, i, j),
        e is Variable,
    ensures
        j == i + 1,
        0 <= i < toks.len(),
        toks[i].ttype == TokenType::Identifier,
        e->Variable_0.name@ == toks[i]@,
{
    assert(spans_comparison(toks, e, i, j));
    assert(spans_term(toks, e, i, j));
    assert(spans_factor(toks, e, i, j));
    assert(spans_unary(toks, e, i, j));
    assert(spans_primary(toks, e, i, j));
}

} // verus!

verus! {

// ---------------------------------------------------------------------------
// The deterministic course of a parse.
//
// `p_X(toks, i)` computes exactly what parsing at level `X` from cursor `i`
// does: `None` when it fails with a diagnostic, or `Some((j, clean))` when
// it succeeds with the cursor on `j` — `clean` false exactly when an
// invalid-assignment-target diagnostic was recorded on the way.  Each
// parsing function is proved to follow this function, so the contract
// decides success, landing position and diagnostics on every input.
// ---------------------------------------------------------------------------
/// `primary` from `i`.
pub open spec fn p_primary(toks: Seq<Token>, i: int) -> Option<(int, bool)>
    decreases toks.len() - i, 3int,
{
    if i < 0 || i >= toks.len() {
        None
    } else {
        let k = toks[i].ttype;
        if k == TokenType::False || k == TokenType::True || k == TokenType::Nil || k
            == TokenType::String || k == TokenType::Number || k == TokenType::Identifier {
            Some((i + 1, true))
        } else if k == TokenType::LeftParen {
            match p_expression(toks, i + 1) {
                Some((m, c)) => if 0 <= m < toks.len() && toks[m].ttype == TokenType::RightParen {
                    Some((m + 1, c))
                } else {
                    None
                },
                None => None,
            }
        } else {
            None
        }
    }
}

/// `unary` from `i`.
pub open spec fn p_unary(toks: Seq<Token>, i: int) -> Option<(int, bool)>
    decreases toks.len() - i, 4int,
{
    if 0 <= i < toks.len() && (toks[i].ttype == TokenType::Bang || toks[i].ttype
        == TokenType::Minus) {
        p_unary(toks, i + 1)
    } else {
        p_primary(toks, i)
    }
}

/// The operator-operand tail of a `factor` parse standing at `c`.
pub open spec fn p_factor_loop(toks: Seq<Token>, c: int) -> Option<(int, bool)>
    decreases toks.len() - c, 5int,
{
    if 0 <= c < toks.len() && continues_factor(toks[c].ttype) {
        match p_unary(toks, c + 1) {
            Some((m, cu)) => if c < m && m <= toks.len() {
                match p_factor_loop(toks, m) {
                    Some((j, cl)) => Some((j, cu && cl)),
                    None => None,
                }
            } else {
                None
            },
            None => None,
        }
    } else {
        Some((c, true))
    }
}

/// `factor` from `i`.
pub open spec fn p_factor(toks: Seq<Token>, i: int) -> Option<(int, bool)>
    decreases toks.len() - i, 6int,
{
    match p_unary(toks, i) {
        Some((m, cu)) => if i < m && m <= toks.len() {
            match p_factor_loop(toks, m) {
                Some((j, cl)) => Some((j, cu && cl)),
                None => None,
            }
        } else {
            None
        },
        None => None,
    }
}

/// The operator-operand tail of a `term` parse standing at `c`.
pub open spec fn p_term_loop(toks: Seq<Token>, c: int) -> Option<(int, bool)>
    decreases toks.len() - c, 7int,
{
    if 0 <= c < toks.len() && (toks[c].ttype == TokenType::Minus || toks[c].ttype
        == TokenType::Plus) {
        match p_factor(toks, c + 1) {
            Some((m, cf)) => if c < m && m <= toks.len() {
                match p_term_loop(toks, m) {
                    Some((j, cl)) => Some((j, cf && cl)),
                    None => None,
                }
            } else {
                None
            },
            None => None,
        }
    } else {
        Some((c, true))
    }
}

/// `term` from `i`.
pub open spec fn p_term(toks: Seq<Token>, i: int) -> Option<(int, bool)>
    decreases toks.len() - i, 8int,
{
    match p_factor(toks, i) {
        Some((m, cf)) => if i < m && m <= toks.len() {
            match p_term_loop(toks, m) {
                Some((j, cl)) => Some((j, cf && cl)),
                None => None,
            }
        } else {
            None
        },
        None => None,
    }
}

/// The operator-operand tail of a `comparison` parse standing at `c`.
pub open spec fn p_comparison_loop(toks: Seq<Token>, c: int) -> Option<(int, bool)>
    decreases toks.len() - c, 9int,
{
    if 0 <= c < toks.len() && (toks[c].ttype == TokenType::Greater || toks[c].ttype
        == TokenType::GreaterEqual || toks[c].ttype == TokenType::Less || toks[c].ttype
        == TokenType::LessEqual) {
        match p_term(toks, c + 1) {
            Some((m, ct)) => if c < m && m <= toks.len() {
                match p_comparison_loop(toks, m) {
                    Some((j, cl)) => Some((j, ct && cl)),
                    None => None,
                }
            } else {
                None
            },
            None => None,
        }
    } else {
        Some((c, true))
    }
}

/// `comparison` from `i`.
pub open spec fn p_comparison(toks: Seq<Token>, i: int) -> Option<(int, bool)>
    decreases toks.len() - i, 10int,
{
    match p_term(toks, i) {
        Some((m, ct)) => if i < m && m <= toks.len() {
            match p_comparison_loop(toks, m) {
                Some((j, cl)) => Some((j, ct && cl)),
                None => None,
            }
        } else {
            None
        },
        None => None,
    }
}

/// The operator-operand tail of an `equality` parse standing at `c`.
pub open spec fn p_equality_loop(toks: Seq<Token>, c: int) -> Option<(int, bool)>
    decreases toks.len() - c, 11int,
{
    if 0 <= c < toks.len() && (toks[c].ttype == TokenType::BangEqual || toks[c].ttype
        == TokenType::Equals) {
        match p_comparison(toks, c + 1) {
            Some((m, cc)) => if c < m && m <= toks.len() {
                match p_equality_loop(toks, m) {
                    Some((j, cl)) => Some((j, cc && cl)),
                    None => None,
                }
            } else {
                None
            },
            None => None,
        }
    } else {
        Some((c, true))
    }
}

/// `equality` from `i`.
pub open spec fn p_equality(toks: Seq<Token>, i: int) -> Option<(int, bool)>
    decreases toks.len() - i, 12int,
{
    match p_comparison(toks, i) {
        Some((m, cc)) => if i < m && m <= toks.len() {
            match p_equality_loop(toks, m) {
                Some((j, cl)) => Some((j, cc && cl)),
                None => None,
            }
        } else {
            None
        },
        None => None,
    }
}

/// `assignment` from `i`: when `=` follows the left-hand side, the value is
/// parsed and the result is clean only when the left-hand side was a single
/// identifier (otherwise the invalid-assignment-target diagnostic fires).
pub open spec fn p_assignment(toks: Seq<Token>, i: int) -> Option<(int, bool)>
    decreases toks.len() - i, 13int,
{
    match p_equality(toks, i) {
        Some((m, ce)) => if i <= m && 0 <= m < toks.len() && toks[m].ttype == TokenType::Assign {
            match p_assignment(toks, m + 1) {
                Some((j, cv)) => Some(
                    (j, ce && cv && m == i + 1 && toks[i].ttype == TokenType::Identifier),
                ),
                None => None,
            }
        } else {
            Some((m, ce))
        },
        None => None,
    }
}

/// `expression` is `assignment`.
pub open spec fn p_expression(toks: Seq<Token>, i: int) -> Option<(int, bool)>
    decreases toks.len() - i, 14int,
{
    p_assignment(toks, i)
}

} // verus!

verus! {

/// An expression followed by its statement terminator, from `i`.
#[verifier::opaque]
pub open spec fn p_expr_semi(toks: Seq<Token>, i: int) -> Option<(int, bool)>
    decreases toks.len() - i, 15int,
{
    match p_expression(toks, i) {
        Some((m, c)) => if 0 <= m < toks.len() && toks[m].ttype == TokenType::Semicolon {
            Some((m + 1, c))
        } else {
            None
        },
        None => None,
    }
}

/// The tail of a `let` declaration from `i`, after the keyword itself.
#[verifier::opaque]
pub open spec fn p_let_tail(toks: Seq<Token>, i: int) -> Option<(int, bool)>
    decreases toks.len() - i, 16int,
{
    if !(0 <= i < toks.len() && toks[i].ttype == TokenType::Identifier) {
        None
    } else if i + 1 < toks.len() && toks[i + 1].ttype == TokenType::Assign {
        match p_expression(toks, i + 2) {
            Some((m, c)) => if 0 <= m < toks.len() && toks[m].ttype == TokenType::Semicolon {
                Some((m + 1, c))
            } else {
                None
            },
            None => None,
        }
    } else if i + 1 < toks.len() && toks[i + 1].ttype == TokenType::Semicolon {
        Some((i + 2, true))
    } else {
        None
    }
}

/// A print statement or an expression statement, from `i`.
#[verifier::opaque]
pub open spec fn p_plain_statement(toks: Seq<Token>, i: int) -> Option<(int, bool)>
    decreases toks.len() - i, 17int,
{
    if 0 <= i < toks.len() && toks[i].ttype == TokenType::Print {
        p_expr_semi(toks, i + 1)
    } else {
        p_expr_semi(toks, i)
    }
}

/// One declaration, from `i`.
#[verifier::opaque]
pub open spec fn p_declaration(toks: Seq<Token>, i: int) -> Option<(int, bool)>
    decreases toks.len() - i, 18int,
{
    if 0 <= i < toks.len() && toks[i].ttype == TokenType::Let {
        p_let_tail(toks, i + 1)
    } else {
        p_plain_statement(toks, i)
    }
}

/// The whole program from `i`: declarations until the end-of-input token.
#[verifier::opaque]
pub open spec fn p_program(toks: Seq<Token>, i: int) -> Option<(int, bool)>
    decreases toks.len() - i, 19int,
{
    if !(0 <= i < toks.len()) {
        None
    } else if toks[i].ttype == TokenType::Eof {
        Some((i, true))
    } else {
        match p_declaration(toks, i) {
            Some((m, c)) => if i < m && m <= toks.len() {
                match p_program(toks, m) {
                    Some((j, cr)) => Some((j, c && cr)),
                    None => None,
                }
            } else {
                None
            },
            None => None,
        }
    }
}

} // verus!
