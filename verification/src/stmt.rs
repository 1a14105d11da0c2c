use vstd::prelude::*;
use crate::expr::{expr_wf, Expr};
use crate::token::Token;

verus! {

/// A statement.  A program is an ordered sequence of statements, executed
/// in order.
pub enum Stmt {
    Expression(ExpressionStmt),
    Print(PrintStmt),
    Let(LetStmt),
}

/// Evaluate an expression for its effect and discard the result.
pub struct ExpressionStmt {
    pub expression: Expr,
}

/// Evaluate an expression and emit its display form as a line of output.
pub struct PrintStmt {
    pub expression: Expr,
}

/// Declare a binding in the current scope, bound to the evaluated
/// initializer, or to nil when there is none.
pub struct LetStmt {
    pub name: Token,
    pub initializer: Option<Expr>,
}

/// Every literal payload in the statement is well-formed.
pub open spec fn stmt_wf(s: Stmt) -> bool {
    match s {
        Stmt::Expression(es) => expr_wf(es.expression),
        Stmt::Print(ps) => expr_wf(ps.expression),
        Stmt::Let(ls) => match ls.initializer {
            Some(e) => expr_wf(e),
            None => true,
        },
    }
}

/// Every statement in the sequence is well-formed.
pub open spec fn stmts_wf(ss: Seq<Stmt>) -> bool {
    forall|k: int| 0 <= k < ss.len() ==> stmt_wf(#[trigger] ss[k])
}

} // verus!
