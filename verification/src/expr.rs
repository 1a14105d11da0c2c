use vstd::prelude::*;
use crate::object::Object;
use crate::token::Token;

verus! {

/// An expression tree node.  Each non-leaf variant owns its
/// sub-expressions exclusively: the tree has no sharing and no cycles, and
/// evaluation dispatches by exhaustive matching.
pub enum Expr {
    Assign(AssignExpr),
    Binary(BinaryExpr),
    Grouping(GroupingExpr),
    Literal(LiteralExpr),
    Unary(UnaryExpr),
    Variable(VariableExpr),
}

/// Assignment to an already-declared variable: `name = value`.
pub struct AssignExpr {
    pub name: Token,
    pub value: Box<Expr>,
}

/// A binary operator application: `left operator right`.
pub struct BinaryExpr {
    pub left: Box<Expr>,
    pub operator: Token,
    pub right: Box<Expr>,
}

/// A parenthesized expression.
pub struct GroupingExpr {
    pub expression: Box<Expr>,
}

/// A literal value, carried over from the scanner.
pub struct LiteralExpr {
    pub value: Option<Object>,
}

/// A unary operator application: `operator right`.
pub struct UnaryExpr {
    pub operator: Token,
    pub right: Box<Expr>,
}

/// A variable reference.
pub struct VariableExpr {
    pub name: Token,
}

/// Every literal payload in the tree is well-formed.
pub open spec fn expr_wf(e: Expr) -> bool
    decreases e,
{
    match e {
        Expr::Assign(a) => expr_wf(*a.value),
        Expr::Binary(b) => expr_wf(*b.left) && expr_wf(*b.right),
        Expr::Grouping(g) => expr_wf(*g.expression),
        Expr::Literal(l) => match l.value {
            Some(o) => o.wf(),
            None => true,
        },
        Expr::Unary(u) => expr_wf(*u.right),
        Expr::Variable(v) => true,
    }
}

} // verus!
