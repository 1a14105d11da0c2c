use vstd::prelude::*;
use vstd::string::StringExecFns;
use crate::expr::{expr_wf, Expr};
use crate::interpreter::{stringify_model, Interpreter};

verus! {

/// The parenthesized debug rendering of an expression tree: operators
/// prefix their operands, groupings are labelled, literals use their
/// display form.
pub open spec fn print_model(e: Expr) -> Seq<char>
    decreases e,
{
    match e {
        Expr::Literal(l) => match l.value {
            Some(o) => stringify_model(o@),
            None => "nil"@,
        },
        Expr::Binary(b) => "("@ + b.operator.lexeme@ + " "@ + print_model(*b.left) + " "@
            + print_model(*b.right) + ")"@,
        Expr::Unary(u) => "("@ + u.operator.lexeme@ + " "@ + print_model(*u.right) + ")"@,
        Expr::Grouping(g) => "(group "@ + print_model(*g.expression) + ")"@,
        Expr::Variable(v) => v.name.lexeme@,
        Expr::Assign(a) => "(= "@ + a.name.lexeme@ + " "@ + print_model(*a.value) + ")"@,
    }
}

/// Renders an expression tree back to parenthesized text, for debugging.
pub struct AstPrinter;

impl AstPrinter {
    /// The parenthesized rendering of `expr`.
    pub fn print(&self, expr: &Expr) -> (r: String)
        requires
            expr_wf(*expr),
        ensures
            r@ == print_model(*expr),
        decreases *expr,
    {
        match expr {
            Expr::Literal(l) => match &l.value {
                Some(o) => Interpreter::stringify(o.clone()),
                None => "nil".to_owned(),
            },
            Expr::Binary(b) => {
                let mut s = String::new();
                s.append("(");
                s.append(b.operator.lexeme.as_str());
                s.append(" ");
                let left = self.print(&*b.left);
                s.append(left.as_str());
                s.append(" ");
                let right = self.print(&*b.right);
                s.append(right.as_str());
                s.append(")");
                proof {
                    assert(s@ =~= print_model(*expr));
                }
                s
            },
            Expr::Unary(u) => {
                let mut s = String::new();
                s.append("(");
                s.append(u.operator.lexeme.as_str());
                s.append(" ");
                let right = self.print(&*u.right);
                s.append(right.as_str());
                s.append(")");
                proof {
                    assert(s@ =~= print_model(*expr));
                }
                s
            },
            Expr::Grouping(g) => {
                let mut s = String::new();
                s.append("(group ");
                let inner = self.print(&*g.expression);
                s.append(inner.as_str());
                s.append(")");
                proof {
                    assert(s@ =~= print_model(*expr));
                }
                s
            },
            Expr::Variable(v) => v.name.lexeme.clone(),
            Expr::Assign(a) => {
                let mut s = String::new();
                s.append("(= ");
                s.append(a.name.lexeme.as_str());
                s.append(" ");
                let value = self.print(&*a.value);
                s.append(value.as_str());
                s.append(")");
                proof {
                    assert(s@ =~= print_model(*expr));
                }
                s
            },
        }
    }
}

} // verus!
