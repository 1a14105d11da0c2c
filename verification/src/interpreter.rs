use vstd::prelude::*;
use crate::envirnoment::{
    env_assign, env_define, env_find, env_wf, lemma_env_assign_wf, lemma_env_define_wf,
    model_wf, undefined_assign, undefined_read, EnvModel, Envirnoment,
};
use crate::error::{ErrModel, TeciError};
use crate::expr::{expr_wf, AssignExpr, BinaryExpr, Expr, GroupingExpr, LiteralExpr, UnaryExpr,
    VariableExpr};
use crate::object::{
    add_model, cmp_model, div_model, mul_model, neg_model, obj_eq_model, sub_model, truthy,
    ObjModel, Object,
};
use crate::stmt::{stmt_wf, stmts_wf, ExpressionStmt, LetStmt, PrintStmt, Stmt};
use crate::text::{chars_to_string, dec_chars, dec_digits, digit_char, digit_to_char};
use crate::token::{Token, TokenModel};
use crate::token_type::TokenType;
use core::cmp::Ordering;

verus! {

// ---------------------------------------------------------------------------
// The mathematical semantics: display form of a value, evaluation of an
// expression, execution of a statement sequence.
// ---------------------------------------------------------------------------
/// Fraction digits are truncated at this many places when the exact decimal
/// expansion does not terminate earlier.
pub const FRACTION_DIGIT_CAP: usize = 30;

/// The decimal fraction digits of `r / d`, stopping at an exact expansion
/// or after `budget` digits.
pub open spec fn frac_digits(r: int, d: int, budget: int) -> Seq<char>
    decreases budget,
{
    if r <= 0 || budget <= 0 {
        Seq::empty()
    } else {
        seq![digit_char((r * 10) / d)] + frac_digits((r * 10) % d, d, budget - 1)
    }
}

/// The display form of the exact rational `n / d`: sign, integer part, and
/// a fraction part only when the remainder is not zero (so a whole number
/// shows no decimal point).
pub open spec fn rat_render(n: int, d: int) -> Seq<char> {
    let a = if n < 0 {
        -n
    } else {
        n
    };
    let q = a / d;
    let r = a % d;
    let ip = if n < 0 {
        seq!['-'] + dec_digits(q)
    } else {
        dec_digits(q)
    };
    if r == 0 {
        ip
    } else {
        ip + seq!['.'] + frac_digits(r, d, FRACTION_DIGIT_CAP as int)
    }
}

/// The display form of a value: numbers as exact decimals (no trailing
/// `.0`), strings verbatim, booleans and nil by name.
pub open spec fn stringify_model(v: ObjModel) -> Seq<char> {
    match v {
        ObjModel::Num { n, d } => rat_render(n, d),
        ObjModel::Str(s) => s,
        ObjModel::Bool(b) => if b {
            "true"@
        } else {
            "false"@
        },
        ObjModel::Nil => "nil"@,
        ObjModel::ArithmeticError => "arithmetic_error!!!"@,
        ObjModel::DivisionByZeroError => "division_by_zero_error!!!"@,
    }
}

/// The literal value carried by a literal expression; an absent payload
/// reads as nil.
pub open spec fn lit_value(v: Option<Object>) -> ObjModel {
    match v {
        Some(o) => o@,
        None => ObjModel::Nil,
    }
}

/// A runtime diagnostic anchored at the operator token.
pub open spec fn op_error(op: TokenModel, message: Seq<char>) -> ErrModel {
    ErrModel { token: Some(op), line: op.line, message }
}

/// The outcome of a unary operator: `-` negates a number exactly, `!`
/// negates truthiness; anything else is a runtime error at the operator's
/// line.
pub open spec fn unary_result(op: TokenModel, val: ObjModel) -> Result<ObjModel, ErrModel> {
    if op.kind == TokenType::Minus {
        let r = neg_model(val);
        if r is ArithmeticError {
            Err(op_error(op, "Invalid operator"@))
        } else {
            Ok(r)
        }
    } else if op.kind == TokenType::Bang {
        Ok(ObjModel::Bool(!truthy(val)))
    } else {
        Err(op_error(op, "Invalid operator"@))
    }
}

/// The outcome of a binary operator: exact arithmetic with the two error
/// tags turned into runtime errors, numeric-only ordering, and structural
/// equality over all tags.
pub open spec fn binary_result(op: TokenModel, l: ObjModel, r: ObjModel) -> Result<
    ObjModel,
    ErrModel,
> {
    let kind = op.kind;
    if kind == TokenType::Minus || kind == TokenType::Star || kind == TokenType::Slash || kind
        == TokenType::Plus {
        let res = if kind == TokenType::Minus {
            sub_model(l, r)
        } else if kind == TokenType::Star {
            mul_model(l, r)
        } else if kind == TokenType::Slash {
            div_model(l, r)
        } else {
            add_model(l, r)
        };
        if res is ArithmeticError {
            Err(op_error(op, "Invalid operator"@))
        } else if res is DivisionByZeroError {
            Err(op_error(op, "Division by zero"@))
        } else {
            Ok(res)
        }
    } else if kind == TokenType::GreaterEqual || kind == TokenType::Greater || kind
        == TokenType::LessEqual || kind == TokenType::Less {
        match (l, r) {
            (ObjModel::Num { n: n1, d: d1 }, ObjModel::Num { n: n2, d: d2 }) => {
                let b = if kind == TokenType::GreaterEqual {
                    n1 * d2 >= n2 * d1
                } else if kind == TokenType::Greater {
                    n1 * d2 > n2 * d1
                } else if kind == TokenType::LessEqual {
                    n1 * d2 <= n2 * d1
                } else {
                    n1 * d2 < n2 * d1
                };
                Ok(ObjModel::Bool(b))
            },
            _ => Err(op_error(op, "Invalid operator for non numeric operands"@)),
        }
    } else if kind == TokenType::Equals {
        Ok(ObjModel::Bool(obj_eq_model(l, r)))
    } else if kind == TokenType::BangEqual {
        Ok(ObjModel::Bool(!obj_eq_model(l, r)))
    } else {
        Err(op_error(op, "Invalid operator"@))
    }
}

/// Evaluation outcome: the value or the runtime error, together with the
/// environment as it stands when evaluation stops (an assignment embedded
/// in a failing expression keeps its effect).
pub ghost struct EvalOut {
    pub r: Result<ObjModel, ErrModel>,
    pub env: EnvModel,
}

/// The evaluation function: dynamic scoping through the environment chain,
/// left-to-right evaluation order, and fail-fast runtime errors.
pub open spec fn eval_expr(env: EnvModel, e: Expr) -> EvalOut
    decreases e,
{
    match e {
        Expr::Literal(l) => EvalOut { r: Ok(lit_value(l.value)), env },
        Expr::Grouping(g) => eval_expr(env, *g.expression),
        Expr::Variable(v) => match env_find(env, v.name.lexeme@) {
            Some(val) => EvalOut { r: Ok(val), env },
            None => EvalOut { r: Err(undefined_read(v.name@)), env },
        },
        Expr::Assign(a) => {
            let ev = eval_expr(env, *a.value);
            match ev.r {
                Ok(val) => match env_assign(ev.env, a.name.lexeme@, val) {
                    Some(e2) => EvalOut { r: Ok(val), env: e2 },
                    None => EvalOut { r: Err(undefined_assign(a.name@)), env: ev.env },
                },
                Err(em) => ev,
            }
        },
        Expr::Unary(u) => {
            let ev = eval_expr(env, *u.right);
            match ev.r {
                Ok(val) => EvalOut { r: unary_result(u.operator@, val), env: ev.env },
                Err(em) => ev,
            }
        },
        Expr::Binary(b) => {
            let lv = eval_expr(env, *b.left);
            match lv.r {
                Ok(lo) => {
                    let rv = eval_expr(lv.env, *b.right);
                    match rv.r {
                        Ok(ro) => EvalOut { r: binary_result(b.operator@, lo, ro), env: rv.env },
                        Err(em) => rv,
                    }
                },
                Err(em) => lv,
            }
        },
    }
}

/// Execution outcome of statements: the environment, the lines printed so
/// far, and the runtime error that stopped execution, if any.
pub ghost struct RunModel {
    pub env: EnvModel,
    pub out: Seq<Seq<char>>,
    pub err: Option<ErrModel>,
}

/// Execute one statement.
pub open spec fn run_stmt(env: EnvModel, out: Seq<Seq<char>>, s: Stmt) -> RunModel {
    match s {
        Stmt::Expression(es) => {
            let eo = eval_expr(env, es.expression);
            match eo.r {
                Ok(v) => RunModel { env: eo.env, out, err: None },
                Err(em) => RunModel { env: eo.env, out, err: Some(em) },
            }
        },
        Stmt::Print(ps) => {
            let eo = eval_expr(env, ps.expression);
            match eo.r {
                Ok(v) => RunModel { env: eo.env, out: out.push(stringify_model(v)), err: None },
                Err(em) => RunModel { env: eo.env, out, err: Some(em) },
            }
        },
        Stmt::Let(ls) => {
            let eo = match ls.initializer {
                Some(e) => eval_expr(env, e),
                None => EvalOut { r: Ok(ObjModel::Nil), env },
            };
            match eo.r {
                Ok(v) => RunModel {
                    env: env_define(eo.env, ls.name.lexeme@, v),
                    out,
                    err: None,
                },
                Err(em) => RunModel { env: eo.env, out, err: Some(em) },
            }
        },
    }
}

/// Execute the statements from index `i` on, halting at the first runtime
/// error.
pub open spec fn run_stmts(env: EnvModel, out: Seq<Seq<char>>, ss: Seq<Stmt>, i: int) -> RunModel
    decreases ss.len() - i,
{
    if i < 0 || i >= ss.len() {
        RunModel { env, out, err: None }
    } else {
        let rm = run_stmt(env, out, ss[i]);
        if rm.err is Some {
            rm
        } else {
            run_stmts(rm.env, rm.out, ss, i + 1)
        }
    }
}

} // verus!

verus! {

// ---------------------------------------------------------------------------
// The executable interpreter.
// ---------------------------------------------------------------------------
/// Map the two invalid-operation tags to runtime errors at the operator.
fn arith_outcome(result: Object, op: &Token) -> (r: Result<Object, TeciError>)
    ensures
        result@ is ArithmeticError ==> r is Err && r->Err_0@ == op_error(
            op@,
            "Invalid operator"@,
        ),
        result@ is DivisionByZeroError ==> r is Err && r->Err_0@ == op_error(
            op@,
            "Division by zero"@,
        ),
        !(result@ is ArithmeticError) && !(result@ is DivisionByZeroError) ==> r is Ok && r->Ok_0
            == result,
{
    if matches!(result, Object::ArithmeticError) {
        Err(TeciError::runtime_error(op.clone(), "Invalid operator"))
    } else if matches!(result, Object::DivisionByZeroError) {
        Err(TeciError::runtime_error(op.clone(), "Division by zero"))
    } else {
        Ok(result)
    }
}

/// The tree-walking evaluator: executes statements in order against the
/// scope chain it owns, collecting print output as data and halting at the
/// first runtime error.
pub struct Interpreter {
    enviroment: Envirnoment,
    output: Vec<String>,
}

impl Interpreter {
    /// The current scope chain.
    pub closed spec fn env(self) -> EnvModel {
        self.enviroment@
    }

    /// The lines printed so far.
    pub closed spec fn out(self) -> Seq<Seq<char>> {
        self.output@.map_values(|s: String| s@)
    }

    /// A fresh interpreter with an empty global scope and no output.
    pub fn new() -> (r: Interpreter)
        ensures
            r.env() == seq![Seq::<(Seq<char>, ObjModel)>::empty()],
            r.out() == Seq::<Seq<char>>::empty(),
            env_wf(r.env()),
    {
        let r = Interpreter { enviroment: Envirnoment::new(), output: Vec::new() };
        proof {
            assert(r.out() =~= Seq::<Seq<char>>::empty());
        }
        r
    }

    /// Truthiness: nil and false are falsy, and so are the number zero and
    /// the empty string.
    fn is_truthy(obj: &Object) -> (b: bool)
        ensures
            b == truthy(obj@),
    {
        match obj {
            Object::Num(x) => x.num != 0,
            Object::Str(s) => !s.as_str().is_empty(),
            Object::Bool(b) => *b,
            Object::Nil => false,
            Object::ArithmeticError => false,
            Object::DivisionByZeroError => false,
        }
    }

    /// Relational operators are defined on two numbers only.
    fn check_numeric_operands(left: &Object, right: &Object, operator: Token) -> (r: Result<
        (),
        TeciError,
    >)
        ensures
            left@ is Num && right@ is Num <==> r is Ok,
            !(left@ is Num && right@ is Num) ==> r is Err && r->Err_0@ == op_error(
                operator@,
                "Invalid operator for non numeric operands"@,
            ),
    {
        match (left, right) {
            (Object::Num(_), Object::Num(_)) => Ok(()),
            _ => Err(
                TeciError::runtime_error(operator, "Invalid operator for non numeric operands"),
            ),
        }
    }

    /// The display form of a value, per [`stringify_model`].
    pub fn stringify(value: Object) -> (r: String)
        requires
            value.wf(),
        ensures
            r@ == stringify_model(value@),
    {
        match value {
            Object::Num(rat) => {
                let du: u64 = rat.den as u64;
                let negative = rat.num < 0;
                let a: u64 = if rat.num < 0 {
                    (-(rat.num as i128)) as u64
                } else {
                    rat.num as u64
                };
                let q = a / du;
                let rem0 = a % du;
                let mut chars: Vec<char> = Vec::new();
                if negative {
                    chars.push('-');
                }
                let mut ip = dec_chars(q);
                let ghost ipm = ip@;
                chars.append(&mut ip);
                proof {
                    if negative {
                        assert(chars@ =~= seq!['-'] + ipm);
                    }
                }
                if rem0 > 0 {
                    chars.push('.');
                    let ghost base = chars@;
                    let mut fv: Vec<char> = Vec::new();
                    let mut rem = rem0;
                    let mut k: usize = 0;
                    while rem > 0 && k < FRACTION_DIGIT_CAP
                        invariant
                            k <= FRACTION_DIGIT_CAP,
                            1 <= du <= i64::MAX as u64,
                            rem < du,
                            frac_digits(rem0 as int, du as int, FRACTION_DIGIT_CAP as int) == fv@
                                + frac_digits(
                                rem as int,
                                du as int,
                                FRACTION_DIGIT_CAP as int - k,
                            ),
                        decreases FRACTION_DIGIT_CAP - k,
                    {
                        let ghost prem = rem as int;
                        let r10: u128 = rem as u128 * 10;
                        proof {
                            assert((prem * 10) / (du as int) < 10) by (nonlinear_arith)
                                requires
                                    0 <= prem < du as int,
                                    1 <= du as int,
                            ;
                            assert((prem * 10) % (du as int) < du as int) by (nonlinear_arith)
                                requires
                                    0 <= prem,
                                    1 <= du as int,
                            ;
                            assert((prem * 10) / (du as int) >= 0) by (nonlinear_arith)
                                requires
                                    0 <= prem,
                                    1 <= du as int,
                            ;
                        }
                        let digit: u64 = (r10 / (du as u128)) as u64;
                        rem = (r10 % (du as u128)) as u64;
                        let ghost pfv = fv@;
                        fv.push(digit_to_char(digit));
                        k = k + 1;
                        proof {
                            assert(frac_digits(
                                prem,
                                du as int,
                                FRACTION_DIGIT_CAP as int - (k - 1),
                            ) == seq![digit_char((prem * 10) / (du as int))] + frac_digits(
                                (prem * 10) % (du as int),
                                du as int,
                                FRACTION_DIGIT_CAP as int - k,
                            ));
                            assert(pfv + (seq![digit_char((prem * 10) / (du as int))]
                                + frac_digits(
                                (prem * 10) % (du as int),
                                du as int,
                                FRACTION_DIGIT_CAP as int - k,
                            )) =~= fv@ + frac_digits(
                                rem as int,
                                du as int,
                                FRACTION_DIGIT_CAP as int - k,
                            ));
                        }
                    }
                    proof {
                        assert(frac_digits(rem as int, du as int, FRACTION_DIGIT_CAP as int - k)
                            =~= Seq::<char>::empty());
                        assert(fv@ =~= frac_digits(
                            rem0 as int,
                            du as int,
                            FRACTION_DIGIT_CAP as int,
                        ));
                    }
                    let ghost fvm = fv@;
                    chars.append(&mut fv);
                    proof {
                        assert(chars@ =~= base + fvm);
                        assert(chars@ =~= rat_render(rat.num as int, rat.den as int));
                    }
                } else {
                    proof {
                        assert(chars@ =~= rat_render(rat.num as int, rat.den as int));
                    }
                }
                chars_to_string(&chars)
            },
            Object::Str(s) => s,
            Object::Bool(b) => {
                if b {
                    "true".to_owned()
                } else {
                    "false".to_owned()
                }
            },
            Object::Nil => "nil".to_owned(),
            Object::ArithmeticError => "arithmetic_error!!!".to_owned(),
            Object::DivisionByZeroError => "division_by_zero_error!!!".to_owned(),
        }
    }
}

} // verus!

verus! {

impl Interpreter {
    /// Evaluate an expression against the current scope chain.
    fn evaluate(&mut self, expr: &Expr) -> (r: Result<Object, TeciError>)
        requires
            expr_wf(*expr),
            env_wf(old(self).env()),
        ensures
            final(self).out() == old(self).out(),
            env_wf(final(self).env()),
            final(self).env().len() == old(self).env().len(),
            ({
                let eo = eval_expr(old(self).env(), *expr);
                &&& final(self).env() == eo.env
                &&& match eo.r {
                    Ok(v) => r is Ok && r->Ok_0@ == v && r->Ok_0.wf(),
                    Err(em) => r is Err && r->Err_0@ == em,
                }
            }),
        decreases *expr,
    {
        match expr {
            Expr::Assign(e) => self.visit_assign_expr(e),
            Expr::Binary(e) => self.visit_binary_expr(e),
            Expr::Grouping(e) => self.visit_grouping_expr(e),
            Expr::Literal(e) => self.visit_literal_expr(e),
            Expr::Unary(e) => self.visit_unary_expr(e),
            Expr::Variable(e) => self.visit_variable_expr(e),
        }
    }

    /// Evaluate the right-hand side, then overwrite the nearest enclosing
    /// binding of the name; assignment never implicitly declares.
    pub fn visit_assign_expr(&mut self, expr: &AssignExpr) -> (r: Result<Object, TeciError>)
        requires
            expr_wf(Expr::Assign(*expr)),
            env_wf(old(self).env()),
        ensures
            final(self).out() == old(self).out(),
            env_wf(final(self).env()),
            final(self).env().len() == old(self).env().len(),
            ({
                let eo = eval_expr(old(self).env(), Expr::Assign(*expr));
                &&& final(self).env() == eo.env
                &&& match eo.r {
                    Ok(v) => r is Ok && r->Ok_0@ == v && r->Ok_0.wf(),
                    Err(em) => r is Err && r->Err_0@ == em,
                }
            }),
        decreases *expr,
    {
        let value = self.evaluate(&*expr.value)?;
        proof {
            lemma_env_assign_wf(self.env(), expr.name.lexeme@, value@);
        }
        match self.enviroment.assign(&expr.name, value.clone()) {
            Ok(_) => Ok(value),
            Err(e) => Err(e),
        }
    }

    /// Evaluate both operands left to right, then apply the operator.
    pub fn visit_binary_expr(&mut self, expr: &BinaryExpr) -> (r: Result<Object, TeciError>)
        requires
            expr_wf(Expr::Binary(*expr)),
            env_wf(old(self).env()),
        ensures
            final(self).out() == old(self).out(),
            env_wf(final(self).env()),
            final(self).env().len() == old(self).env().len(),
            ({
                let eo = eval_expr(old(self).env(), Expr::Binary(*expr));
                &&& final(self).env() == eo.env
                &&& match eo.r {
                    Ok(v) => r is Ok && r->Ok_0@ == v && r->Ok_0.wf(),
                    Err(em) => r is Err && r->Err_0@ == em,
                }
            }),
        decreases *expr,
    {
        let left = self.evaluate(&*expr.left)?;
        let right = self.evaluate(&*expr.right)?;
        match expr.operator.ttype {
            TokenType::Minus => arith_outcome(left.sub(right), &expr.operator),
            TokenType::Star => arith_outcome(left.mul(right), &expr.operator),
            TokenType::Slash => arith_outcome(left.div(right), &expr.operator),
            TokenType::Plus => arith_outcome(left.add(right), &expr.operator),
            TokenType::GreaterEqual => {
                Interpreter::check_numeric_operands(&left, &right, expr.operator.clone())?;
                let c = left.partial_cmp(&right);
                Ok(
                    Object::Bool(
                        matches!(c, Some(Ordering::Greater)) || matches!(
                            c,
                            Some(Ordering::Equal),
                        ),
                    ),
                )
            },
            TokenType::Greater => {
                Interpreter::check_numeric_operands(&left, &right, expr.operator.clone())?;
                let c = left.partial_cmp(&right);
                Ok(Object::Bool(matches!(c, Some(Ordering::Greater))))
            },
            TokenType::LessEqual => {
                Interpreter::check_numeric_operands(&left, &right, expr.operator.clone())?;
                let c = left.partial_cmp(&right);
                Ok(
                    Object::Bool(
                        matches!(c, Some(Ordering::Less)) || matches!(c, Some(Ordering::Equal)),
                    ),
                )
            },
            TokenType::Less => {
                Interpreter::check_numeric_operands(&left, &right, expr.operator.clone())?;
                let c = left.partial_cmp(&right);
                Ok(Object::Bool(matches!(c, Some(Ordering::Less))))
            },
            TokenType::Equals => Ok(Object::Bool(left.equals(&right))),
            TokenType::BangEqual => Ok(Object::Bool(!left.equals(&right))),
            _ => Err(TeciError::runtime_error(expr.operator.clone(), "Invalid operator")),
        }
    }

    /// Evaluate the inner expression of a grouping.
    pub fn visit_grouping_expr(&mut self, expr: &GroupingExpr) -> (r: Result<Object, TeciError>)
        requires
            expr_wf(Expr::Grouping(*expr)),
            env_wf(old(self).env()),
        ensures
            final(self).out() == old(self).out(),
            env_wf(final(self).env()),
            final(self).env().len() == old(self).env().len(),
            ({
                let eo = eval_expr(old(self).env(), Expr::Grouping(*expr));
                &&& final(self).env() == eo.env
                &&& match eo.r {
                    Ok(v) => r is Ok && r->Ok_0@ == v && r->Ok_0.wf(),
                    Err(em) => r is Err && r->Err_0@ == em,
                }
            }),
        decreases *expr,
    {
        self.evaluate(&*expr.expression)
    }

    /// A literal evaluates to its stored value.
    pub fn visit_literal_expr(&mut self, expr: &LiteralExpr) -> (r: Result<Object, TeciError>)
        requires
            expr_wf(Expr::Literal(*expr)),
        ensures
            *final(self) == *old(self),
            r is Ok && r->Ok_0@ == lit_value(expr.value) && r->Ok_0.wf(),
    {
        match &expr.value {
            Some(o) => Ok(o.clone()),
            None => Ok(Object::Nil),
        }
    }

    /// Apply a unary operator to its evaluated operand.
    pub fn visit_unary_expr(&mut self, expr: &UnaryExpr) -> (r: Result<Object, TeciError>)
        requires
            expr_wf(Expr::Unary(*expr)),
            env_wf(old(self).env()),
        ensures
            final(self).out() == old(self).out(),
            env_wf(final(self).env()),
            final(self).env().len() == old(self).env().len(),
            ({
                let eo = eval_expr(old(self).env(), Expr::Unary(*expr));
                &&& final(self).env() == eo.env
                &&& match eo.r {
                    Ok(v) => r is Ok && r->Ok_0@ == v && r->Ok_0.wf(),
                    Err(em) => r is Err && r->Err_0@ == em,
                }
            }),
        decreases *expr,
    {
        let right = self.evaluate(&*expr.right)?;
        match expr.operator.ttype {
            TokenType::Minus => {
                let result = right.neg();
                if matches!(result, Object::ArithmeticError) {
                    Err(TeciError::runtime_error(expr.operator.clone(), "Invalid operator"))
                } else {
                    Ok(result)
                }
            },
            TokenType::Bang => Ok(Object::Bool(!Interpreter::is_truthy(&right))),
            _ => Err(TeciError::runtime_error(expr.operator.clone(), "Invalid operator")),
        }
    }

    /// Look a variable up through the scope chain, innermost outward.
    pub fn visit_variable_expr(&mut self, expr: &VariableExpr) -> (r: Result<Object, TeciError>)
        requires
            env_wf(old(self).env()),
        ensures
            *final(self) == *old(self),
            env_wf(final(self).env()),
            final(self).env().len() == old(self).env().len(),
            ({
                let eo = eval_expr(old(self).env(), Expr::Variable(*expr));
                &&& final(self).env() == eo.env
                &&& match eo.r {
                    Ok(v) => r is Ok && r->Ok_0@ == v && r->Ok_0.wf(),
                    Err(em) => r is Err && r->Err_0@ == em,
                }
            }),
    {
        self.enviroment.get(&expr.name)
    }
}

} // verus!

verus! {

impl Interpreter {
    /// Evaluate for effect and discard the result.
    pub fn visit_expression_stmt(&mut self, stmt: &ExpressionStmt) -> (r: Result<(), TeciError>)
        requires
            stmt_wf(Stmt::Expression(*stmt)),
            env_wf(old(self).env()),
            old(self).env().len() >= 1,
        ensures
            env_wf(final(self).env()),
            final(self).env().len() == old(self).env().len(),
            ({
                let rm = run_stmt(old(self).env(), old(self).out(), Stmt::Expression(*stmt));
                &&& final(self).env() == rm.env
                &&& final(self).out() == rm.out
                &&& match rm.err {
                    None => r is Ok,
                    Some(em) => r is Err && r->Err_0@ == em,
                }
            }),
    {
        self.evaluate(&stmt.expression)?;
        Ok(())
    }

    /// Evaluate, render the display form, and emit it as a line of output.
    pub fn visit_print_stmt(&mut self, stmt: &PrintStmt) -> (r: Result<(), TeciError>)
        requires
            stmt_wf(Stmt::Print(*stmt)),
            env_wf(old(self).env()),
            old(self).env().len() >= 1,
        ensures
            env_wf(final(self).env()),
            final(self).env().len() == old(self).env().len(),
            ({
                let rm = run_stmt(old(self).env(), old(self).out(), Stmt::Print(*stmt));
                &&& final(self).env() == rm.env
                &&& final(self).out() == rm.out
                &&& match rm.err {
                    None => r is Ok,
                    Some(em) => r is Err && r->Err_0@ == em,
                }
            }),
    {
        let ghost out0 = self.out();
        let value = self.evaluate(&stmt.expression)?;
        let line = Interpreter::stringify(value);
        self.output.push(line);
        proof {
            assert(self.out() =~= out0.push(line@));
        }
        Ok(())
    }

    /// Evaluate the optional initializer (nil when absent) and bind the
    /// name in the innermost scope.
    pub fn visit_let_stmt(&mut self, stmt: &LetStmt) -> (r: Result<(), TeciError>)
        requires
            stmt_wf(Stmt::Let(*stmt)),
            env_wf(old(self).env()),
            old(self).env().len() >= 1,
        ensures
            env_wf(final(self).env()),
            final(self).env().len() == old(self).env().len(),
            ({
                let rm = run_stmt(old(self).env(), old(self).out(), Stmt::Let(*stmt));
                &&& final(self).env() == rm.env
                &&& final(self).out() == rm.out
                &&& match rm.err {
                    None => r is Ok,
                    Some(em) => r is Err && r->Err_0@ == em,
                }
            }),
    {
        let value = match &stmt.initializer {
            Some(initializer) => self.evaluate(initializer)?,
            None => Object::Nil,
        };
        proof {
            lemma_env_define_wf(self.env(), stmt.name.lexeme@, value@);
        }
        self.enviroment.define(stmt.name.lexeme.clone(), value);
        Ok(())
    }

    /// Execute one statement.
    fn execute(&mut self, statement: &Stmt) -> (r: Result<(), TeciError>)
        requires
            stmt_wf(*statement),
            env_wf(old(self).env()),
            old(self).env().len() >= 1,
        ensures
            env_wf(final(self).env()),
            final(self).env().len() == old(self).env().len(),
            ({
                let rm = run_stmt(old(self).env(), old(self).out(), *statement);
                &&& final(self).env() == rm.env
                &&& final(self).out() == rm.out
                &&& match rm.err {
                    None => r is Ok,
                    Some(em) => r is Err && r->Err_0@ == em,
                }
            }),
    {
        match statement {
            Stmt::Expression(s) => self.visit_expression_stmt(s),
            Stmt::Print(s) => self.visit_print_stmt(s),
            Stmt::Let(s) => self.visit_let_stmt(s),
        }
    }

    /// Execute the statements in order against the scope chain held by
    /// this interpreter, halting at the first runtime error.  Output is
    /// collected as data; the environment persists across calls, so
    /// successive programs behave as one continuous program.
    pub fn interpret(&mut self, statements: &Vec<Stmt>) -> (r: Result<(), TeciError>)
        requires
            stmts_wf(statements@),
            env_wf(old(self).env()),
            old(self).env().len() >= 1,
        ensures
            env_wf(final(self).env()),
            final(self).env().len() == old(self).env().len(),
            ({
                let rm = run_stmts(old(self).env(), old(self).out(), statements@, 0);
                &&& final(self).env() == rm.env
                &&& final(self).out() == rm.out
                &&& match rm.err {
                    None => r is Ok,
                    Some(em) => r is Err && r->Err_0@ == em,
                }
            }),
    {
        let ghost env0 = old(self).env();
        let ghost out0 = old(self).out();
        let ghost total = run_stmts(env0, out0, statements@, 0);
        let mut i: usize = 0;
        while i < statements.len()
            invariant
                old(self).env() == env0,
                old(self).out() == out0,
                total == run_stmts(env0, out0, statements@, 0),
                i <= statements@.len(),
                stmts_wf(statements@),
                env_wf(self.env()),
                self.env().len() == env0.len(),
                env0.len() >= 1,
                total == run_stmts(self.env(), self.out(), statements@, i as int),
            decreases statements@.len() - i,
        {
            let ghost pe = self.env();
            let ghost po = self.out();
            match self.execute(&statements[i]) {
                Ok(_) => {
                    proof {
                        let rm = run_stmt(pe, po, statements@[i as int]);
                        assert(run_stmts(pe, po, statements@, i as int) == run_stmts(
                            rm.env,
                            rm.out,
                            statements@,
                            i + 1,
                        ));
                    }
                    i = i + 1;
                },
                Err(e) => {
                    proof {
                        let rm = run_stmt(pe, po, statements@[i as int]);
                        assert(run_stmts(pe, po, statements@, i as int) == rm);
                    }
                    return Err(e);
                },
            }
        }
        Ok(())
    }

    /// Hand out the collected output lines, leaving the buffer empty.
    pub fn take_output(&mut self) -> (r: Vec<String>)
        ensures
            r@.map_values(|s: String| s@) == old(self).out(),
            final(self).out() == Seq::<Seq<char>>::empty(),
            final(self).env() == old(self).env(),
    {
        let mut v: Vec<String> = Vec::new();
        core::mem::swap(&mut v, &mut self.output);
        proof {
            assert(self.out() =~= Seq::<Seq<char>>::empty());
        }
        v
    }
}

} // verus!
