use teci::expr::{BinaryExpr, Expr, LiteralExpr, UnaryExpr};
use teci::interpreter::Interpreter;
use teci::object::{Object, Rat};
use teci::token::Token;
use teci::token_type::TokenType;

fn num(n: i64) -> Object {
    Object::Num(Rat::from_int(n))
}

fn lit(value: Object) -> Box<Expr> {
    Box::new(Expr::Literal(LiteralExpr { value: Some(value) }))
}

fn op(ttype: TokenType, lexeme: &str) -> Token {
    Token::new(ttype, lexeme.to_string(), None, 0)
}

#[test]
fn t_unary_minus() {
    let mut interpreter = Interpreter::new();
    let unary = UnaryExpr { operator: op(TokenType::Minus, "-"), right: lit(num(69)) };
    assert_eq!(num(-69), interpreter.visit_unary_expr(&unary).unwrap());
}

#[test]
fn t_unary_bang() {
    let mut interpreter = Interpreter::new();
    let boolean = UnaryExpr {
        operator: op(TokenType::Bang, "!"),
        right: lit(Object::Bool(true)),
    };
    assert_eq!(
        Object::Bool(false),
        interpreter.visit_unary_expr(&boolean).unwrap()
    );
}

#[test]
fn t_substraction() {
    let mut interpreter = Interpreter::new();
    let expr = BinaryExpr {
        left: lit(num(70)),
        operator: op(TokenType::Minus, "-"),
        right: Box::new(Expr::Unary(UnaryExpr {
            operator: op(TokenType::Minus, "-"),
            right: lit(num(1)),
        })),
    };
    assert_eq!(num(71), interpreter.visit_binary_expr(&expr).unwrap());
}

#[test]
fn t_mulitplication() {
    let mut interpreter = Interpreter::new();
    let expr = BinaryExpr {
        left: lit(num(70)),
        operator: op(TokenType::Star, "*"),
        right: Box::new(Expr::Unary(UnaryExpr {
            operator: op(TokenType::Minus, "-"),
            right: lit(num(2)),
        })),
    };
    assert_eq!(num(-140), interpreter.visit_binary_expr(&expr).unwrap());
}

#[test]
fn t_division() {
    let mut interpreter = Interpreter::new();
    let expr = BinaryExpr {
        left: lit(num(70)),
        operator: op(TokenType::Slash, "/"),
        right: Box::new(Expr::Unary(UnaryExpr {
            operator: op(TokenType::Minus, "-"),
            right: lit(num(2)),
        })),
    };
    assert_eq!(num(-35), interpreter.visit_binary_expr(&expr).unwrap());
}

#[test]
fn t_addition_numbers() {
    let mut interpreter = Interpreter::new();
    let expr = BinaryExpr {
        left: lit(num(70)),
        operator: op(TokenType::Plus, "+"),
        right: Box::new(Expr::Unary(UnaryExpr {
            operator: op(TokenType::Minus, "-"),
            right: lit(num(2)),
        })),
    };
    assert_eq!(num(68), interpreter.visit_binary_expr(&expr).unwrap());
}

#[test]
fn t_concatenation_strings() {
    let mut interpreter = Interpreter::new();
    let expr = BinaryExpr {
        left: lit(Object::Str("Hello ".to_string())),
        operator: op(TokenType::Plus, "+"),
        right: lit(Object::Str("World!".to_string())),
    };
    assert_eq!(
        Object::Str("Hello World!".to_string()),
        interpreter.visit_binary_expr(&expr).unwrap()
    );
}

#[test]
fn t_arithmetic_error() {
    let mut interpreter = Interpreter::new();
    let expr = BinaryExpr {
        left: lit(Object::Str("Hello ".to_string())),
        operator: op(TokenType::Minus, "-"),
        right: lit(Object::Str("World!".to_string())),
    };
    assert!(interpreter.visit_binary_expr(&expr).is_err());
}

#[test]
fn t_greaterequal() {
    let mut interpreter = Interpreter::new();
    let expr = BinaryExpr {
        left: lit(num(16)),
        operator: op(TokenType::GreaterEqual, ">="),
        right: lit(num(6)),
    };
    assert_eq!(
        Object::Bool(true),
        interpreter.visit_binary_expr(&expr).unwrap()
    );
}

#[test]
fn t_greater() {
    let mut interpreter = Interpreter::new();
    let expr = BinaryExpr {
        left: lit(num(16)),
        operator: op(TokenType::Greater, ">"),
        right: lit(num(6)),
    };
    assert_eq!(
        Object::Bool(true),
        interpreter.visit_binary_expr(&expr).unwrap()
    );
}

#[test]
fn t_lessequal() {
    let mut interpreter = Interpreter::new();
    let expr = BinaryExpr {
        left: lit(num(6)),
        operator: op(TokenType::LessEqual, "<="),
        right: lit(num(6)),
    };
    assert_eq!(
        Object::Bool(true),
        interpreter.visit_binary_expr(&expr).unwrap()
    );
}

#[test]
fn t_less() {
    let mut interpreter = Interpreter::new();
    let expr = BinaryExpr {
        left: lit(num(16)),
        operator: op(TokenType::Less, "<"),
        right: lit(Object::Bool(true)),
    };
    assert!(interpreter.visit_binary_expr(&expr).is_err());
}

#[test]
fn t_equals() {
    let mut interpreter = Interpreter::new();
    let expr = BinaryExpr {
        left: lit(Object::Str("hello".to_string())),
        operator: op(TokenType::Equals, "=="),
        right: lit(Object::Str("hello".to_string())),
    };
    assert_eq!(
        Object::Bool(true),
        interpreter.visit_binary_expr(&expr).unwrap()
    );
}

#[test]
fn t_bangequals() {
    let mut interpreter = Interpreter::new();
    let expr = BinaryExpr {
        left: lit(Object::Nil),
        operator: op(TokenType::BangEqual, "!="),
        right: lit(Object::Str("sixteen".to_string())),
    };
    assert_eq!(
        Object::Bool(true),
        interpreter.visit_binary_expr(&expr).unwrap()
    );
}
