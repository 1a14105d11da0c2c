use teci::envirnoment::Envirnoment;
use teci::error::TeciError;
use teci::expr::{BinaryExpr, Expr, GroupingExpr, LiteralExpr, UnaryExpr};
use teci::object::{Object, Rat};
use teci::parser::Parser;
use teci::pretty_printer::AstPrinter;
use teci::scanner::Scanner;
use teci::teci::{RunError, Teci};
use teci::token::Token;
use teci::token_type::TokenType;

fn run_ok(source: &str) -> Vec<String> {
    let mut teci = Teci::new();
    teci.run(source.to_string()).expect("program should run")
}

fn run_err(source: &str) -> RunError {
    let mut teci = Teci::new();
    match teci.run(source.to_string()) {
        Ok(_) => panic!("program should fail"),
        Err(e) => e,
    }
}

#[test]
fn t_precedence_multiplication_binds_tighter() {
    assert_eq!(run_ok("print 1 + 2 * 3;"), vec!["7".to_string()]);
}

#[test]
fn t_precedence_grouping_overrides() {
    assert_eq!(run_ok("print (1 + 2) * 3;"), vec!["9".to_string()]);
}

#[test]
fn t_string_concatenation() {
    assert_eq!(run_ok("print \"a\" + \"b\";"), vec!["ab".to_string()]);
}

#[test]
fn t_mixed_plus_is_runtime_error() {
    match run_err("print 1 + \"b\";") {
        RunError::Runtime(out, e) => {
            assert!(out.is_empty());
            assert_eq!(e.message, "Invalid operator");
        }
        _ => panic!("expected a runtime error"),
    }
}

#[test]
fn t_mixed_plus_other_order_is_runtime_error() {
    match run_err("print \"b\" + 1;") {
        RunError::Runtime(_, e) => assert_eq!(e.message, "Invalid operator"),
        _ => panic!("expected a runtime error"),
    }
}

#[test]
fn t_let_assign_print() {
    assert_eq!(run_ok("let x = 1; x = 2; print x;"), vec!["2".to_string()]);
}

#[test]
fn t_assign_undeclared_is_runtime_error() {
    match run_err("x = 2;") {
        RunError::Runtime(_, e) => {
            assert_eq!(e.message, "Undefined variable 'x'");
        }
        _ => panic!("expected a runtime error"),
    }
}

#[test]
fn t_read_undeclared_is_runtime_error() {
    match run_err("print y;") {
        RunError::Runtime(_, e) => {
            assert_eq!(e.message, "Undefined variable y");
        }
        _ => panic!("expected a runtime error"),
    }
}

#[test]
fn t_division_by_zero_is_distinguished() {
    match run_err("print 10 / 0;") {
        RunError::Runtime(out, e) => {
            assert!(out.is_empty());
            assert_eq!(e.message, "Division by zero");
        }
        _ => panic!("expected a runtime error"),
    }
}

#[test]
fn t_block_scope_binding_is_invisible_after_block() {
    let mut outer = Envirnoment::new();
    outer.define("x".to_string(), Object::Num(Rat::from_int(1)));
    let mut inner = outer.with_enclosing();
    inner.define("x".to_string(), Object::Num(Rat::from_int(99)));
    let x = Token::new(TokenType::Identifier, "x".to_string(), None, 0);
    assert_eq!(inner.get(&x).unwrap(), Object::Num(Rat::from_int(99)));
    let back = inner.into_enclosing();
    assert_eq!(back.get(&x).unwrap(), Object::Num(Rat::from_int(1)));
}

#[test]
fn t_block_scope_binding_undefined_outside() {
    let outer = Envirnoment::new();
    let mut inner = outer.with_enclosing();
    inner.define("y".to_string(), Object::Bool(true));
    let y = Token::new(TokenType::Identifier, "y".to_string(), None, 0);
    let back = inner.into_enclosing();
    assert!(back.get(&y).is_err());
}

#[test]
fn t_synchronization_reports_two_errors() {
    // Two independently malformed statements: both syntax errors surface in
    // one parse.
    let mut scanner = Scanner::new("1 + ; 2 + ;".to_string());
    let (tokens, lex_errors) = scanner.scan_tokens();
    assert!(lex_errors.is_empty());
    let mut parser = Parser::new(tokens);
    let (_, errors) = parser.parse();
    assert_eq!(errors.len(), 2);
    assert!(!parser.succeded());
}

#[test]
fn t_syntax_error_stops_execution() {
    match run_err("print 1; print ;") {
        RunError::Syntax(errors) => assert_eq!(errors.len(), 1),
        _ => panic!("expected a syntax error"),
    }
}

#[test]
fn t_invalid_assignment_target() {
    match run_err("1 = 2;") {
        RunError::Syntax(errors) => {
            assert_eq!(errors.len(), 1);
            assert_eq!(errors[0].message, "Invalid assignment target");
        }
        _ => panic!("expected a syntax error"),
    }
}

#[test]
fn t_repl_lines_share_one_environment() {
    let mut teci = Teci::new();
    assert_eq!(teci.run("let x = 1;".to_string()).unwrap(), Vec::<String>::new());
    assert_eq!(teci.run("print x;".to_string()).unwrap(), vec!["1".to_string()]);
}

#[test]
fn t_same_scope_redeclaration_overwrites() {
    assert_eq!(run_ok("let a = 1; let a = 2; print a;"), vec!["2".to_string()]);
}

#[test]
fn t_let_without_initializer_is_nil() {
    assert_eq!(run_ok("let a; print a;"), vec!["nil".to_string()]);
}

#[test]
fn t_print_whole_number_drops_fraction() {
    assert_eq!(run_ok("print 2.0;"), vec!["2".to_string()]);
}

#[test]
fn t_print_fraction() {
    assert_eq!(run_ok("print 2.5;"), vec!["2.5".to_string()]);
    assert_eq!(run_ok("print 0.50;"), vec!["0.5".to_string()]);
    assert_eq!(run_ok("print -0.5;"), vec!["-0.5".to_string()]);
}

#[test]
fn t_print_exact_division() {
    assert_eq!(run_ok("print 10 / 4;"), vec!["2.5".to_string()]);
}

#[test]
fn t_print_nonterminating_expansion_is_truncated() {
    assert_eq!(
        run_ok("print 1 / 3;"),
        vec![format!("0.{}", "3".repeat(30))]
    );
}

#[test]
fn t_print_booleans_and_nil() {
    assert_eq!(
        run_ok("print true; print false; print nil;"),
        vec!["true".to_string(), "false".to_string(), "nil".to_string()]
    );
}

#[test]
fn t_truthiness_zero_and_empty_string_are_falsy() {
    assert_eq!(
        run_ok("print !0; print !\"\"; print !1; print !\"x\"; print !nil; print !false;"),
        vec!["true", "true", "false", "false", "true", "true"]
            .into_iter()
            .map(|s| s.to_string())
            .collect::<Vec<String>>()
    );
}

#[test]
fn t_equality_across_tags_is_boolean() {
    assert_eq!(
        run_ok("print 1 == \"1\"; print nil == nil; print 1 == 1; print 0.5 == 2 / 4;"),
        vec!["false", "true", "true", "true"]
            .into_iter()
            .map(|s| s.to_string())
            .collect::<Vec<String>>()
    );
}

#[test]
fn t_comparison_chain() {
    assert_eq!(
        run_ok("print 1 < 2; print 2 <= 2; print 3 > 4; print 4 >= 4;"),
        vec!["true", "true", "false", "true"]
            .into_iter()
            .map(|s| s.to_string())
            .collect::<Vec<String>>()
    );
}

#[test]
fn t_comparison_on_strings_is_runtime_error() {
    match run_err("print \"a\" < \"b\";") {
        RunError::Runtime(_, e) => {
            assert_eq!(e.message, "Invalid operator for non numeric operands");
        }
        _ => panic!("expected a runtime error"),
    }
}

#[test]
fn t_arithmetic_overflow_is_runtime_error() {
    match run_err("print 4000000000 * 4000000000;") {
        RunError::Runtime(_, e) => assert_eq!(e.message, "Invalid operator"),
        _ => panic!("expected a runtime error"),
    }
}

#[test]
fn t_runtime_error_keeps_earlier_output() {
    match run_err("print 1; print 2 / 0;") {
        RunError::Runtime(out, e) => {
            assert_eq!(out, vec!["1".to_string()]);
            assert_eq!(e.message, "Division by zero");
        }
        _ => panic!("expected a runtime error"),
    }
}

#[test]
fn t_lexical_error_prevents_execution() {
    match run_err("print 1; @") {
        RunError::Lexical(errors) => {
            assert_eq!(errors.len(), 1);
            assert_eq!(errors[0].message, "Unexpected character.");
        }
        _ => panic!("expected a lexical error"),
    }
}

#[test]
fn t_report_generic_error_format() {
    let e = TeciError::new(3, "Unterminated string.");
    assert_eq!(e.report(""), "[line 3] Error : Unterminated string.");
}

#[test]
fn t_report_token_error_format() {
    let tok = Token::new(TokenType::Identifier, "x".to_string(), None, 5);
    let e = TeciError::runtime_error(tok, "Undefined variable x");
    assert_eq!(e.report(""), "[line 5] Error: Undefined variable x at 'x'");
}

#[test]
fn t_report_at_end_format() {
    let eof = Token::new(TokenType::Eof, "".to_string(), None, 9);
    let e = TeciError::parse_error(eof, "Expected ';' after expression");
    assert_eq!(
        e.report(""),
        "[line 9] Error: Expected ';' after expression at end"
    );
}

#[test]
fn t_pretty_printer_renders_tree() {
    // (-123) * (group 45.5)
    let expr = Expr::Binary(BinaryExpr {
        left: Box::new(Expr::Unary(UnaryExpr {
            operator: Token::new(TokenType::Minus, "-".to_string(), None, 1),
            right: Box::new(Expr::Literal(LiteralExpr {
                value: Some(Object::Num(Rat::from_int(123))),
            })),
        })),
        operator: Token::new(TokenType::Star, "*".to_string(), None, 1),
        right: Box::new(Expr::Grouping(GroupingExpr {
            expression: Box::new(Expr::Literal(LiteralExpr {
                value: Some(Object::Num(Rat { num: 91, den: 2 })),
            })),
        })),
    });
    let printer = AstPrinter;
    assert_eq!(printer.print(&expr), "(* (- 123) (group 45.5))");
}

#[test]
fn t_unary_minus_on_string_is_runtime_error() {
    match run_err("print -\"a\";") {
        RunError::Runtime(_, e) => assert_eq!(e.message, "Invalid operator"),
        _ => panic!("expected a runtime error"),
    }
}

#[test]
fn t_unterminated_block_comment_fails_run() {
    match run_err("let x = 1;\n/* comment") {
        RunError::Lexical(errors) => {
            assert_eq!(errors.len(), 1);
            assert_eq!(errors[0].line, 2);
            assert_eq!(errors[0].message, "Unterminated comment.");
        }
        _ => panic!("expected a lexical error"),
    }
}

#[test]
fn t_assignment_is_right_associative() {
    assert_eq!(
        run_ok("let a = 1; let b = 2; a = b = 3; print a; print b;"),
        vec!["3".to_string(), "3".to_string()]
    );
}

#[test]
fn t_double_negations() {
    assert_eq!(
        run_ok("print --5; print !!true;"),
        vec!["5".to_string(), "true".to_string()]
    );
}

#[test]
fn t_expression_statement_produces_no_output() {
    assert_eq!(run_ok("(1 + 2);"), Vec::<String>::new());
}

#[test]
fn t_assignment_expression_yields_value() {
    assert_eq!(run_ok("let a = 1; print a = 5;"), vec!["5".to_string()]);
}

#[test]
fn t_comparison_of_equal_rationals() {
    assert_eq!(
        run_ok("print 0.5 <= 2 / 4; print 0.5 >= 2 / 4;"),
        vec!["true".to_string(), "true".to_string()]
    );
}

#[test]
fn t_eighteen_fraction_digits_scan() {
    let mut scanner = teci::scanner::Scanner::new("0.123456789012345678".to_string());
    let (tokens, errors) = scanner.scan_tokens();
    assert!(errors.is_empty());
    assert_eq!(tokens[0].ttype, TokenType::Number);
}

#[test]
fn t_nineteen_fraction_digits_rejected() {
    let mut scanner = teci::scanner::Scanner::new("0.1234567890123456789".to_string());
    let (_, errors) = scanner.scan_tokens();
    assert_eq!(errors.len(), 1);
    assert_eq!(errors[0].message, "Number literal out of range.");
}

#[test]
fn t_keywords_are_not_variables() {
    match run_err("print print;") {
        RunError::Syntax(errors) => assert!(errors.len() >= 1),
        _ => panic!("expected a syntax error"),
    }
}

#[test]
fn t_missing_semicolon_is_syntax_error() {
    match run_err("print 1") {
        RunError::Syntax(errors) => {
            assert_eq!(errors.len(), 1);
            assert_eq!(errors[0].report(""), "[line 1] Error: Expected ';' after expression at end");
        }
        _ => panic!("expected a syntax error"),
    }
}

#[test]
fn t_unclosed_paren_is_syntax_error() {
    match run_err("print (1 + 2;") {
        RunError::Syntax(errors) => {
            assert!(errors.len() >= 1);
            assert_eq!(errors[0].message, "Expected ')' after expression");
        }
        _ => panic!("expected a syntax error"),
    }
}

#[test]
fn t_unary_error_is_anchored_at_operator() {
    match run_err("print -\"a\";") {
        RunError::Runtime(_, e) => {
            assert_eq!(e.report(""), "[line 1] Error: Invalid operator at '-'");
        }
        _ => panic!("expected a runtime error"),
    }
}

#[test]
fn t_arithmetic_results_are_in_lowest_terms() {
    let ten = Object::Num(Rat::from_int(10));
    let four = Object::Num(Rat::from_int(4));
    match ten.div(four) {
        Object::Num(rat) => {
            assert_eq!(rat.num, 5);
            assert_eq!(rat.den, 2);
        }
        _ => panic!("expected a number"),
    }
}

#[test]
fn t_let_without_name_is_syntax_error() {
    match run_err("let 1 = 2;") {
        RunError::Syntax(errors) => {
            assert_eq!(errors[0].report(""), "[line 1] Error: Expected variable name at '1'");
        }
        _ => panic!("expected a syntax error"),
    }
}

#[test]
fn t_expected_expression_names_offending_token() {
    match run_err("print ;") {
        RunError::Syntax(errors) => {
            assert_eq!(errors[0].report(""), "[line 1] Error: Expected expression at ';'");
        }
        _ => panic!("expected a syntax error"),
    }
}
