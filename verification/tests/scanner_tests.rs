use teci::object::{Object, Rat};
use teci::scanner::Scanner;
use teci::token::Token;
use teci::token_type::TokenType;

fn scan(source: &str) -> (Vec<Token>, Vec<teci::error::TeciError>) {
    let mut scanner = Scanner::new(source.to_string());
    scanner.scan_tokens()
}

#[test]
fn t_scan_empty_source() {
    let (tokens, errors) = scan("");
    assert!(errors.is_empty());
    assert_eq!(tokens.len(), 1);
    assert_eq!(tokens[0].ttype, TokenType::Eof);
    assert_eq!(tokens[0].line, 1);
}

#[test]
fn t_scan_integer_literal() {
    let (tokens, errors) = scan("42");
    assert!(errors.is_empty());
    assert_eq!(tokens.len(), 2);
    assert_eq!(tokens[0].ttype, TokenType::Number);
    assert_eq!(tokens[0].lexeme, "42");
    assert_eq!(tokens[0].literal, Some(Object::Num(Rat::from_int(42))));
    assert_eq!(tokens[1].ttype, TokenType::Eof);
}

#[test]
fn t_scan_fraction_literal() {
    let (tokens, errors) = scan("12.5");
    assert!(errors.is_empty());
    assert_eq!(tokens.len(), 2);
    assert_eq!(tokens[0].ttype, TokenType::Number);
    assert_eq!(tokens[0].lexeme, "12.5");
    // Exact value: 125 / 10, compared as a rational (also equal to 25 / 2).
    assert_eq!(tokens[0].literal, Some(Object::Num(Rat { num: 25, den: 2 })));
}

#[test]
fn t_scan_number_then_dot() {
    // A trailing dot is not part of the numeral.
    let (tokens, errors) = scan("7.");
    assert!(errors.is_empty());
    assert_eq!(tokens.len(), 3);
    assert_eq!(tokens[0].ttype, TokenType::Number);
    assert_eq!(tokens[0].lexeme, "7");
    assert_eq!(tokens[1].ttype, TokenType::Dot);
}

#[test]
fn t_scan_string_literal() {
    let (tokens, errors) = scan("\"hi there\"");
    assert!(errors.is_empty());
    assert_eq!(tokens.len(), 2);
    assert_eq!(tokens[0].ttype, TokenType::String);
    assert_eq!(tokens[0].lexeme, "\"hi there\"");
    assert_eq!(tokens[0].literal, Some(Object::Str("hi there".to_string())));
}

#[test]
fn t_scan_multiline_string_counts_lines() {
    let (tokens, errors) = scan("\"a\nb\"");
    assert!(errors.is_empty());
    assert_eq!(tokens[0].ttype, TokenType::String);
    assert_eq!(tokens[0].literal, Some(Object::Str("a\nb".to_string())));
    assert_eq!(tokens[0].line, 2);
    assert_eq!(tokens[1].line, 2);
}

#[test]
fn t_scan_unterminated_string() {
    let (tokens, errors) = scan("\"abc");
    assert_eq!(errors.len(), 1);
    assert_eq!(errors[0].message, "Unterminated string.");
    assert_eq!(tokens.len(), 1);
    assert_eq!(tokens[0].ttype, TokenType::Eof);
}

#[test]
fn t_scan_keywords_and_identifiers() {
    let (tokens, errors) = scan("let x while whilee");
    assert!(errors.is_empty());
    let kinds: Vec<TokenType> = tokens.iter().map(|t| t.ttype).collect();
    assert_eq!(
        kinds,
        vec![
            TokenType::Let,
            TokenType::Identifier,
            TokenType::While,
            TokenType::Identifier,
            TokenType::Eof,
        ]
    );
    assert_eq!(tokens[3].lexeme, "whilee");
}

#[test]
fn t_scan_operators_maximal_munch() {
    let (tokens, errors) = scan("!= ! == = <= < >= >");
    assert!(errors.is_empty());
    let kinds: Vec<TokenType> = tokens.iter().map(|t| t.ttype).collect();
    assert_eq!(
        kinds,
        vec![
            TokenType::BangEqual,
            TokenType::Bang,
            TokenType::Equals,
            TokenType::Assign,
            TokenType::LessEqual,
            TokenType::Less,
            TokenType::GreaterEqual,
            TokenType::Greater,
            TokenType::Eof,
        ]
    );
}

#[test]
fn t_scan_line_comment() {
    let (tokens, errors) = scan("1 // ignored to end of line\n2");
    assert!(errors.is_empty());
    assert_eq!(tokens.len(), 3);
    assert_eq!(tokens[0].line, 1);
    assert_eq!(tokens[1].line, 2);
    assert_eq!(tokens[1].literal, Some(Object::Num(Rat::from_int(2))));
}

#[test]
fn t_scan_nested_block_comment() {
    let (tokens, errors) = scan("/* a /* nested */ still comment */ 7");
    assert!(errors.is_empty());
    assert_eq!(tokens.len(), 2);
    assert_eq!(tokens[0].ttype, TokenType::Number);
    assert_eq!(tokens[0].literal, Some(Object::Num(Rat::from_int(7))));
}

#[test]
fn t_scan_unterminated_comment_reports_start_line() {
    // The comment opens on line 2 and runs to the end of input on line 4:
    // the diagnostic is tied to the line the comment started on.
    let (tokens, errors) = scan("1\n/* open\nstill\nopen");
    assert_eq!(errors.len(), 1);
    assert_eq!(errors[0].message, "Unterminated comment.");
    assert_eq!(errors[0].line, 2);
    // The end-of-input token still carries the final line.
    assert_eq!(tokens.last().unwrap().line, 4);
}

#[test]
fn t_scan_unexpected_character() {
    let (tokens, errors) = scan("1 @ 2");
    assert_eq!(errors.len(), 1);
    assert_eq!(errors[0].message, "Unexpected character.");
    assert_eq!(errors[0].line, 1);
    // Scanning continues past the bad character.
    assert_eq!(tokens.len(), 3);
}

#[test]
fn t_scan_number_literal_out_of_range() {
    let (tokens, errors) = scan("99999999999999999999");
    assert_eq!(errors.len(), 1);
    assert_eq!(errors[0].message, "Number literal out of range.");
    assert_eq!(tokens.len(), 1);
    assert_eq!(tokens[0].ttype, TokenType::Eof);
}

#[test]
fn t_scan_punctuation() {
    let (tokens, errors) = scan("(){},.;+-*/");
    assert!(errors.is_empty());
    let kinds: Vec<TokenType> = tokens.iter().map(|t| t.ttype).collect();
    assert_eq!(
        kinds,
        vec![
            TokenType::LeftParen,
            TokenType::RightParen,
            TokenType::LeftBrace,
            TokenType::RightBrace,
            TokenType::Comma,
            TokenType::Dot,
            TokenType::Semicolon,
            TokenType::Plus,
            TokenType::Minus,
            TokenType::Star,
            TokenType::Slash,
            TokenType::Eof,
        ]
    );
}
