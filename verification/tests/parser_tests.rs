use symphony::expression::Expression;
use symphony::expression::LiteralValue;
use symphony::parser::ParseError;
use symphony::parser::Parser;
use symphony::scanner::Scanner;
use symphony::scanner::TokenType;

fn parse_source(source: &str) -> Result<Expression, Vec<ParseError>> {
    let mut scanner = Scanner::new(source);
    let (tokens, errors) = scanner.scan_tokens();
    assert!(errors.is_empty(), "lexical errors in test source");
    let mut parser = Parser::new(tokens);
    parser.parse()
}

#[test]
fn precedence_multiplication_binds_tighter() {
    let expr = parse_source("1 + 2 * 3").unwrap();
    // Binary(+, Literal(1), Binary(*, Literal(2), Literal(3))), never
    // Binary(*, Binary(+, 1, 2), Literal(3)).
    match &expr {
        Expression::Binary { left, operator, right } => {
            assert_eq!(operator.token_type, TokenType::Plus);
            match left.as_ref() {
                Expression::Literal { value: LiteralValue::Number(n) } => assert_eq!(n, "1"),
                other => panic!("expected literal 1, got {:?}", other),
            }
            match right.as_ref() {
                Expression::Binary { left: l2, operator: op2, right: r2 } => {
                    assert_eq!(op2.token_type, TokenType::Star);
                    match l2.as_ref() {
                        Expression::Literal { value: LiteralValue::Number(n) } => assert_eq!(n, "2"),
                        other => panic!("expected literal 2, got {:?}", other),
                    }
                    match r2.as_ref() {
                        Expression::Literal { value: LiteralValue::Number(n) } => assert_eq!(n, "3"),
                        other => panic!("expected literal 3, got {:?}", other),
                    }
                },
                other => panic!("expected a product on the right, got {:?}", other),
            }
        },
        other => panic!("expected a sum at the top, got {:?}", other),
    }
    assert_eq!(expr.to_string(), "+ 1 * 2 3");
}

#[test]
fn left_associativity() {
    let expr = parse_source("1 - 2 - 3").unwrap();
    // Binary(-, Binary(-, 1, 2), 3)
    match &expr {
        Expression::Binary { left, operator, right } => {
            assert_eq!(operator.token_type, TokenType::Minus);
            match left.as_ref() {
                Expression::Binary { left: l2, operator: op2, right: r2 } => {
                    assert_eq!(op2.token_type, TokenType::Minus);
                    match l2.as_ref() {
                        Expression::Literal { value: LiteralValue::Number(n) } => assert_eq!(n, "1"),
                        other => panic!("expected literal 1, got {:?}", other),
                    }
                    match r2.as_ref() {
                        Expression::Literal { value: LiteralValue::Number(n) } => assert_eq!(n, "2"),
                        other => panic!("expected literal 2, got {:?}", other),
                    }
                },
                other => panic!("expected a difference on the left, got {:?}", other),
            }
            match right.as_ref() {
                Expression::Literal { value: LiteralValue::Number(n) } => assert_eq!(n, "3"),
                other => panic!("expected literal 3, got {:?}", other),
            }
        },
        other => panic!("expected a difference at the top, got {:?}", other),
    }
    assert_eq!(expr.to_string(), "- - 1 2 3");
}

#[test]
fn unmatched_parenthesis() {
    let result = parse_source("(1 + 2");
    match result {
        Err(errors) => {
            assert_eq!(errors.len(), 1);
            assert!(matches!(errors[0], ParseError::UnmatchedParenthesis { line: 1 }));
        },
        Ok(expr) => panic!("expected a diagnostic, got a tree: {:?}", expr),
    }
}

#[test]
fn expected_expression_error() {
    let result = parse_source("+");
    match result {
        Err(errors) => {
            assert_eq!(errors.len(), 1);
            match &errors[0] {
                ParseError::ExpectedExpression { found } => {
                    assert_eq!(found.token_type, TokenType::Plus);
                    assert_eq!(found.line_number, 1);
                },
                other => panic!("expected ExpectedExpression, got {:?}", other),
            }
        },
        Ok(expr) => panic!("expected a diagnostic, got a tree: {:?}", expr),
    }
}

#[test]
fn recovery_reports_independent_faults() {
    // The first fault does not swallow the second: the parser synchronizes
    // past the `;` and reports the next fault as well.
    let result = parse_source("+ 1; +");
    match result {
        Err(errors) => {
            assert_eq!(errors.len(), 2);
            assert!(matches!(&errors[0], ParseError::ExpectedExpression { found } if found.token_type == TokenType::Plus));
            assert!(matches!(&errors[1], ParseError::ExpectedExpression { found } if found.token_type == TokenType::Plus));
        },
        Ok(expr) => panic!("expected diagnostics, got a tree: {:?}", expr),
    }
}

#[test]
fn grouping_and_literals() {
    let expr = parse_source("(1 + 2)").unwrap();
    assert_eq!(expr.to_string(), "(group + 1 2)");
    let expr = parse_source("\"hi\"").unwrap();
    assert_eq!(expr.to_string(), "hi");
    let expr = parse_source("true").unwrap();
    assert_eq!(expr.to_string(), "true");
    let expr = parse_source("false").unwrap();
    assert_eq!(expr.to_string(), "false");
    let expr = parse_source("nil").unwrap();
    assert_eq!(expr.to_string(), "nil");
}

#[test]
fn unary_is_right_associative() {
    let expr = parse_source("--1").unwrap();
    assert_eq!(expr.to_string(), "- - 1");
    let expr = parse_source("!true").unwrap();
    assert_eq!(expr.to_string(), "! true");
}

#[test]
fn comparison_and_equality_levels() {
    let expr = parse_source("1 < 2 == 3 >= 4").unwrap();
    // Both comparisons bind tighter than `==`.
    assert_eq!(expr.to_string(), "== < 1 2 >= 3 4");
    let expr = parse_source("1 != 2 / 3").unwrap();
    assert_eq!(expr.to_string(), "!= 1 / 2 3");
}

#[test]
fn match_token_consumes_on_match_only() {
    let mut scanner = Scanner::new("1;");
    let (tokens, errors) = scanner.scan_tokens();
    assert!(errors.is_empty());
    let mut parser = Parser::new(tokens);
    assert!(!parser.match_token(TokenType::Semicolon));
    assert!(parser.match_token(TokenType::Number));
    assert!(parser.match_token(TokenType::Semicolon));
    // At the end-of-input token every comparison is negative, even for Eof.
    assert!(!parser.match_token(TokenType::Eof));
    assert!(!parser.match_token(TokenType::Number));
}
