use symphony::expression::Expression;
use symphony::expression::LiteralValue;
use symphony::scanner::Token;
use symphony::scanner::TokenType;

#[test]
fn handle_pretty_print() {
    let minus = Token {
        token_type: TokenType::Minus,
        lexeme: "-".to_string(),
        literal: None,
        line_number: 0,
    };
    let num = Expression::Literal { value: LiteralValue::Number("123".to_string()) };
    let multi = Token {
        token_type: TokenType::Star,
        lexeme: "*".to_string(),
        literal: None,
        line_number: 0,
    };
    let group = Expression::Grouping {
        expr: Box::from(Expression::Literal { value: LiteralValue::Number("45.67".to_string()) }),
    };

    let ast = Expression::Binary {
        left: Box::from(Expression::Unary { operator: minus, right: Box::from(num) }),
        operator: multi,
        right: Box::from(group),
    };

    assert_eq!(ast.to_string(), "* - 123 (group 45.67)");
}

#[test]
fn literal_values_render_canonically() {
    assert_eq!(LiteralValue::Number("45.67".to_string()).to_string(), "45.67");
    assert_eq!(LiteralValue::StringValue("hi".to_string()).to_string(), "hi");
    assert_eq!(LiteralValue::True.to_string(), "true");
    assert_eq!(LiteralValue::False.to_string(), "false");
    assert_eq!(LiteralValue::Nil.to_string(), "nil");
}
