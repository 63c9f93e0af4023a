use symphony::scanner::LexError;
use symphony::scanner::LiteralValue;
use symphony::scanner::Scanner;
use symphony::scanner::Token;
use symphony::scanner::TokenType;
use symphony::scanner::get_keywords_map;

#[test]
fn handle_one_char_tokens() {
    let source = "(( ))";
    let mut scanner = Scanner::new(source);
    let (tokens, errors) = scanner.scan_tokens();

    assert!(errors.is_empty());
    assert_eq!(tokens.len(), 5);
    assert_eq!(tokens[0].token_type, TokenType::LeftParen);
    assert_eq!(tokens[1].token_type, TokenType::LeftParen);
    assert_eq!(tokens[2].token_type, TokenType::RightParen);
    assert_eq!(tokens[3].token_type, TokenType::RightParen);
    assert_eq!(tokens[4].token_type, TokenType::Eof);
}

#[test]
fn handle_string_literal() {
    let source = r#""ABC""#;
    let mut scanner = Scanner::new(source);
    let (tokens, errors) = scanner.scan_tokens();

    assert!(errors.is_empty());
    assert_eq!(tokens.len(), 2);
    assert_eq!(tokens[0].token_type, TokenType::StringLit);
    match tokens[0].literal.as_ref().unwrap() {
        LiteralValue::StringValue(val) => assert_eq!(val, "ABC"),
        _ => panic!("Incorrect literal type"),
    }
}

#[test]
fn handle_num_lit() {
    let source = "123.123\n321.0\n5";
    let mut scanner = Scanner::new(source);
    let (tokens, errors) = scanner.scan_tokens();
    assert!(errors.is_empty());

    assert_eq!(tokens.len(), 4);
    for i in 0..3 {
        assert_eq!(tokens[i].token_type, TokenType::Number);
    }
    match &tokens[0].literal {
        Some(LiteralValue::NumberValue(val)) => assert_eq!(val.parse::<f64>().unwrap(), 123.123),
        _ => panic!("Incorrect literal type"),
    }
    match &tokens[1].literal {
        Some(LiteralValue::NumberValue(val)) => assert_eq!(val.parse::<f64>().unwrap(), 321.0),
        _ => panic!("Incorrect literal type"),
    }
    match &tokens[2].literal {
        Some(LiteralValue::NumberValue(val)) => assert_eq!(val.parse::<f64>().unwrap(), 5.0),
        _ => panic!("Incorrect literal type"),
    }
}

#[test]
fn handle_indentifier() {
    let source = "this_is_a_var = 12;";
    let mut scanner = Scanner::new(source);
    let (tokens, errors) = scanner.scan_tokens();
    assert!(errors.is_empty());

    assert_eq!(tokens.len(), 5);
    assert_eq!(tokens[0].token_type, TokenType::Identifier);
    assert_eq!(tokens[1].token_type, TokenType::Equal);
    assert_eq!(tokens[2].token_type, TokenType::Number);
    assert_eq!(tokens[3].token_type, TokenType::Semicolon);
    assert_eq!(tokens[4].token_type, TokenType::Eof);
}

#[test]
fn handle_keywords() {
    let source = "var this_is_a_var = 12;\n while true { print 3 };";
    let mut scanner = Scanner::new(source);
    let (tokens, errors) = scanner.scan_tokens();
    assert!(errors.is_empty());

    assert_eq!(tokens.len(), 13);
    assert_eq!(tokens[0].token_type, TokenType::Var);
    assert_eq!(tokens[1].token_type, TokenType::Identifier);
    assert_eq!(tokens[2].token_type, TokenType::Equal);
    assert_eq!(tokens[3].token_type, TokenType::Number);
    assert_eq!(tokens[4].token_type, TokenType::Semicolon);
    assert_eq!(tokens[5].token_type, TokenType::While);
    assert_eq!(tokens[6].token_type, TokenType::True);
    assert_eq!(tokens[7].token_type, TokenType::LeftBrace);
    assert_eq!(tokens[8].token_type, TokenType::Print);
    assert_eq!(tokens[9].token_type, TokenType::Number);
    assert_eq!(tokens[10].token_type, TokenType::RightBrace);
    assert_eq!(tokens[11].token_type, TokenType::Semicolon);
    assert_eq!(tokens[12].token_type, TokenType::Eof);
}

#[test]
fn keyword_vs_identifier() {
    // A keyword that is merely a prefix of a longer lexeme must not match.
    let mut scanner = Scanner::new("this_is_a_var");
    let (tokens, errors) = scanner.scan_tokens();
    assert!(errors.is_empty());
    assert_eq!(tokens.len(), 2);
    assert_eq!(tokens[0].token_type, TokenType::Identifier);
    assert_eq!(tokens[0].lexeme, "this_is_a_var");
    assert_eq!(tokens[1].token_type, TokenType::Eof);

    let mut scanner = Scanner::new("while");
    let (tokens, errors) = scanner.scan_tokens();
    assert!(errors.is_empty());
    assert_eq!(tokens.len(), 2);
    assert_eq!(tokens[0].token_type, TokenType::While);
    assert_eq!(tokens[1].token_type, TokenType::Eof);
}

#[test]
fn num_literal_lines() {
    let mut scanner = Scanner::new("123.123\n321.0\n5");
    let (tokens, errors) = scanner.scan_tokens();
    assert!(errors.is_empty());
    assert_eq!(tokens[0].line_number, 1);
    assert_eq!(tokens[1].line_number, 2);
    assert_eq!(tokens[2].line_number, 3);
    assert_eq!(tokens[3].line_number, 3);
}

#[test]
fn unterminated_string_error() {
    let mut scanner = Scanner::new("\"abc");
    let (tokens, errors) = scanner.scan_tokens();
    assert_eq!(errors.len(), 1);
    assert!(matches!(errors[0], LexError::UnterminatedString { line: 1 }));
    // No token is emitted for the broken lexeme; the scan still completes.
    assert_eq!(tokens.len(), 1);
    assert_eq!(tokens[0].token_type, TokenType::Eof);
}

#[test]
fn unrecognized_character_error() {
    let mut scanner = Scanner::new("@ #");
    let (tokens, errors) = scanner.scan_tokens();
    assert_eq!(errors.len(), 2);
    assert!(matches!(errors[0], LexError::UnrecognizedCharacter { character: '@', line: 1 }));
    assert!(matches!(errors[1], LexError::UnrecognizedCharacter { character: '#', line: 1 }));
    assert_eq!(tokens.len(), 1);
    assert_eq!(tokens[0].token_type, TokenType::Eof);
}

#[test]
fn two_char_operators() {
    let mut scanner = Scanner::new("! != = == < <= > >= /");
    let (tokens, errors) = scanner.scan_tokens();
    assert!(errors.is_empty());
    let kinds: Vec<TokenType> = tokens.iter().map(|t| t.token_type).collect();
    assert_eq!(
        kinds,
        vec![
            TokenType::Bang,
            TokenType::BangEqual,
            TokenType::Equal,
            TokenType::EqualEqual,
            TokenType::Less,
            TokenType::LessEqual,
            TokenType::Greater,
            TokenType::GreaterEqual,
            TokenType::Slash,
            TokenType::Eof,
        ]
    );
    assert_eq!(tokens[1].lexeme, "!=");
    assert_eq!(tokens[3].lexeme, "==");
}

#[test]
fn line_comment_skipped() {
    let mut scanner = Scanner::new("// a comment\n42");
    let (tokens, errors) = scanner.scan_tokens();
    assert!(errors.is_empty());
    assert_eq!(tokens.len(), 2);
    assert_eq!(tokens[0].token_type, TokenType::Number);
    assert_eq!(tokens[0].line_number, 2);
    assert_eq!(tokens[1].token_type, TokenType::Eof);
}

#[test]
fn string_with_newlines() {
    let mut scanner = Scanner::new("\"a\nb\"");
    let (tokens, errors) = scanner.scan_tokens();
    assert!(errors.is_empty());
    assert_eq!(tokens.len(), 2);
    assert_eq!(tokens[0].token_type, TokenType::StringLit);
    assert_eq!(tokens[0].line_number, 2);
    match &tokens[0].literal {
        Some(LiteralValue::StringValue(val)) => assert_eq!(val, "a\nb"),
        _ => panic!("Incorrect literal type"),
    }
}

#[test]
fn trailing_dot_is_separate_token() {
    let mut scanner = Scanner::new("1.");
    let (tokens, errors) = scanner.scan_tokens();
    assert!(errors.is_empty());
    assert_eq!(tokens.len(), 3);
    assert_eq!(tokens[0].token_type, TokenType::Number);
    assert_eq!(tokens[0].lexeme, "1");
    assert_eq!(tokens[1].token_type, TokenType::Dot);
    assert_eq!(tokens[2].token_type, TokenType::Eof);
}

#[test]
fn keyword_table_contents() {
    let table = get_keywords_map();
    assert_eq!(table.len(), 16);
    assert_eq!(table[0], ("and".to_string(), TokenType::And));
    assert_eq!(table[7], ("nil".to_string(), TokenType::Nil));
    assert_eq!(table[15], ("while".to_string(), TokenType::While));
}

#[test]
fn token_to_string_forms() {
    let t = Token::new(
        TokenType::Number,
        "123".to_string(),
        Some(LiteralValue::NumberValue("123".to_string())),
        1,
    );
    assert_eq!(t.to_string(), "Number 123 123");
    let t2 = Token::new(TokenType::Semicolon, ";".to_string(), None, 3);
    assert_eq!(t2.to_string(), "Semicolon ; None");
}

#[test]
fn empty_source_scans_to_eof() {
    let mut scanner = Scanner::new("");
    let (tokens, errors) = scanner.scan_tokens();
    assert!(errors.is_empty());
    assert_eq!(tokens.len(), 1);
    assert_eq!(tokens[0].token_type, TokenType::Eof);
    assert_eq!(tokens[0].lexeme, "");
    assert_eq!(tokens[0].line_number, 1);
}
