use std::iter::zip;

use kvserver::tokenizer::{
    is_identifier_char,
    is_identifier_start_char,
    is_valid_literal_end_char,
    Tokenizer,
};
use kvserver::tokens::{AnnotatedToken, Token};

#[test]
fn test_is_identifier_start_char() {
    assert!(is_identifier_start_char('_'));
    assert!(is_identifier_start_char('a'));
    assert!(is_identifier_start_char('A'));
    assert!(!is_identifier_start_char('1'));
    assert!(!is_identifier_start_char('#'));
}

#[test]
fn test_is_identifier_char() {
    assert!(is_identifier_char('_'));
    assert!(is_identifier_char('a'));
    assert!(is_identifier_char('A'));
    assert!(is_identifier_char('1'));
    assert!(!is_identifier_char('#'));
}

#[test]
fn test_is_valid_literal_end_char() {
    assert!(is_valid_literal_end_char(';'));
    assert!(is_valid_literal_end_char(','));
    assert!(is_valid_literal_end_char(']'));
    assert!(is_valid_literal_end_char('}'));
    assert!(is_valid_literal_end_char(':'));
    assert!(is_valid_literal_end_char(' '));
    assert!(is_valid_literal_end_char('\n'));
    assert!(!is_valid_literal_end_char('a'));
    assert!(!is_valid_literal_end_char('2'));
    assert!(!is_valid_literal_end_char('B'));
    assert!(!is_valid_literal_end_char('"'));
    assert!(!is_valid_literal_end_char('!'));
}

#[test]
fn test_tokenizer_simple_query() {
    let mut tokenizer = Tokenizer::new("set x 1");
    let tokens = tokenizer.tokenize().unwrap();
    let expected_tokens = vec![
        AnnotatedToken { token: Token::SetValue, position: 0, lexeme: "set".to_string() },
        AnnotatedToken {
            token: Token::Identifier("x".to_string()),
            position: 4,
            lexeme: "x".to_string(),
        },
        AnnotatedToken { token: Token::Integer(1), position: 6, lexeme: "1".to_string() },
    ];
    assert_eq!(3, tokens.len());
    for (expected_token, token) in zip(expected_tokens, tokens) {
        assert_eq!(expected_token, token);
    }
}

#[test]
fn test_tokenizer_query_with_string() {
    let mut tokenizer = Tokenizer::new("set x \"abc\";");
    let tokens = tokenizer.tokenize().unwrap();
    let expected_tokens = vec![
        AnnotatedToken { token: Token::SetValue, position: 0, lexeme: "set".to_string() },
        AnnotatedToken {
            token: Token::Identifier("x".to_string()),
            position: 4,
            lexeme: "x".to_string(),
        },
        AnnotatedToken {
            token: Token::StringValue("abc".to_string()),
            position: 6,
            lexeme: "\"abc\"".to_string(),
        },
        AnnotatedToken { token: Token::Semicolon, position: 11, lexeme: ";".to_string() },
    ];
    assert_eq!(4, tokens.len());
    for (expected_token, token) in zip(expected_tokens, tokens) {
        assert_eq!(expected_token, token);
    }
}

#[test]
fn test_tokenizer_query_with_float() {
    let mut tokenizer = Tokenizer::new("set x 1.0;");
    let tokens = tokenizer.tokenize().unwrap();
    let expected_tokens = vec![
        AnnotatedToken { token: Token::SetValue, position: 0, lexeme: "set".to_string() },
        AnnotatedToken {
            token: Token::Identifier("x".to_string()),
            position: 4,
            lexeme: "x".to_string(),
        },
        AnnotatedToken {
            token: Token::Float("1.0".to_string()),
            position: 6,
            lexeme: "1.0".to_string(),
        },
        AnnotatedToken { token: Token::Semicolon, position: 9, lexeme: ";".to_string() },
    ];
    assert_eq!(4, tokens.len());
    for (expected_token, token) in zip(expected_tokens, tokens) {
        assert_eq!(expected_token, token);
    }
}

#[test]
fn test_tokenizer_query_with_list() {
    let mut tokenizer = Tokenizer::new("set x [1, 2, 3];");
    let tokens = tokenizer.tokenize().unwrap();
    let expected_tokens = vec![
        AnnotatedToken { token: Token::SetValue, position: 0, lexeme: "set".to_string() },
        AnnotatedToken {
            token: Token::Identifier("x".to_string()),
            position: 4,
            lexeme: "x".to_string(),
        },
        AnnotatedToken { token: Token::LeftBracket, position: 6, lexeme: "[".to_string() },
        AnnotatedToken { token: Token::Integer(1), position: 7, lexeme: "1".to_string() },
        AnnotatedToken { token: Token::Comma, position: 8, lexeme: ",".to_string() },
        AnnotatedToken { token: Token::Integer(2), position: 10, lexeme: "2".to_string() },
        AnnotatedToken { token: Token::Comma, position: 11, lexeme: ",".to_string() },
        AnnotatedToken { token: Token::Integer(3), position: 13, lexeme: "3".to_string() },
        AnnotatedToken { token: Token::RightBracket, position: 14, lexeme: "]".to_string() },
        AnnotatedToken { token: Token::Semicolon, position: 15, lexeme: ";".to_string() },
    ];
    assert_eq!(10, tokens.len());
    for (expected_token, token) in zip(expected_tokens, tokens) {
        assert_eq!(expected_token, token);
    }
}

#[test]
fn test_tokenizer_query_with_map() {
    let mut tokenizer = Tokenizer::new("set x int int {1:2 , 3 : 4};");
    let tokens = tokenizer.tokenize().unwrap();
    let expected_tokens = vec![
        AnnotatedToken { token: Token::SetValue, position: 0, lexeme: "set".to_string() },
        AnnotatedToken {
            token: Token::Identifier("x".to_string()),
            position: 4,
            lexeme: "x".to_string(),
        },
        AnnotatedToken { token: Token::IntType, position: 6, lexeme: "int".to_string() },
        AnnotatedToken { token: Token::IntType, position: 10, lexeme: "int".to_string() },
        AnnotatedToken { token: Token::LeftCurlyBracket, position: 14, lexeme: "{".to_string() },
        AnnotatedToken { token: Token::Integer(1), position: 15, lexeme: "1".to_string() },
        AnnotatedToken { token: Token::Colon, position: 16, lexeme: ":".to_string() },
        AnnotatedToken { token: Token::Integer(2), position: 17, lexeme: "2".to_string() },
        AnnotatedToken { token: Token::Comma, position: 19, lexeme: ",".to_string() },
        AnnotatedToken { token: Token::Integer(3), position: 21, lexeme: "3".to_string() },
        AnnotatedToken { token: Token::Colon, position: 23, lexeme: ":".to_string() },
        AnnotatedToken { token: Token::Integer(4), position: 25, lexeme: "4".to_string() },
        AnnotatedToken { token: Token::RightCurlyBracket, position: 26, lexeme: "}".to_string() },
        AnnotatedToken { token: Token::Semicolon, position: 27, lexeme: ";".to_string() },
    ];
    assert_eq!(14, tokens.len());
    for (expected_token, token) in zip(expected_tokens, tokens) {
        assert_eq!(expected_token, token);
    }
}

#[test]
fn test_tokenizer_uppercase_input_is_lowercased() {
    let mut upper = Tokenizer::new("SET X 1");
    let mut lower = Tokenizer::new("set x 1");
    let upper_tokens = upper.tokenize().unwrap();
    let lower_tokens = lower.tokenize().unwrap();
    assert_eq!(upper_tokens.len(), lower_tokens.len());
    for (u, l) in zip(upper_tokens, lower_tokens) {
        assert_eq!(u, l);
    }
}

#[test]
fn test_tokenizer_unterminated_string() {
    let mut tokenizer = Tokenizer::new("set x \"abc");
    assert!(matches!(
        tokenizer.tokenize(),
        Err(kvserver::error::ServerError::TokenizationError(_))
    ));
}

#[test]
fn test_tokenizer_string_escapes() {
    let mut tokenizer = Tokenizer::new("set x \"a\\n\\t\\\"b\\\\\"");
    let tokens = tokenizer.tokenize().unwrap();
    assert!(matches!(
        &tokens[2].token,
        Token::StringValue(s) if s == "a\n\t\"b\\"
    ));
}

#[test]
fn test_tokenizer_bad_integer_literal() {
    let mut tokenizer = Tokenizer::new("set x 12ab");
    assert!(matches!(
        tokenizer.tokenize(),
        Err(kvserver::error::ServerError::TokenizationError(_))
    ));
}

#[test]
fn test_tokenizer_bad_float_literal() {
    let mut tokenizer = Tokenizer::new("set x 1.2.3");
    assert!(matches!(
        tokenizer.tokenize(),
        Err(kvserver::error::ServerError::TokenizationError(_))
    ));
}

#[test]
fn test_tokenizer_invalid_character() {
    let mut tokenizer = Tokenizer::new("set x @");
    assert!(matches!(
        tokenizer.tokenize(),
        Err(kvserver::error::ServerError::TokenizationError(_))
    ));
}

#[test]
fn test_tokenizer_extreme_integers() {
    let mut tokenizer = Tokenizer::new("set x -9223372036854775808; set y 9223372036854775807");
    let tokens = tokenizer.tokenize().unwrap();
    assert!(matches!(tokens[2].token, Token::Integer(i64::MIN)));
    assert!(matches!(tokens[6].token, Token::Integer(i64::MAX)));
    let mut too_big = Tokenizer::new("set x 9223372036854775808");
    assert!(too_big.tokenize().is_err());
}
