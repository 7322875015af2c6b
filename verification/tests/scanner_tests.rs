use rlox::scanner::Scanner;
use rlox::token::{Literal, Token, TokenType};

fn scan(source: &str) -> Vec<Token> {
    let mut scanner = Scanner::new(source.to_string());
    scanner.scan_tokens()
}

#[test]
fn empty_input_yields_only_eof() {
    let tokens = scan("");
    assert_eq!(tokens.len(), 1);
    assert_eq!(tokens[0].token_type, TokenType::Eof);
    assert_eq!(tokens[0].lexeme, "");
    assert_eq!(tokens[0].literal, None);
    assert_eq!(tokens[0].line, 1);
}

#[test]
fn each_punctuation_alone_yields_token_then_eof() {
    let cases = vec![
        ("(", TokenType::LeftParen),
        (")", TokenType::RightParen),
        ("{", TokenType::LeftBrace),
        ("}", TokenType::RightBrace),
        (",", TokenType::Comma),
        (".", TokenType::Dot),
        ("-", TokenType::Minus),
        ("+", TokenType::Plus),
        (";", TokenType::Semicolon),
        ("*", TokenType::Star),
        ("/", TokenType::Slash),
    ];
    for (text, expected) in cases {
        let tokens = scan(text);
        assert_eq!(tokens.len(), 2, "input {:?}", text);
        assert_eq!(tokens[0].token_type, expected, "input {:?}", text);
        assert_eq!(tokens[0].lexeme, text, "input {:?}", text);
        assert_eq!(tokens[0].literal, None, "input {:?}", text);
        assert_eq!(tokens[0].line, 1, "input {:?}", text);
        assert_eq!(tokens[1].token_type, TokenType::Eof, "input {:?}", text);
    }
}

#[test]
fn bang_equal_is_one_token() {
    let tokens = scan("!=");
    assert_eq!(tokens.len(), 2);
    assert_eq!(tokens[0].token_type, TokenType::BangEqual);
    assert_eq!(tokens[0].lexeme, "!=");
    assert_eq!(tokens[1].token_type, TokenType::Eof);
}

#[test]
fn bang_alone_is_bang() {
    let tokens = scan("!");
    assert_eq!(tokens.len(), 2);
    assert_eq!(tokens[0].token_type, TokenType::Bang);
    assert_eq!(tokens[0].lexeme, "!");
}

#[test]
fn operators_with_and_without_trailing_equal() {
    let cases = vec![
        ("=", TokenType::Equal),
        ("==", TokenType::EqualEqual),
        ("<", TokenType::Less),
        ("<=", TokenType::LessEqual),
        (">", TokenType::Greater),
        (">=", TokenType::GreaterEqual),
    ];
    for (text, expected) in cases {
        let tokens = scan(text);
        assert_eq!(tokens.len(), 2, "input {:?}", text);
        assert_eq!(tokens[0].token_type, expected, "input {:?}", text);
        assert_eq!(tokens[0].lexeme, text, "input {:?}", text);
    }
}

#[test]
fn comment_contributes_no_token_and_newline_advances_line() {
    let tokens = scan("// c\n+");
    assert_eq!(tokens.len(), 2);
    assert_eq!(tokens[0].token_type, TokenType::Plus);
    assert_eq!(tokens[0].lexeme, "+");
    assert_eq!(tokens[0].line, 2);
    assert_eq!(tokens[1].token_type, TokenType::Eof);
    assert_eq!(tokens[1].line, 2);
}

#[test]
fn comment_at_end_of_input_emits_nothing() {
    let tokens = scan("+// trailing comment");
    assert_eq!(tokens.len(), 2);
    assert_eq!(tokens[0].token_type, TokenType::Plus);
    assert_eq!(tokens[1].token_type, TokenType::Eof);
    assert_eq!(tokens[1].line, 1);
}

#[test]
fn string_literal_strips_quotes() {
    let tokens = scan("\"hello\"");
    assert_eq!(tokens.len(), 2);
    assert_eq!(tokens[0].token_type, TokenType::Str);
    assert_eq!(tokens[0].lexeme, "\"hello\"");
    assert_eq!(tokens[0].literal, Some(Literal::Text("hello".to_string())));
    assert_eq!(tokens[0].line, 1);
    assert_eq!(tokens[1].token_type, TokenType::Eof);
}

#[test]
fn multiline_string_records_closing_line() {
    let tokens = scan("\"a\nb\"");
    assert_eq!(tokens.len(), 2);
    assert_eq!(tokens[0].token_type, TokenType::Str);
    assert_eq!(tokens[0].literal, Some(Literal::Text("a\nb".to_string())));
    assert_eq!(tokens[0].line, 2);
}

#[test]
fn unterminated_string_reports_and_emits_no_token() {
    let mut scanner = Scanner::new("\"abc".to_string());
    let tokens = scanner.scan_tokens();
    assert!(scanner.had_error());
    assert_eq!(tokens.len(), 1);
    assert_eq!(tokens[0].token_type, TokenType::Eof);
    let diags = scanner.diagnostics();
    assert_eq!(diags.len(), 1);
    assert_eq!(diags[0].line, 1);
    assert_eq!(diags[0].context, "");
    assert_eq!(diags[0].message, "Unterminated string.");
}

#[test]
fn number_with_fraction() {
    let tokens = scan("123.45");
    assert_eq!(tokens.len(), 2);
    assert_eq!(tokens[0].token_type, TokenType::Number);
    assert_eq!(tokens[0].lexeme, "123.45");
    match &tokens[0].literal {
        Some(Literal::Number(text)) => {
            assert_eq!(text, "123.45");
            let value: f64 = text.parse().unwrap();
            assert_eq!(value, 123.45);
        }
        other => panic!("expected a number literal, got {:?}", other),
    }
}

#[test]
fn trailing_dot_is_not_absorbed() {
    let tokens = scan("123.");
    assert_eq!(tokens.len(), 3);
    assert_eq!(tokens[0].token_type, TokenType::Number);
    assert_eq!(tokens[0].lexeme, "123");
    assert_eq!(tokens[0].literal, Some(Literal::Number("123".to_string())));
    assert_eq!(tokens[1].token_type, TokenType::Dot);
    assert_eq!(tokens[1].lexeme, ".");
    assert_eq!(tokens[2].token_type, TokenType::Eof);
}

#[test]
fn second_dot_starts_a_new_number() {
    let tokens = scan("1.2.3");
    assert_eq!(tokens.len(), 4);
    assert_eq!(tokens[0].token_type, TokenType::Number);
    assert_eq!(tokens[0].lexeme, "1.2");
    assert_eq!(tokens[1].token_type, TokenType::Dot);
    assert_eq!(tokens[2].token_type, TokenType::Number);
    assert_eq!(tokens[2].lexeme, "3");
}

#[test]
fn eof_line_is_newline_count_plus_one() {
    let cases = vec![
        ("", 1),
        ("\n", 2),
        ("\n\n\n", 4),
        ("a\n\"x\ny\"\n// c\n+", 5),
        ("\"abc\ndef", 2),
    ];
    for (text, expected_line) in cases {
        let tokens = scan(text);
        let eof = tokens.last().unwrap();
        assert_eq!(eof.token_type, TokenType::Eof, "input {:?}", text);
        assert_eq!(eof.line, expected_line, "input {:?}", text);
    }
}

#[test]
fn unexpected_character_is_skipped_and_reported() {
    let mut scanner = Scanner::new("@+".to_string());
    let tokens = scanner.scan_tokens();
    assert!(scanner.had_error());
    assert_eq!(tokens.len(), 2);
    assert_eq!(tokens[0].token_type, TokenType::Plus);
    let diags = scanner.diagnostics();
    assert_eq!(diags.len(), 1);
    assert_eq!(diags[0].line, 1);
    assert_eq!(diags[0].message, "Unexpected character.");
}

#[test]
fn diagnostics_keep_their_order_and_lines() {
    let mut scanner = Scanner::new("@\n#".to_string());
    let tokens = scanner.scan_tokens();
    assert_eq!(tokens.len(), 1);
    let diags = scanner.diagnostics();
    assert_eq!(diags.len(), 2);
    assert_eq!(diags[0].line, 1);
    assert_eq!(diags[1].line, 2);
    assert_eq!(diags[0].message, "Unexpected character.");
    assert_eq!(diags[1].message, "Unexpected character.");
}

#[test]
fn clean_input_has_no_error() {
    let mut scanner = Scanner::new("(1 + 2) * \"three\"".to_string());
    let tokens = scanner.scan_tokens();
    assert!(!scanner.had_error());
    assert!(scanner.diagnostics().is_empty());
    let kinds: Vec<TokenType> = tokens.iter().map(|t| t.token_type).collect();
    assert_eq!(
        kinds,
        vec![
            TokenType::LeftParen,
            TokenType::Number,
            TokenType::Plus,
            TokenType::Number,
            TokenType::RightParen,
            TokenType::Star,
            TokenType::Str,
            TokenType::Eof,
        ]
    );
}

#[test]
fn whitespace_produces_no_tokens() {
    let tokens = scan(" \r\t+ \t");
    assert_eq!(tokens.len(), 2);
    assert_eq!(tokens[0].token_type, TokenType::Plus);
    assert_eq!(tokens[0].line, 1);
}

#[test]
fn string_then_more_tokens() {
    let tokens = scan("\"a\"+");
    assert_eq!(tokens.len(), 3);
    assert_eq!(tokens[0].token_type, TokenType::Str);
    assert_eq!(tokens[0].literal, Some(Literal::Text("a".to_string())));
    assert_eq!(tokens[1].token_type, TokenType::Plus);
}
