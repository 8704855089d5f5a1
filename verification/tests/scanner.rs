use rlox::scanner::Scanner;
use rlox::token::{Decimal, Literal, Token};
use rlox::token_type::TokenType;

fn scan(src: &str) -> Vec<Token> {
    Scanner::new(src).scan_tokens()
}

fn token_types(src: &str) -> Vec<TokenType> {
    scan(src).into_iter().map(|t| t.token_type).collect()
}

fn to_f64(value: &Decimal) -> f64 {
    let mut text = String::new();
    let whole = value.digits.len() - value.scale;
    for (i, d) in value.digits.iter().enumerate() {
        if i == whole {
            text.push('.');
        }
        text.push((b'0' + d) as char);
    }
    text.parse().unwrap()
}

#[test]
fn empty_source_produces_only_eof() {
    assert_eq!(token_types(""), vec![TokenType::Eof]);
}

#[test]
fn scans_single_character_tokens() {
    let token_types = token_types("( ) { } , . - + ; * /");
    assert_eq!(
        token_types,
        vec![
            TokenType::LeftParen,
            TokenType::RightParen,
            TokenType::LeftBrace,
            TokenType::RightBrace,
            TokenType::Comma,
            TokenType::Dot,
            TokenType::Minus,
            TokenType::Plus,
            TokenType::Semicolon,
            TokenType::Star,
            TokenType::Slash,
            TokenType::Eof
        ]
    );
}

#[test]
fn scans_one_or_two_character_operators() {
    let token_types = token_types("! != = == < <= > >=");
    assert_eq!(
        token_types,
        vec![
            TokenType::Bang,
            TokenType::BangEqual,
            TokenType::Equal,
            TokenType::EqualEqual,
            TokenType::Less,
            TokenType::LessEqual,
            TokenType::Greater,
            TokenType::GreaterEqual,
            TokenType::Eof
        ]
    );
}

#[test]
fn ignores_whitespace() {
    let token_types = token_types(" \r\t     \t\r ");
    assert_eq!(token_types, vec![TokenType::Eof]);
}

#[test]
fn newlines_increment_line_counter() {
    let tokens = scan("\n\n+");
    assert_eq!(tokens[0].token_type, TokenType::Plus);
    assert_eq!(tokens[0].line, 3);
    assert_eq!(tokens[1].token_type, TokenType::Eof);
}

#[test]
fn line_comment_is_ignored_until_newline() {
    let token_types = token_types("// hello\n+");
    assert_eq!(token_types, vec![TokenType::Plus, TokenType::Eof]);
}

#[test]
fn line_comment_at_eof_is_ignored() {
    let token_types = token_types("// hello");
    assert_eq!(token_types, vec![TokenType::Eof]);
}

#[test]
fn scans_string_literal_and_sets_literal_value() {
    let tokens = scan("\"hello\"");
    assert_eq!(tokens[0].token_type, TokenType::String);

    match tokens[0].literal.as_ref() {
        Some(Literal::String(value)) => assert_eq!(value, "hello"),
        other => panic!("expected Literal::String(\"hello\"), got {:?}", other),
    }

    assert_eq!(tokens[1].token_type, TokenType::Eof);
}

#[test]
fn string_literal_can_contain_newlines_and_updates_line() {
    let tokens = scan("\"a\nb\"");
    assert_eq!(tokens[0].token_type, TokenType::String);
    assert_eq!(tokens[0].line, 2);

    match tokens[0].literal.as_ref() {
        Some(Literal::String(value)) => assert_eq!(value, "a\nb"),
        other => panic!("expected Literal::String(\"a\\nb\"), got {:?}", other),
    }
}

#[test]
fn scans_integer_number_literal() {
    let tokens = scan("123");
    assert_eq!(tokens[0].token_type, TokenType::Number);

    match tokens[0].literal.as_ref() {
        Some(Literal::Number(n)) => assert_eq!(to_f64(n), 123.0),
        other => panic!("expected Literal::Number(123.0), got {:?}", other),
    }

    assert_eq!(tokens[1].token_type, TokenType::Eof);
}

#[test]
fn scans_fractional_number_literal() {
    let tokens = scan("123.456");
    assert_eq!(tokens[0].token_type, TokenType::Number);

    match tokens[0].literal.as_ref() {
        Some(Literal::Number(n)) => assert!((to_f64(n) - 123.456).abs() < 1e-12),
        other => panic!("expected Literal::Number(123.456), got {:?}", other),
    }

    assert_eq!(tokens[1].token_type, TokenType::Eof);
}

#[test]
fn dot_is_not_fractional_part_without_trailing_digit() {
    let token_types = token_types("123.");
    assert_eq!(
        token_types,
        vec![TokenType::Number, TokenType::Dot, TokenType::Eof]
    );
}

#[test]
fn scans_identifier() {
    let tokens = scan("foo_bar");
    assert_eq!(tokens[0].token_type, TokenType::Identifier);
    assert_eq!(tokens[0].lexeme, "foo_bar");
    assert_eq!(tokens[1].token_type, TokenType::Eof);
}

#[test]
fn identifiers_can_contain_digits_after_first_character() {
    let tokens = scan("foo123");
    assert_eq!(tokens[0].token_type, TokenType::Identifier);
    assert_eq!(tokens[0].lexeme, "foo123");
}

#[test]
fn recognizes_keywords() {
    let token_types = token_types(
        "and class else false for fun if nil or print return super this true var while",
    );

    assert_eq!(
        token_types,
        vec![
            TokenType::And,
            TokenType::Class,
            TokenType::Else,
            TokenType::False,
            TokenType::For,
            TokenType::Fun,
            TokenType::If,
            TokenType::Nil,
            TokenType::Or,
            TokenType::Print,
            TokenType::Return,
            TokenType::Super,
            TokenType::This,
            TokenType::True,
            TokenType::Var,
            TokenType::While,
            TokenType::Eof,
        ]
    )
}

#[test]
fn keywords_are_not_prefixes_of_identifiers() {
    let tokens = scan("class classy");
    assert_eq!(tokens[0].token_type, TokenType::Class);
    assert_eq!(tokens[1].token_type, TokenType::Identifier);
    assert_eq!(tokens[1].lexeme, "classy");
    assert_eq!(tokens[2].token_type, TokenType::Eof);
}

#[test]
fn scans_mixed_program_snippet() {
    let token_types = token_types("var a = 1; print a;");
    assert_eq!(
        token_types,
        vec![
            TokenType::Var,
            TokenType::Identifier,
            TokenType::Equal,
            TokenType::Number,
            TokenType::Semicolon,
            TokenType::Print,
            TokenType::Identifier,
            TokenType::Semicolon,
            TokenType::Eof,
        ]
    );
}

#[test]
fn block_comment_is_ignored() {
    let token_types = token_types("1 /* comment */ 2");
    assert_eq!(
        token_types,
        vec![TokenType::Number, TokenType::Number, TokenType::Eof]
    );
}

#[test]
fn block_comment_counts_newlines() {
    let tokens = scan("/* a\nb\nc */ +");
    assert_eq!(tokens[0].token_type, TokenType::Plus);
    assert_eq!(tokens[0].line, 3);
}

#[test]
fn nested_block_comments_are_ignored() {
    let token_types = token_types("1 /* outer /* inner */ outer */ 2");
    assert_eq!(
        token_types,
        vec![TokenType::Number, TokenType::Number, TokenType::Eof]
    );
}
