use rlox::error::{ScanError, ScanErrorKind};
use rlox::helpers::{is_alpha, is_alpha_numeric, is_digit, keyword_type};
use rlox::scanner::{ScanOutput, Scanner};
use rlox::text::{decimal_string, str_eq, utf8_width};
use rlox::token::{Decimal, Literal, Token};
use rlox::token_type::TokenType;

fn scan_all(src: &str) -> ScanOutput {
    Scanner::new(src).scan()
}

fn kinds(tokens: &[Token]) -> Vec<TokenType> {
    tokens.iter().map(|t| t.token_type).collect()
}

fn plain(kind: TokenType, lexeme: &str, line: usize) -> Token {
    Token::new(kind, lexeme.to_string(), None, line)
}

fn end_marker(line: usize) -> Token {
    plain(TokenType::Eof, "", line)
}

fn number(lexeme: &str, digits: &[u8], scale: usize, line: usize) -> Token {
    Token::new(
        TokenType::Number,
        lexeme.to_string(),
        Some(Literal::Number(Decimal { digits: digits.to_vec(), scale })),
        line,
    )
}

fn error(kind: ScanErrorKind, line: usize) -> ScanError {
    ScanError { kind, line }
}

#[test]
fn blank_text_gives_the_end_marker_on_line_one() {
    for src in ["", " ", "\t", "\r", " \t\r \r\t  "] {
        let out = scan_all(src);
        assert_eq!(out.tokens, vec![end_marker(1)]);
        assert_eq!(out.errors, vec![]);
    }
}

#[test]
fn token_after_newlines_is_on_the_next_line() {
    for n in 0..6usize {
        let src = format!("{}var", "\n".repeat(n));
        let out = scan_all(&src);
        assert_eq!(out.tokens, vec![plain(TokenType::Var, "var", n + 1), end_marker(n + 1)]);
        assert_eq!(out.errors, vec![]);
    }
}

#[test]
fn string_after_newlines_is_on_the_line_of_its_closing_quote() {
    let out = scan_all("\n\n\"a\nb\"");
    assert_eq!(
        out.tokens,
        vec![
            Token::new(
                TokenType::String,
                "\"a\nb\"".to_string(),
                Some(Literal::String("a\nb".to_string())),
                4
            ),
            end_marker(4)
        ]
    );
}

#[test]
fn line_comment_gives_no_token_and_the_next_line_counts() {
    let out = scan_all("x // note * / \" @\ny");
    assert_eq!(
        out.tokens,
        vec![
            plain(TokenType::Identifier, "x", 1),
            plain(TokenType::Identifier, "y", 2),
            end_marker(2)
        ]
    );
    assert_eq!(out.errors, vec![]);
}

#[test]
fn unterminated_string_reports_one_error() {
    let out = scan_all("a \"bc\nd");
    assert_eq!(out.tokens, vec![plain(TokenType::Identifier, "a", 1), end_marker(2)]);
    assert_eq!(out.errors, vec![error(ScanErrorKind::UnterminatedString, 2)]);
}

#[test]
fn unterminated_block_comment_reports_one_error() {
    let out = scan_all("a /* b /* c */\n d");
    assert_eq!(out.tokens, vec![plain(TokenType::Identifier, "a", 1), end_marker(2)]);
    assert_eq!(out.errors, vec![error(ScanErrorKind::UnterminatedBlockComment, 2)]);
}

#[test]
fn unexpected_character_is_reported_and_the_scan_goes_on() {
    let out = scan_all("@+\n#");
    assert_eq!(out.tokens, vec![plain(TokenType::Plus, "+", 1), end_marker(2)]);
    assert_eq!(
        out.errors,
        vec![
            error(ScanErrorKind::UnexpectedCharacter, 1),
            error(ScanErrorKind::UnexpectedCharacter, 2)
        ]
    );
}

#[test]
fn each_punctuation_mark_alone_gives_its_kind() {
    let marks = [
        ("(", TokenType::LeftParen),
        (")", TokenType::RightParen),
        ("{", TokenType::LeftBrace),
        ("}", TokenType::RightBrace),
        (",", TokenType::Comma),
        (".", TokenType::Dot),
        ("-", TokenType::Minus),
        ("+", TokenType::Plus),
        (";", TokenType::Semicolon),
        ("*", TokenType::Star),
        ("/", TokenType::Slash),
    ];
    for (i, (text, kind)) in marks.iter().enumerate() {
        let out = scan_all(text);
        assert_eq!(out.tokens, vec![plain(*kind, text, 1), end_marker(1)]);
        assert_eq!(out.errors, vec![]);
        for (j, (_, other)) in marks.iter().enumerate() {
            assert_eq!(i == j, kind == other);
        }
    }
}

#[test]
fn each_operator_alone_and_followed_by_equal() {
    let operators = [
        ("!", TokenType::Bang, TokenType::BangEqual),
        ("=", TokenType::Equal, TokenType::EqualEqual),
        ("<", TokenType::Less, TokenType::LessEqual),
        (">", TokenType::Greater, TokenType::GreaterEqual),
    ];
    for (text, one, two) in operators {
        let out = scan_all(text);
        assert_eq!(out.tokens, vec![plain(one, text, 1), end_marker(1)]);
        let with_equal = format!("{}=", text);
        let out = scan_all(&with_equal);
        assert_eq!(out.tokens, vec![plain(two, &with_equal, 1), end_marker(1)]);
        assert_eq!(out.errors, vec![]);
    }
}

#[test]
fn three_equal_signs_are_a_pair_and_one() {
    let out = scan_all("===");
    assert_eq!(
        out.tokens,
        vec![plain(TokenType::EqualEqual, "==", 1), plain(TokenType::Equal, "=", 1), end_marker(1)]
    );
}

#[test]
fn number_literals_hold_their_digits_and_scale() {
    let out = scan_all("123 123.456 007.50 0");
    assert_eq!(
        out.tokens,
        vec![
            number("123", &[1, 2, 3], 0, 1),
            number("123.456", &[1, 2, 3, 4, 5, 6], 3, 1),
            number("007.50", &[0, 0, 7, 5, 0], 2, 1),
            number("0", &[0], 0, 1),
            end_marker(1)
        ]
    );
    assert_eq!(out.errors, vec![]);
}

#[test]
fn number_value_is_whole_part_and_decimal_places() {
    let out = scan_all("123.456 0.5 40");
    let values: Vec<(u64, usize)> = out
        .tokens
        .iter()
        .filter_map(|t| match &t.literal {
            Some(Literal::Number(n)) => {
                Some((n.digits.iter().fold(0u64, |v, d| v * 10 + *d as u64), n.scale))
            }
            _ => None,
        })
        .collect();
    assert_eq!(values, vec![(123456, 3), (5, 1), (40, 0)]);
    assert_eq!(123456, 123 * 1000 + 456);
}

#[test]
fn a_point_belongs_to_a_number_only_before_a_digit() {
    let out = scan_all("1.5");
    assert_eq!(out.tokens, vec![number("1.5", &[1, 5], 1, 1), end_marker(1)]);

    let out = scan_all("1.");
    assert_eq!(
        out.tokens,
        vec![number("1", &[1], 0, 1), plain(TokenType::Dot, ".", 1), end_marker(1)]
    );

    let out = scan_all("1..5");
    assert_eq!(
        out.tokens,
        vec![
            number("1", &[1], 0, 1),
            plain(TokenType::Dot, ".", 1),
            plain(TokenType::Dot, ".", 1),
            number("5", &[5], 0, 1),
            end_marker(1)
        ]
    );

    let out = scan_all("1.2.3");
    assert_eq!(
        out.tokens,
        vec![
            number("1.2", &[1, 2], 1, 1),
            plain(TokenType::Dot, ".", 1),
            number("3", &[3], 0, 1),
            end_marker(1)
        ]
    );

    let out = scan_all("12.a");
    assert_eq!(
        out.tokens,
        vec![
            number("12", &[1, 2], 0, 1),
            plain(TokenType::Dot, ".", 1),
            plain(TokenType::Identifier, "a", 1),
            end_marker(1)
        ]
    );

    let out = scan_all(".5");
    assert_eq!(
        out.tokens,
        vec![plain(TokenType::Dot, ".", 1), number("5", &[5], 0, 1), end_marker(1)]
    );
}

#[test]
fn words_take_the_whole_run() {
    let out = scan_all("classy class1 _class class or_ orchid nil");
    assert_eq!(
        out.tokens,
        vec![
            plain(TokenType::Identifier, "classy", 1),
            plain(TokenType::Identifier, "class1", 1),
            plain(TokenType::Identifier, "_class", 1),
            plain(TokenType::Class, "class", 1),
            plain(TokenType::Identifier, "or_", 1),
            plain(TokenType::Identifier, "orchid", 1),
            plain(TokenType::Nil, "nil", 1),
            end_marker(1)
        ]
    );
}

#[test]
fn a_number_directly_followed_by_letters_is_two_tokens() {
    let out = scan_all("12ab");
    assert_eq!(
        out.tokens,
        vec![number("12", &[1, 2], 0, 1), plain(TokenType::Identifier, "ab", 1), end_marker(1)]
    );
}

#[test]
fn keyword_table_holds_the_sixteen_words() {
    let table = [
        ("and", TokenType::And),
        ("class", TokenType::Class),
        ("else", TokenType::Else),
        ("false", TokenType::False),
        ("for", TokenType::For),
        ("fun", TokenType::Fun),
        ("if", TokenType::If),
        ("nil", TokenType::Nil),
        ("or", TokenType::Or),
        ("print", TokenType::Print),
        ("return", TokenType::Return),
        ("super", TokenType::Super),
        ("this", TokenType::This),
        ("true", TokenType::True),
        ("var", TokenType::Var),
        ("while", TokenType::While),
    ];
    for (i, (word, kind)) in table.iter().enumerate() {
        assert_eq!(keyword_type(word), Some(*kind));
        for (j, (_, other)) in table.iter().enumerate() {
            assert_eq!(i == j, kind == other);
        }
    }
}

#[test]
fn keyword_table_rejects_other_words() {
    for word in ["", "And", "AND", "classy", "clas", "fo", "funs", " if", "if ", "nil\n", "wh1le"] {
        assert_eq!(keyword_type(word), None);
    }
}

#[test]
fn end_marker_is_on_the_line_after_the_last_newline() {
    let src = "a\n\"b\nc\"\n/*\n\n*/ // d\n\n";
    let out = scan_all(src);
    let newlines = src.chars().filter(|c| *c == '\n').count();
    assert_eq!(newlines, 7);
    assert_eq!(out.tokens.last(), Some(&end_marker(8)));
    assert_eq!(
        out.tokens,
        vec![
            plain(TokenType::Identifier, "a", 1),
            Token::new(
                TokenType::String,
                "\"b\nc\"".to_string(),
                Some(Literal::String("b\nc".to_string())),
                3
            ),
            end_marker(8)
        ]
    );
}

#[test]
fn scanned_tokens_are_well_formed() {
    let src = "fun add(a, b) {\n  // sum\n  return a + b * 2.5; /* done\n */ }\nprint \"x\ny\" != nil;\n@";
    let out = scan_all(src);
    let tokens = &out.tokens;
    assert_eq!(tokens.last().map(|t| t.token_type), Some(TokenType::Eof));
    assert_eq!(tokens.last().map(|t| t.lexeme.as_str()), Some(""));
    let mut from = 0;
    let mut line = 1;
    for token in &tokens[..tokens.len() - 1] {
        assert_ne!(token.token_type, TokenType::Eof);
        let at = src[from..].find(token.lexeme.as_str()).expect("lexeme is part of the source");
        from += at + token.lexeme.len();
        assert!(!token.lexeme.is_empty());
        assert!(line <= token.line);
        line = token.line;
        match token.token_type {
            TokenType::String => assert!(matches!(token.literal, Some(Literal::String(_)))),
            TokenType::Number => assert!(matches!(token.literal, Some(Literal::Number(_)))),
            _ => assert_eq!(token.literal, None),
        }
    }
    assert_eq!(
        kinds(tokens),
        vec![
            TokenType::Fun,
            TokenType::Identifier,
            TokenType::LeftParen,
            TokenType::Identifier,
            TokenType::Comma,
            TokenType::Identifier,
            TokenType::RightParen,
            TokenType::LeftBrace,
            TokenType::Return,
            TokenType::Identifier,
            TokenType::Plus,
            TokenType::Identifier,
            TokenType::Star,
            TokenType::Number,
            TokenType::Semicolon,
            TokenType::RightBrace,
            TokenType::Print,
            TokenType::String,
            TokenType::BangEqual,
            TokenType::Nil,
            TokenType::Semicolon,
            TokenType::Eof
        ]
    );
    assert_eq!(out.errors, vec![error(ScanErrorKind::UnexpectedCharacter, 7)]);
}

#[test]
fn scan_tokens_gives_the_tokens_of_scan() {
    let src = "var x = \"s\"; // c\n1.5 @ /* open";
    assert_eq!(Scanner::new(src).scan_tokens(), Scanner::new(src).scan().tokens);
}

#[test]
fn block_comment_closes_only_when_every_level_is_closed() {
    assert_eq!(kinds(&scan_all("/**/ 2").tokens), vec![TokenType::Number, TokenType::Eof]);
    assert_eq!(kinds(&scan_all("/* /* */ 2 */ 3").tokens), vec![TokenType::Number, TokenType::Eof]);
    assert_eq!(
        kinds(&scan_all("/* a */ */").tokens),
        vec![TokenType::Star, TokenType::Slash, TokenType::Eof]
    );

    let out = scan_all("/* /* */ 2");
    assert_eq!(out.tokens, vec![end_marker(1)]);
    assert_eq!(out.errors, vec![error(ScanErrorKind::UnterminatedBlockComment, 1)]);
}

#[test]
fn comment_pairs_are_consumed_as_two_characters() {
    // After the opening pair, `/` belongs to no pair, so the comment is open.
    let out = scan_all("/*/");
    assert_eq!(out.tokens, vec![end_marker(1)]);
    assert_eq!(out.errors, vec![error(ScanErrorKind::UnterminatedBlockComment, 1)]);

    // `/*` inside takes the star with it: the `*/` that follows closes the
    // inner level only.
    let out = scan_all("/*/*/ x */ y */ z");
    assert_eq!(out.tokens, vec![plain(TokenType::Identifier, "z", 1), end_marker(1)]);
    assert_eq!(out.errors, vec![]);
}

#[test]
fn lookahead_at_the_end_of_input() {
    let out = scan_all("/");
    assert_eq!(out.tokens, vec![plain(TokenType::Slash, "/", 1), end_marker(1)]);
    let out = scan_all("!");
    assert_eq!(out.tokens, vec![plain(TokenType::Bang, "!", 1), end_marker(1)]);
    let out = scan_all("x/*");
    assert_eq!(out.tokens, vec![plain(TokenType::Identifier, "x", 1), end_marker(1)]);
    assert_eq!(out.errors, vec![error(ScanErrorKind::UnterminatedBlockComment, 1)]);
    let out = scan_all("x/**/");
    assert_eq!(out.tokens, vec![plain(TokenType::Identifier, "x", 1), end_marker(1)]);
    assert_eq!(out.errors, vec![]);
    let out = scan_all("\"");
    assert_eq!(out.tokens, vec![end_marker(1)]);
    assert_eq!(out.errors, vec![error(ScanErrorKind::UnterminatedString, 1)]);
    let out = scan_all("\"\"");
    assert_eq!(
        out.tokens,
        vec![
            Token::new(
                TokenType::String,
                "\"\"".to_string(),
                Some(Literal::String(String::new())),
                1
            ),
            end_marker(1)
        ]
    );
}

#[test]
fn multi_byte_text_keeps_lexemes_exact() {
    let out = scan_all("é + \"naïve €😀\" // ünï\nλx");
    assert_eq!(
        out.tokens,
        vec![
            plain(TokenType::Plus, "+", 1),
            Token::new(
                TokenType::String,
                "\"naïve €😀\"".to_string(),
                Some(Literal::String("naïve €😀".to_string())),
                1
            ),
            plain(TokenType::Identifier, "x", 2),
            end_marker(2)
        ]
    );
    assert_eq!(
        out.errors,
        vec![
            error(ScanErrorKind::UnexpectedCharacter, 1),
            error(ScanErrorKind::UnexpectedCharacter, 2)
        ]
    );
}

#[test]
fn backslashes_in_strings_are_literal() {
    let out = scan_all("\"a\\\" b");
    assert_eq!(
        out.tokens,
        vec![
            Token::new(
                TokenType::String,
                "\"a\\\"".to_string(),
                Some(Literal::String("a\\".to_string())),
                1
            ),
            plain(TokenType::Identifier, "b", 1),
            end_marker(1)
        ]
    );
}

#[test]
fn null_character_in_the_source_is_unexpected() {
    let out = scan_all("a\0b");
    assert_eq!(
        out.tokens,
        vec![
            plain(TokenType::Identifier, "a", 1),
            plain(TokenType::Identifier, "b", 1),
            end_marker(1)
        ]
    );
    assert_eq!(out.errors, vec![error(ScanErrorKind::UnexpectedCharacter, 1)]);
}

#[test]
fn error_messages() {
    assert_eq!(ScanErrorKind::UnexpectedCharacter.message(), "Unexpected character.");
    assert_eq!(ScanErrorKind::UnterminatedString.message(), "Unterminated string.");
    assert_eq!(ScanErrorKind::UnterminatedBlockComment.message(), "Unterminated block comment.");
    assert_eq!(ScanErrorKind::InvalidNumberLiteral.message(), "Invalid number literal.");
}

#[test]
fn diagnostic_lines() {
    assert_eq!(
        error(ScanErrorKind::UnexpectedCharacter, 1).report(),
        "[line 1] Error: Unexpected character."
    );
    assert_eq!(
        error(ScanErrorKind::UnterminatedString, 12).report(),
        "[line 12] Error: Unterminated string."
    );
    assert_eq!(
        error(ScanErrorKind::UnterminatedBlockComment, 3050).report(),
        "[line 3050] Error: Unterminated block comment."
    );
    assert_eq!(
        error(ScanErrorKind::InvalidNumberLiteral, 907).report(),
        "[line 907] Error: Invalid number literal."
    );
    let reports: Vec<String> = scan_all("\n@\n\n\"").errors.iter().map(|e| e.report()).collect();
    assert_eq!(
        reports,
        vec!["[line 2] Error: Unexpected character.", "[line 4] Error: Unterminated string."]
    );
}

#[test]
fn decimal_notation() {
    for n in [0usize, 1, 7, 9, 10, 11, 99, 100, 101, 1000, 65535, 1234567890, usize::MAX] {
        assert_eq!(decimal_string(n), n.to_string());
    }
    assert_eq!(decimal_string(0), "0");
    assert_eq!(decimal_string(40), "40");
    assert_eq!(decimal_string(4096), "4096");
}

#[test]
fn no_scan_reports_an_invalid_number_literal() {
    let src = "1 1.5 00.00 99999999999999999999999999999999999999999999.5 1..2 .3 4. 1e5 0x10 1_0";
    let out = scan_all(src);
    assert_eq!(out.errors, vec![]);
    for token in &out.tokens {
        if token.token_type == TokenType::Number {
            assert!(token.lexeme.parse::<f64>().is_ok());
        }
    }
}

#[test]
fn try_new_takes_any_text() {
    let scanner = Scanner::try_new("a + b").expect("a short text");
    assert_eq!(
        kinds(&scanner.scan_tokens()),
        vec![TokenType::Identifier, TokenType::Plus, TokenType::Identifier, TokenType::Eof]
    );
}

#[test]
fn token_new_keeps_its_parts() {
    let token = Token::new(
        TokenType::String,
        "\"x\"".to_string(),
        Some(Literal::String("x".to_string())),
        7,
    );
    assert_eq!(token.token_type, TokenType::String);
    assert_eq!(token.lexeme, "\"x\"");
    assert_eq!(token.literal, Some(Literal::String("x".to_string())));
    assert_eq!(token.line, 7);
}

#[test]
fn classifiers_at_the_edges_of_their_ranges() {
    for c in ['0', '5', '9'] {
        assert!(is_digit(c) && !is_alpha(c) && is_alpha_numeric(c));
    }
    for c in ['a', 'm', 'z', 'A', 'M', 'Z', '_'] {
        assert!(!is_digit(c) && is_alpha(c) && is_alpha_numeric(c));
    }
    for c in ['/', ':', '@', '[', '`', '{', ' ', '\0', '\n', '-', 'é', '٣', 'Ａ'] {
        assert!(!is_digit(c) && !is_alpha(c) && !is_alpha_numeric(c));
    }
}

#[test]
fn width_is_the_length_of_the_encoding() {
    let samples = [
        '\0', 'a', '\u{7f}', '\u{80}', 'é', '\u{7ff}', '\u{800}', '€', '\u{d7ff}', '\u{e000}',
        '\u{ffff}', '\u{10000}', '😀', '\u{10ffff}',
    ];
    for c in samples {
        assert_eq!(utf8_width(c), c.len_utf8());
    }
    assert_eq!(utf8_width('a'), 1);
    assert_eq!(utf8_width('é'), 2);
    assert_eq!(utf8_width('€'), 3);
    assert_eq!(utf8_width('😀'), 4);
}

#[test]
fn str_eq_compares_whole_texts() {
    assert!(str_eq("", ""));
    assert!(str_eq("while", "while"));
    assert!(str_eq("naïve", "naïve"));
    assert!(!str_eq("while", "whil"));
    assert!(!str_eq("whil", "while"));
    assert!(!str_eq("for", "fun"));
    assert!(!str_eq("", "a"));
}
