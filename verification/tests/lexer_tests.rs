use erox::compiler::lexer::{Lexer, LexerMode, Span, Token};

/// The number a `Number` token's text stands for.
fn number_value(t: &Token) -> Option<f64> {
    match t {
        Token::Number(text) => text.parse::<f64>().ok(),
        _ => None,
    }
}

/// Compares a token with an expected one; number tokens compare by value.
fn same_token(got: &Token, expected: &Token) -> bool {
    match (got, expected) {
        (Token::Number(_), Token::Number(_)) => number_value(got) == number_value(expected),
        _ => got == expected,
    }
}

fn num(v: f64) -> Token {
    Token::Number(format!("{}", v))
}

fn lex_all(input: &str) -> Vec<Token> {
    let mut lexer = Lexer::new(input.to_string());
    let mut out = Vec::new();
    loop {
        let t = lexer.next_token();
        let done = t == Token::EOF;
        out.push(t);
        if done || out.len() > 1000 {
            break;
        }
    }
    out
}

#[test]
fn test_next_token_keywords_and_symbols() {
    let input = r#"
            let x = 10
            async fn scan() {
                return 1
            }
        "#;

    let mut lexer = Lexer::new(input.to_string());

    let expected_tokens = vec![
        Token::Let,
        Token::Identifier("x".to_string()),
        Token::Assign,
        num(10.0),
        Token::Async,
        Token::Fn,
        Token::Identifier("scan".to_string()),
        Token::LParen,
        Token::RParen,
        Token::LBrace,
        Token::Return,
        num(1.0),
        Token::RBrace,
        Token::EOF,
    ];

    for expected in expected_tokens {
        let tok = lexer.next_token();
        assert!(same_token(&tok, &expected), "Error: Expected {:?}, got {:?}", expected, tok);
    }

    println!("Lexer Test Passed! 🛰️✅");
}

#[test]
fn number_tokens_keep_their_text() {
    assert_eq!(lex_all("3.25 7"), vec![Token::Number("3.25".to_string()), Token::Number("7".to_string()), Token::EOF]);
}

#[test]
fn operators_of_one_and_two_characters() {
    assert_eq!(
        lex_all("== != <= >= => ++ -- = < > ! + - * / %"),
        vec![
            Token::Equal, Token::NotEqual, Token::LTE, Token::GTE, Token::Arrow, Token::PlusPlus,
            Token::MinusMinus, Token::Assign, Token::LT, Token::GT, Token::Bang, Token::Plus,
            Token::Minus, Token::Star, Token::Slash, Token::Modulo, Token::EOF,
        ]
    );
}

#[test]
fn keywords_and_identifiers() {
    assert_eq!(Token::lookup_identifier("while"), Token::While);
    assert_eq!(Token::lookup_identifier("catch"), Token::Catch);
    assert_eq!(Token::lookup_identifier("null"), Token::NullLiteral);
    assert_eq!(Token::lookup_identifier("whiles"), Token::Identifier("whiles".to_string()));
    assert_eq!(
        lex_all("import from try const"),
        vec![Token::Import, Token::From, Token::Try, Token::Const, Token::EOF]
    );
}

#[test]
fn comments_are_skipped() {
    assert_eq!(
        lex_all("let // a comment\nx"),
        vec![Token::Let, Token::Identifier("x".to_string()), Token::EOF]
    );
}

#[test]
fn plain_string_literal() {
    assert_eq!(lex_all("\"hi there\""), vec![Token::String("hi there".to_string()), Token::EOF]);
}

#[test]
fn string_with_interpolation_switches_modes() {
    let mut lexer = Lexer::new("\"a${x}b\"".to_string());
    assert_eq!(lexer.next_token(), Token::String("a".to_string()));
    assert_eq!(lexer.next_token(), Token::InterpolationStart);
    assert_eq!(lexer.current_mode(), LexerMode::Normal);
    assert_eq!(lexer.next_token(), Token::Identifier("x".to_string()));
    assert_eq!(lexer.next_token(), Token::RBrace);
    lexer.resume_string();
    assert_eq!(lexer.current_mode(), LexerMode::String);
    assert_eq!(lexer.next_token(), Token::String("b".to_string()));
    assert_eq!(lexer.next_token(), Token::EOF);
}

#[test]
fn spans_record_line_and_column() {
    let mut lexer = Lexer::new("let\n  x".to_string());
    assert_eq!(lexer.next_token(), Token::Let);
    assert_eq!(lexer.span(), Span::new(1, 1));
    assert_eq!(lexer.next_token(), Token::Identifier("x".to_string()));
    assert_eq!(lexer.span(), Span::new(2, 3));
}

#[test]
fn eof_repeats_at_the_end() {
    let mut lexer = Lexer::new("x".to_string());
    assert_eq!(lexer.next_token(), Token::Identifier("x".to_string()));
    assert_eq!(lexer.next_token(), Token::EOF);
    assert_eq!(lexer.next_token(), Token::EOF);
}

#[test]
fn source_lines_count_from_one() {
    let lexer = Lexer::new("first\r\nsecond\nthird".to_string());
    assert_eq!(lexer.get_source_line(0), Some("first".to_string()));
    assert_eq!(lexer.get_source_line(1), Some("first".to_string()));
    assert_eq!(lexer.get_source_line(2), Some("second".to_string()));
    assert_eq!(lexer.get_source_line(3), Some("third".to_string()));
    assert_eq!(lexer.get_source_line(4), None);
}

#[test]
fn delimiters_and_specials() {
    assert_eq!(
        lex_all("( ) { } [ ] ; , : . $"),
        vec![
            Token::LParen, Token::RParen, Token::LBrace, Token::RBrace, Token::LBracket,
            Token::RBracket, Token::Semicolon, Token::Comma, Token::Colon, Token::Dot,
            Token::Dollar, Token::EOF,
        ]
    );
}

#[test]
fn eof_repeats_after_trailing_comments() {
    let mut lexer = Lexer::new("x  // done\n   ".to_string());
    assert_eq!(lexer.next_token(), Token::Identifier("x".to_string()));
    for _ in 0..3 {
        assert_eq!(lexer.next_token(), Token::EOF);
    }
}

#[test]
fn eof_repeats_inside_an_unfinished_string() {
    let mut lexer = Lexer::new("\"abc  // not a comment\n  ".to_string());
    for _ in 0..3 {
        assert_eq!(lexer.next_token(), Token::EOF);
    }
}

#[test]
fn eof_repeats_in_a_string_with_a_lone_dollar_and_nul() {
    let mut lexer = Lexer::new("\"a $ b\u{0} c".to_string());
    for _ in 0..3 {
        assert_eq!(lexer.next_token(), Token::EOF);
    }
}
