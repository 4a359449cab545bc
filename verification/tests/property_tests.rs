use cv_front::lexer::{Lexer, LexerError};
use cv_front::tokens::{NumberLiteral, Span, Token, TokenKind};

fn all_tokens(input: &str) -> Vec<Token> {
    Lexer::new(input).tokenize().expect("Lexer error")
}

#[test]
fn test_determinism() {
    let input = "fn f(i32 x) -> i32 { x + 1 } // done";
    let first = all_tokens(input);
    let second = all_tokens(input);
    assert_eq!(first, second);
}

#[test]
fn test_lexeme_round_trip() {
    let input = "when x <= 10 { return x ..= y; } %= ->";
    let chars: Vec<char> = input.chars().collect();
    for token in all_tokens(input) {
        let lexeme: String = chars[token.position.start..=token.position.end]
            .iter()
            .collect();
        match &token.kind {
            TokenKind::Newline | TokenKind::Identifier(_) | TokenKind::Number(_) => {}
            TokenKind::When => assert_eq!(lexeme, "when"),
            TokenKind::Return => assert_eq!(lexeme, "return"),
            TokenKind::LessEqual => assert_eq!(lexeme, "<="),
            TokenKind::LeftBrace => assert_eq!(lexeme, "{"),
            TokenKind::RightBrace => assert_eq!(lexeme, "}"),
            TokenKind::RangeInclusive => assert_eq!(lexeme, "..="),
            TokenKind::Semicolon => assert_eq!(lexeme, ";"),
            TokenKind::ModuloEqual => assert_eq!(lexeme, "%="),
            TokenKind::RightArrow => assert_eq!(lexeme, "->"),
            other => panic!("unexpected kind in sample: {:?}", other),
        }
    }
}

#[test]
fn test_span_invariant() {
    let input = "alpha == ..= 42 7.5\n@";
    for token in all_tokens(input) {
        assert!(token.position.end >= token.position.start);
        if token.is_single_char_token() {
            assert_eq!(token.position.end, token.position.start);
        }
    }
}

#[test]
fn test_spans_exact() {
    let tokens = all_tokens("x  == 45.67");
    assert_eq!(tokens[0].position, Span { start: 0, end: 0 });
    assert!(tokens[0].is_single_char_token());
    assert_eq!(tokens[1].position, Span { start: 3, end: 4 });
    assert_eq!(tokens[2].position, Span { start: 6, end: 10 });
}

#[test]
fn test_keyword_exactness() {
    let mut lexer = Lexer::new("forfor");
    let token = lexer.next_token().unwrap().unwrap();
    assert_eq!(token.kind, TokenKind::Identifier("forfor".to_string()));
    assert!(lexer.next_token().unwrap().is_none());
}

#[test]
fn test_longest_match_range_inclusive() {
    let mut lexer = Lexer::new("..=");
    let token = lexer.next_token().unwrap().unwrap();
    assert_eq!(token.kind, TokenKind::RangeInclusive);
    assert_eq!(token.position, Span { start: 0, end: 2 });
    assert!(lexer.next_token().unwrap().is_none());
}

#[test]
fn test_longest_match_less_equal() {
    let mut lexer = Lexer::new("<=");
    let token = lexer.next_token().unwrap().unwrap();
    assert_eq!(token.kind, TokenKind::LessEqual);
    assert!(lexer.next_token().unwrap().is_none());
}

#[test]
fn test_comment_elision() {
    let tokens = all_tokens("x // c\ny");
    let kinds: Vec<&TokenKind> = tokens.iter().map(|t| &t.kind).collect();
    assert_eq!(
        kinds,
        vec![
            &TokenKind::Identifier("x".to_string()),
            &TokenKind::Newline,
            &TokenKind::Identifier("y".to_string()),
        ]
    );
    // the newline terminating the comment sits where it lexically occurs
    assert_eq!(tokens[1].position, Span { start: 6, end: 6 });
}

#[test]
fn test_unterminated_block_comment_is_silent() {
    let mut lexer = Lexer::new("x /* never closed");
    expect_kind(&mut lexer, TokenKind::Identifier("x".to_string()));
    assert!(lexer.next_token().unwrap().is_none());
}

#[test]
fn test_error_anchoring() {
    let mut lexer = Lexer::new("123.45.67");
    assert_eq!(
        lexer.next_token(),
        Err(LexerError::InvalidNumberFormat(0))
    );
}

#[test]
fn test_unexpected_character_positions() {
    let mut lexer = Lexer::new("!");
    assert_eq!(
        lexer.next_token(),
        Err(LexerError::UnexpectedCharacter('!', 0))
    );

    let mut lexer = Lexer::new("x !");
    lexer.next_token().unwrap().unwrap();
    assert_eq!(
        lexer.next_token(),
        Err(LexerError::UnexpectedCharacter('!', 2))
    );
    // the cursor does not advance past the offending character
    assert_eq!(
        lexer.next_token(),
        Err(LexerError::UnexpectedCharacter('!', 2))
    );
}

#[test]
fn test_end_of_stream_stable() {
    let mut lexer = Lexer::new("");
    assert_eq!(lexer.next_token(), Ok(None));
    assert_eq!(lexer.next_token(), Ok(None));

    let mut lexer = Lexer::new("x");
    lexer.next_token().unwrap().unwrap();
    assert_eq!(lexer.next_token(), Ok(None));
    assert_eq!(lexer.next_token(), Ok(None));
}

#[test]
fn test_literal_values() {
    let mut lexer = Lexer::new("123");
    let token = lexer.next_token().unwrap().unwrap();
    assert_eq!(token.kind, TokenKind::Number(NumberLiteral::Integer(123)));

    let mut lexer = Lexer::new("45.67");
    let token = lexer.next_token().unwrap().unwrap();
    match token.kind {
        TokenKind::Number(NumberLiteral::Float(text)) => {
            let value: f64 = text.parse().expect("float text must parse");
            assert!((value - 45.67).abs() < 1e-9);
        }
        other => panic!("expected a float literal, got {:?}", other),
    }
}

#[test]
fn test_integer_bounds() {
    let mut lexer = Lexer::new("9223372036854775807");
    let token = lexer.next_token().unwrap().unwrap();
    assert_eq!(
        token.kind,
        TokenKind::Number(NumberLiteral::Integer(9223372036854775807))
    );

    let mut lexer = Lexer::new("9223372036854775808");
    assert_eq!(
        lexer.next_token(),
        Err(LexerError::InvalidNumberFormat(0))
    );
}

#[test]
fn test_float_forms() {
    let mut lexer = Lexer::new("123.");
    let token = lexer.next_token().unwrap().unwrap();
    assert_eq!(
        token.kind,
        TokenKind::Number(NumberLiteral::Float("123.".to_string()))
    );

    let mut lexer = Lexer::new("1..2");
    assert_eq!(
        lexer.next_token(),
        Err(LexerError::InvalidNumberFormat(0))
    );
}

#[test]
fn test_unicode_whitespace_is_skipped() {
    // U+00A0 (no-break space) has the Unicode White_Space property
    let tokens = all_tokens("a\u{00A0}b");
    let kinds: Vec<&TokenKind> = tokens.iter().map(|t| &t.kind).collect();
    assert_eq!(
        kinds,
        vec![
            &TokenKind::Identifier("a".to_string()),
            &TokenKind::Identifier("b".to_string()),
        ]
    );
    assert_eq!(tokens[1].position, Span { start: 2, end: 2 });
}

#[test]
fn test_error_is_latched() {
    let mut lexer = Lexer::new("x $");
    assert!(lexer.error().is_none());
    assert!(matches!(lexer.next(), Some(Ok(_))));
    assert!(lexer.error().is_none());
    assert_eq!(
        lexer.next(),
        Some(Err(LexerError::UnexpectedCharacter('$', 2)))
    );
    assert_eq!(lexer.error(), Some(&LexerError::UnexpectedCharacter('$', 2)));
}

#[test]
fn test_tokenize_short_circuits() {
    let result = Lexer::new("x = 1; $").tokenize();
    assert_eq!(result, Err(LexerError::UnexpectedCharacter('$', 7)));

    let tokens = Lexer::new("x = 1;").tokenize().unwrap();
    assert_eq!(tokens.len(), 4);
    assert_eq!(tokens[0].kind, TokenKind::Identifier("x".to_string()));
    assert_eq!(tokens[1].kind, TokenKind::Equal);
    assert_eq!(tokens[2].kind, TokenKind::Number(NumberLiteral::Integer(1)));
    assert_eq!(tokens[3].kind, TokenKind::Semicolon);
}

#[test]
fn test_token_new() {
    let token = Token::new(TokenKind::Scope, 5, 2);
    assert_eq!(token.kind, TokenKind::Scope);
    assert_eq!(token.position, Span { start: 5, end: 6 });
    assert!(!token.is_single_char_token());
}

fn expect_kind(lexer: &mut Lexer, expected_kind: TokenKind) {
    let token = lexer.next_token().unwrap().expect("expected a token");
    assert_eq!(token.kind, expected_kind);
}

#[test]
fn test_error_latched_by_next_token() {
    let mut lexer = Lexer::new("9.9.9");
    assert!(lexer.error().is_none());
    assert_eq!(lexer.next_token(), Err(LexerError::InvalidNumberFormat(0)));
    assert_eq!(lexer.error(), Some(&LexerError::InvalidNumberFormat(0)));

    let mut lexer = Lexer::new("!");
    assert_eq!(
        lexer.next_token(),
        Err(LexerError::UnexpectedCharacter('!', 0))
    );
    assert_eq!(lexer.error(), Some(&LexerError::UnexpectedCharacter('!', 0)));
}
