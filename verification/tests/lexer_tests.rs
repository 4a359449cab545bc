use cv_front::lexer::{Lexer, LexerError};
use cv_front::tokens::{NumberLiteral, Token, TokenKind};

fn expect_token(lexer: &mut Lexer, expected_kind: TokenKind) {
    match lexer.next_token() {
        Ok(token) => {
            let token = token.expect("Expected a token but got None");
            assert_eq!(token.kind, expected_kind);
        }
        Err(e) => panic!("Lexer error: {:?}", e),
    }
}

fn expect_eof(lexer: &mut Lexer) {
    match lexer.next_token() {
        Ok(token) => {
            assert!(token.is_none(), "Expected EOF but got a token");
        }
        Err(e) => panic!("Lexer error: {:?}", e),
    }
}

#[test]
fn test_keywords() {
    let input = "break else end false fn for if in loop patch record return true union when";
    let mut lexer = Lexer::new(input);

    expect_token(&mut lexer, TokenKind::Break);
    expect_token(&mut lexer, TokenKind::Else);
    expect_token(&mut lexer, TokenKind::End);
    expect_token(&mut lexer, TokenKind::False);
    expect_token(&mut lexer, TokenKind::Fun);
    expect_token(&mut lexer, TokenKind::For);
    expect_token(&mut lexer, TokenKind::If);
    expect_token(&mut lexer, TokenKind::In);
    expect_token(&mut lexer, TokenKind::Loop);
    expect_token(&mut lexer, TokenKind::Patch);
    expect_token(&mut lexer, TokenKind::Record);
    expect_token(&mut lexer, TokenKind::Return);
    expect_token(&mut lexer, TokenKind::True);
    expect_token(&mut lexer, TokenKind::Union);
    expect_token(&mut lexer, TokenKind::When);

    expect_eof(&mut lexer);
}

#[test]
fn test_syntax_tokens() {
    let input = ": :: ; -> . .. ..= , & * | { } [ ] ( ) < > ' \" \n";
    let mut lexer = Lexer::new(input);

    expect_token(&mut lexer, TokenKind::Colon);
    expect_token(&mut lexer, TokenKind::Scope);
    expect_token(&mut lexer, TokenKind::Semicolon);
    expect_token(&mut lexer, TokenKind::RightArrow);
    expect_token(&mut lexer, TokenKind::Dot);
    expect_token(&mut lexer, TokenKind::Range);
    expect_token(&mut lexer, TokenKind::RangeInclusive);
    expect_token(&mut lexer, TokenKind::Comma);
    expect_token(&mut lexer, TokenKind::Ampersand);
    expect_token(&mut lexer, TokenKind::Star);
    expect_token(&mut lexer, TokenKind::Pipe);
    expect_token(&mut lexer, TokenKind::LeftBrace);
    expect_token(&mut lexer, TokenKind::RightBrace);
    expect_token(&mut lexer, TokenKind::LeftBracket);
    expect_token(&mut lexer, TokenKind::RightBracket);
    expect_token(&mut lexer, TokenKind::LeftParen);
    expect_token(&mut lexer, TokenKind::RightParen);
    expect_token(&mut lexer, TokenKind::LessThan);
    expect_token(&mut lexer, TokenKind::GreaterThan);
    expect_token(&mut lexer, TokenKind::SingleQuote);
    expect_token(&mut lexer, TokenKind::DoubleQuote);
    expect_token(&mut lexer, TokenKind::Newline);

    expect_eof(&mut lexer);
}

#[test]
fn test_operators() {
    let input = "and or not + - / % = == != <= >= += -= *= /= %=";
    let mut lexer = Lexer::new(input);

    expect_token(&mut lexer, TokenKind::And);
    expect_token(&mut lexer, TokenKind::Or);
    expect_token(&mut lexer, TokenKind::Not);
    expect_token(&mut lexer, TokenKind::Plus);
    expect_token(&mut lexer, TokenKind::Minus);
    expect_token(&mut lexer, TokenKind::Divide);
    expect_token(&mut lexer, TokenKind::Modulo);
    expect_token(&mut lexer, TokenKind::Equal);
    expect_token(&mut lexer, TokenKind::DoubleEqual);
    expect_token(&mut lexer, TokenKind::NotEqual);
    expect_token(&mut lexer, TokenKind::LessEqual);
    expect_token(&mut lexer, TokenKind::GreaterEqual);
    expect_token(&mut lexer, TokenKind::PlusEqual);
    expect_token(&mut lexer, TokenKind::MinusEqual);
    expect_token(&mut lexer, TokenKind::TimesEqual);
    expect_token(&mut lexer, TokenKind::DivideEqual);
    expect_token(&mut lexer, TokenKind::ModuloEqual);

    assert!(lexer.next_token().unwrap().is_none());
}

#[test]
fn test_identifiers_and_numbers() {
    let input = "var1 _var2 123 45.67 0.589";
    let mut lexer = Lexer::new(input);

    expect_token(&mut lexer, TokenKind::Identifier("var1".to_string()));
    expect_token(&mut lexer, TokenKind::Identifier("_var2".to_string()));
    expect_token(&mut lexer, TokenKind::Number(NumberLiteral::Integer(123)));
    expect_token(
        &mut lexer,
        TokenKind::Number(NumberLiteral::Float("45.67".to_string())),
    );
    expect_token(
        &mut lexer,
        TokenKind::Number(NumberLiteral::Float("0.589".to_string())),
    );

    expect_eof(&mut lexer);
}

#[test]
fn test_comments() {
    let input = "x // single line comment\ny /* block comment \n\n\n */ z";
    let mut lexer = Lexer::new(input);

    expect_token(&mut lexer, TokenKind::Identifier("x".to_string()));
    expect_token(&mut lexer, TokenKind::Newline);
    expect_token(&mut lexer, TokenKind::Identifier("y".to_string()));
    expect_token(&mut lexer, TokenKind::Identifier("z".to_string()));

    expect_eof(&mut lexer);
}

fn expect_unexpected_character(input: &str, char: char, position: usize) {
    let mut lexer = Lexer::new(input);

    loop {
        match lexer.next_token() {
            Ok(Some(_)) => continue,
            Ok(None) => panic!("Expected an error but got EOF"),
            Err(e) => {
                assert_eq!(e, LexerError::UnexpectedCharacter(char, position));
                return;
            }
        }
    }
}

#[test]
fn test_unexpected_character_after_identifier() {
    expect_unexpected_character("x !", '!', 2);
}

#[test]
fn test_unexpected_character_after_identifier_with_dollar() {
    expect_unexpected_character("x $", '$', 2);
}

#[test]
fn test_unexpected_character_at_start() {
    expect_unexpected_character("!", '!', 0);
}

#[test]
fn test_unexpected_character_at_start_with_dollar() {
    expect_unexpected_character("$", '$', 0);
}

#[test]
fn test_invalid_number_format() {
    let input = "123.45.67";
    let mut lexer = Lexer::new(input);

    match lexer.next_token() {
        Ok(Some(_)) => panic!("Expected an error but got a token"),
        Ok(None) => panic!("Expected an error but got EOF"),
        Err(e) => {
            assert_eq!(e, LexerError::InvalidNumberFormat(0));
        }
    }
}

#[test]
fn test_cv_code_sample() {
    let code = r#"
        fn add(i32 a, i32 b) -> i32 {
            a + b
        }
        "#;
    let mut lexer = Lexer::new(code);

    expect_token(&mut lexer, TokenKind::Newline);
    expect_token(&mut lexer, TokenKind::Fun);
    expect_token(&mut lexer, TokenKind::Identifier("add".to_string()));
    expect_token(&mut lexer, TokenKind::LeftParen);
    expect_token(&mut lexer, TokenKind::Identifier("i32".to_string()));
    expect_token(&mut lexer, TokenKind::Identifier("a".to_string()));
    expect_token(&mut lexer, TokenKind::Comma);
    expect_token(&mut lexer, TokenKind::Identifier("i32".to_string()));
    expect_token(&mut lexer, TokenKind::Identifier("b".to_string()));
    expect_token(&mut lexer, TokenKind::RightParen);
    expect_token(&mut lexer, TokenKind::RightArrow);
    expect_token(&mut lexer, TokenKind::Identifier("i32".to_string()));
    expect_token(&mut lexer, TokenKind::LeftBrace);
    expect_token(&mut lexer, TokenKind::Newline);
    expect_token(&mut lexer, TokenKind::Identifier("a".to_string()));
    expect_token(&mut lexer, TokenKind::Plus);
    expect_token(&mut lexer, TokenKind::Identifier("b".to_string()));
    expect_token(&mut lexer, TokenKind::Newline);
    expect_token(&mut lexer, TokenKind::RightBrace);
    expect_token(&mut lexer, TokenKind::Newline);
    expect_eof(&mut lexer);
}

#[test]
fn test_variable_declaration() {
    let code = "variable = 22;";
    let mut lexer = Lexer::new(code);

    expect_token(&mut lexer, TokenKind::Identifier("variable".to_string()));
    expect_token(&mut lexer, TokenKind::Equal);
    expect_token(&mut lexer, TokenKind::Number(NumberLiteral::Integer(22)));
    expect_token(&mut lexer, TokenKind::Semicolon);
    expect_eof(&mut lexer);
}

#[test]
fn test_iterator_trait() {
    let code = "x = 10 + 20;";
    let mut lexer = Lexer::new(code);
    let mut tokens: Vec<Token> = Vec::new();
    loop {
        match lexer.next() {
            Some(res) => tokens.push(res.expect("Lexer error")),
            None => break,
        }
    }

    let expected_kinds = vec![
        TokenKind::Identifier("x".to_string()),
        TokenKind::Equal,
        TokenKind::Number(NumberLiteral::Integer(10)),
        TokenKind::Plus,
        TokenKind::Number(NumberLiteral::Integer(20)),
        TokenKind::Semicolon,
    ];

    for (token, expected_kind) in tokens.iter().zip(expected_kinds.iter()) {
        assert_eq!(&token.kind, expected_kind);
    }
}
