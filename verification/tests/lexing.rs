use shpiller::tokenizer::{Token, Tokenizer};

fn lex(src: &str) -> Vec<Token> {
    Tokenizer::new(src.to_string()).tokenize()
}

#[test]
fn lex_exit_statement() {
    assert_eq!(
        lex("exit(5);"),
        vec![
            Token::Exit,
            Token::OpenParen,
            Token::IntLiteral(5),
            Token::CloseParen,
            Token::Semicolon,
        ]
    );
}

#[test]
fn lex_binding() {
    assert_eq!(
        lex("let x = 5;"),
        vec![
            Token::Let,
            Token::Identifier("x".to_string()),
            Token::Equals,
            Token::IntLiteral(5),
            Token::Semicolon,
        ]
    );
}

#[test]
fn lex_empty_input() {
    assert_eq!(lex(""), Vec::new());
}

#[test]
fn lex_end_of_input_flushes() {
    assert_eq!(lex("exit"), vec![Token::Exit]);
    assert_eq!(lex("42"), vec![Token::IntLiteral(42)]);
}

#[test]
fn lex_signed_literals() {
    assert_eq!(lex("-42"), vec![Token::IntLiteral(-42)]);
    assert_eq!(lex("+7"), vec![Token::IntLiteral(7)]);
}

#[test]
fn lex_extreme_literals() {
    assert_eq!(
        lex("9223372036854775807"),
        vec![Token::IntLiteral(i64::MAX)]
    );
    assert_eq!(
        lex("-9223372036854775808"),
        vec![Token::IntLiteral(i64::MIN)]
    );
}

#[test]
fn lex_overflowing_literal_degrades_to_identifier() {
    assert_eq!(
        lex("9223372036854775808"),
        vec![Token::Identifier("9223372036854775808".to_string())]
    );
    assert_eq!(
        lex("-9223372036854775809"),
        vec![Token::Identifier("-9223372036854775809".to_string())]
    );
}

#[test]
fn lex_identifier_is_trimmed() {
    assert_eq!(lex("\tx"), vec![Token::Identifier("x".to_string())]);
    assert_eq!(lex("a\rb\t"), vec![Token::Identifier("a\rb".to_string())]);
}

#[test]
fn lex_whitespace_emits_nothing() {
    assert_eq!(lex("  \n \n  "), Vec::new());
}

#[test]
fn lex_punctuation_tokens() {
    assert_eq!(
        lex(";()="),
        vec![
            Token::Semicolon,
            Token::OpenParen,
            Token::CloseParen,
            Token::Equals,
        ]
    );
}

#[test]
fn lex_keyword_must_stand_alone() {
    assert_eq!(lex("exits"), vec![Token::Identifier("exits".to_string())]);
    assert_eq!(lex("lets"), vec![Token::Identifier("lets".to_string())]);
}

#[test]
fn lex_literal_with_inner_sign_is_identifier() {
    assert_eq!(lex("1-2"), vec![Token::Identifier("1-2".to_string())]);
}
