use shpiller::parser::{NodeExit, ParseError, Parser};
use shpiller::tokenizer::Tokenizer;

fn parse(src: &str) -> Result<NodeExit, ParseError> {
    let tokens = Tokenizer::new(src.to_string()).tokenize();
    Parser::new(tokens).parse()
}

fn status(src: &str) -> i64 {
    parse(src).unwrap().expr.int_value
}

#[test]
fn parse_exit_literal() {
    assert_eq!(status("exit(5);"), 5);
}

#[test]
fn parse_exit_negative_literal() {
    assert_eq!(status("exit(-1);"), -1);
}

#[test]
fn parse_binding_then_exit() {
    assert_eq!(status("let x = 5; exit(x);"), 5);
}

#[test]
fn parse_rebinding_last_write_wins() {
    assert_eq!(status("let x = 1; let x = 2; exit(x);"), 2);
}

#[test]
fn parse_several_bindings() {
    assert_eq!(status("let a = 1; let b = 2; exit(b);"), 2);
}

#[test]
fn parse_no_exit_defaults_to_zero() {
    assert_eq!(status("let x = 5;"), 0);
    assert_eq!(status(""), 0);
}

#[test]
fn parse_last_exit_wins() {
    assert_eq!(status("exit(1); exit(2);"), 2);
}

#[test]
fn parse_unrecognized_tokens_are_skipped() {
    assert_eq!(status("foo; exit(3);"), 3);
    assert_eq!(status("= ; ) exit(4);"), 4);
}

#[test]
fn parse_undefined_identifier() {
    assert_eq!(
        parse("exit(y);"),
        Err(ParseError::UndefinedVariable("y".to_string()))
    );
}

#[test]
fn parse_binding_after_reference_does_not_count() {
    assert_eq!(
        parse("exit(x); let x = 1;"),
        Err(ParseError::UndefinedVariable("x".to_string()))
    );
}

#[test]
fn parse_overflowing_literal_reports_undefined_identifier() {
    assert_eq!(
        parse("exit(9223372036854775808);"),
        Err(ParseError::UndefinedVariable(
            "9223372036854775808".to_string()
        ))
    );
}

#[test]
fn parse_exit_without_parentheses() {
    assert_eq!(parse("exit 5;"), Err(ParseError::ExpectedOpenParen));
    assert_eq!(parse("exit"), Err(ParseError::ExpectedOpenParen));
}

#[test]
fn parse_exit_without_close_parenthesis() {
    assert_eq!(parse("exit(5;"), Err(ParseError::ExpectedCloseParen));
    assert_eq!(parse("exit(5"), Err(ParseError::ExpectedCloseParen));
    assert_eq!(parse("exit("), Err(ParseError::ExpectedCloseParen));
}

#[test]
fn parse_exit_without_operand() {
    assert_eq!(parse("exit();"), Err(ParseError::InvalidExpression));
}

#[test]
fn parse_binding_without_identifier() {
    assert_eq!(parse("let = 5;"), Err(ParseError::ExpectedIdentifier));
    assert_eq!(parse("let"), Err(ParseError::ExpectedIdentifier));
}

#[test]
fn parse_binding_without_equals() {
    assert_eq!(parse("let x 5;"), Err(ParseError::ExpectedEquals));
}

#[test]
fn parse_binding_without_literal() {
    assert_eq!(parse("let x = y;"), Err(ParseError::ExpectedIntLiteral));
    assert_eq!(parse("let x ="), Err(ParseError::ExpectedIntLiteral));
}

#[test]
fn parse_error_messages_name_the_expectation() {
    assert_eq!(
        ParseError::UndefinedVariable("y".to_string()).message(),
        "Undefined variable: y"
    );
    assert_eq!(
        ParseError::ExpectedOpenParen.message(),
        "Expected an open parenthesis after 'exit'."
    );
}

#[test]
fn parse_binding_resolves_at_parse_time() {
    let node = parse("let answer = 42; exit(answer);").unwrap();
    assert_eq!(node.expr.int_value, 42);
}

#[test]
fn parse_spaces_inside_parentheses() {
    assert_eq!(status("exit( 5 );"), 5);
    assert_eq!(status("let x = 3; exit( x );"), 3);
}

#[test]
fn parse_identifier_with_surrounding_tabs() {
    assert_eq!(status("let \tx\t = 9; exit(\tx\t);"), 9);
}

#[test]
fn parse_identifier_with_surrounding_unicode_whitespace() {
    assert_eq!(status("let x = 4; exit(\u{a0}x\u{a0});"), 4);
}
