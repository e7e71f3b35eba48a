use rlox::parser::{Parser, ParserErrorType};
use rlox::scanner::Scanner;
use rlox::token::Token;

fn tokens_of(src: &str) -> Vec<Token> {
    let (tokens, errs) = Scanner::new(src.as_bytes().to_vec()).scan();
    assert!(errs.is_empty(), "scan should be clean");
    tokens
}

fn parse_kinds(src: &str) -> Vec<ParserErrorType> {
    let mut parser = Parser::new(tokens_of(src));
    match parser.parse() {
        Ok(_) => Vec::new(),
        Err(e) => e.items.iter().map(|pe| pe.error_type).collect(),
    }
}

#[test]
fn missing_semicolon_is_exactly_one_diagnostic() {
    let kinds = parse_kinds("var x = 1");
    assert_eq!(kinds, vec![ParserErrorType::MissingSemicolon]);
}

#[test]
fn parsing_recovers_and_finds_further_independent_faults() {
    let kinds = parse_kinds("var x = 1 var y = 2");
    assert_eq!(
        kinds,
        vec![ParserErrorType::MissingSemicolon, ParserErrorType::MissingSemicolon]
    );
}

#[test]
fn invalid_assignment_target_is_a_diagnostic_not_a_crash() {
    let kinds = parse_kinds("1 = 2;");
    assert!(kinds.contains(&ParserErrorType::InvalidAssignment));
}

#[test]
fn missing_closing_parenthesis() {
    let kinds = parse_kinds("print(1;");
    assert!(kinds.contains(&ParserErrorType::MissingRightParen));
}

#[test]
fn missing_value_where_an_expression_must_stand() {
    let kinds = parse_kinds("1 + ;");
    assert!(kinds.contains(&ParserErrorType::MissingValue));
}

#[test]
fn missing_brace_and_identifier_in_function() {
    assert!(parse_kinds("fun (a) { return a; }").contains(&ParserErrorType::MissingIdentifier));
    assert!(parse_kinds("{ var x = 1;").contains(&ParserErrorType::MissingRightBrace));
    assert!(parse_kinds("if 1 < 2 print(1);").contains(&ParserErrorType::MissingLeftParen));
}

#[test]
fn clean_programs_parse_without_diagnostics() {
    for src in [
        "var x = 1;",
        "fun f(a, b) { return a + b; }",
        "if (1 < 2) { print(1); } else { print(2); }",
        "while (false) { 1 + 1; }",
        "for (var i = 0; i < 3; i = i + 1) { print(i); }",
        "x = y = 3;",
        "f()()();",
        "!(-1 + 2 * 3 < 4 == true or false and nil);",
    ] {
        assert_eq!(parse_kinds(src), Vec::new(), "source: {src}");
    }
}

#[test]
fn deep_nesting_stays_within_the_parser_budget() {
    let mut src = String::new();
    for _ in 0..40 {
        src.push('(');
    }
    src.push('1');
    for _ in 0..40 {
        src.push(')');
    }
    src.push(';');
    assert_eq!(parse_kinds(&src), Vec::new());
}

#[test]
fn error_position_carries_the_offending_token() {
    let mut parser = Parser::new(tokens_of("var x = 1"));
    let errs = parser.parse().unwrap_err();
    assert_eq!(errs.len(), 1);
    let pe = &errs.items[0];
    assert_eq!(pe.error_type, ParserErrorType::MissingSemicolon);
    // The parse stops at the end-of-file token.
    assert_eq!(pe.pos.get_type(), rlox::token::TokenType::Eof);
}
