use rlox::scanner::Scanner;
use rlox::token::{Token, TokenType, TokenizationErrorType};

fn kinds(tokens: &[Token]) -> Vec<TokenType> {
    tokens.iter().map(|t| t.get_type()).collect()
}

fn lexeme(t: &Token) -> String {
    String::from_utf8(t.as_bytes().clone()).unwrap()
}

#[test]
fn scans_one_plus_two() {
    let (tokens, errs) = Scanner::new(b"1+2".to_vec()).scan();
    assert!(errs.is_empty());
    assert_eq!(
        kinds(&tokens),
        vec![TokenType::Number, TokenType::Plus, TokenType::Number, TokenType::Eof]
    );
    assert_eq!(lexeme(&tokens[0]), "1");
    assert_eq!(lexeme(&tokens[1]), "+");
    assert_eq!(lexeme(&tokens[2]), "2");
    assert_eq!(lexeme(&tokens[3]), "");
}

#[test]
fn scans_two_character_operators() {
    let (tokens, errs) = Scanner::new(b"== != <= >= < > = !".to_vec()).scan();
    assert!(errs.is_empty());
    assert_eq!(
        kinds(&tokens),
        vec![
            TokenType::EqualEqual,
            TokenType::BangEqual,
            TokenType::LessEqual,
            TokenType::GreaterEqual,
            TokenType::Less,
            TokenType::Greater,
            TokenType::Equal,
            TokenType::Bang,
            TokenType::Eof,
        ]
    );
}

#[test]
fn keywords_and_identifiers() {
    let (tokens, errs) = Scanner::new(b"var x while whilst".to_vec()).scan();
    assert!(errs.is_empty());
    assert_eq!(
        kinds(&tokens),
        vec![
            TokenType::Var,
            TokenType::Identifier,
            TokenType::While,
            TokenType::Identifier,
            TokenType::Eof,
        ]
    );
}

#[test]
fn keyword_table_matches_exactly() {
    assert_eq!(TokenType::keyword(b"and"), TokenType::And);
    assert_eq!(TokenType::keyword(b"return"), TokenType::Return);
    assert_eq!(TokenType::keyword(b"android"), TokenType::Identifier);
    assert_eq!(TokenType::keyword(b""), TokenType::Identifier);
}

#[test]
fn comments_and_whitespace_are_skipped() {
    let (tokens, errs) = Scanner::new(b"1 // ignored to line end\n+ 2".to_vec()).scan();
    assert!(errs.is_empty());
    assert_eq!(
        kinds(&tokens),
        vec![TokenType::Number, TokenType::Plus, TokenType::Number, TokenType::Eof]
    );
}

#[test]
fn string_literal_keeps_content_without_quotes() {
    let (tokens, errs) = Scanner::new(b"\"hi there\"".to_vec()).scan();
    assert!(errs.is_empty());
    assert_eq!(tokens[0].get_type(), TokenType::StringLiteral);
    assert_eq!(lexeme(&tokens[0]), "hi there");
}

#[test]
fn unterminated_string_is_reported_and_scan_goes_on() {
    let (tokens, errs) = Scanner::new(b"\"abc".to_vec()).scan();
    assert_eq!(errs.len(), 1);
    assert_eq!(errs[0].error_type, TokenizationErrorType::UnFinishedString);
    assert_eq!(tokens.last().unwrap().get_type(), TokenType::Eof);
}

#[test]
fn unrecognized_byte_is_reported_and_scan_goes_on() {
    let (tokens, errs) = Scanner::new(b"1 @ 2".to_vec()).scan();
    assert_eq!(errs.len(), 1);
    assert_eq!(errs[0].error_type, TokenizationErrorType::UnIdentifiedLetter(b'@'));
    assert_eq!(
        kinds(&tokens),
        vec![TokenType::Number, TokenType::Number, TokenType::Eof]
    );
}

#[test]
fn all_lexical_faults_come_from_one_pass() {
    let (_, errs) = Scanner::new(b"@ # $".to_vec()).scan();
    assert_eq!(errs.len(), 3);
}

#[test]
fn scan_tokens_splits_clean_and_faulty() {
    assert!(Scanner::new(b"1+2".to_vec()).scan_tokens().is_ok());
    assert!(Scanner::new(b"@".to_vec()).scan_tokens().is_err());
}

#[test]
fn positions_track_lines_and_columns() {
    let (tokens, errs) = Scanner::new(b"1\n 2".to_vec()).scan();
    assert!(errs.is_empty());
    assert_eq!(tokens[0].line(), 0);
    assert_eq!(tokens[1].line(), 1);
    assert_eq!(tokens[1].column(), 2);
}

#[test]
fn numeric_literal_accepts_one_decimal_point() {
    let (tokens, errs) = Scanner::new(b"12.5 12. 7".to_vec()).scan();
    assert!(errs.is_empty());
    assert_eq!(lexeme(&tokens[0]), "12.5");
    assert_eq!(lexeme(&tokens[1]), "12");
    assert_eq!(tokens[2].get_type(), TokenType::Dot);
}

#[test]
fn token_kind_matching_helpers() {
    let (tokens, _) = Scanner::new(b"var".to_vec()).scan();
    assert!(tokens[0].match_token(TokenType::Var));
    assert!(!tokens[0].match_token(TokenType::If));
    assert!(tokens[0].matches_token(&[TokenType::If, TokenType::Var]));
    assert!(!tokens[0].matches_token(&[TokenType::If, TokenType::While]));
    let placeholder = Token::err_token();
    assert!(placeholder.match_token(TokenType::TokenError));
}
