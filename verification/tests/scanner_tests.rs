//! The scanner on concrete sources: token streams, payloads, lines,
//! and the two scan errors.

use rlox::scanner::{Scanner, Token, TokenType};
use rlox::errors::ErrorKind;

fn scan(src: &str) -> Vec<Token> {
    match Scanner::new(src).scan_tokens() {
        Ok(ts) => ts,
        Err(e) => panic!("expected tokens, got {:?}", e),
    }
}

fn scan_err(src: &str) -> ErrorKind {
    match Scanner::new(src).scan_tokens() {
        Ok(ts) => panic!("expected an error, got {:?}", ts),
        Err(e) => e,
    }
}

fn types(ts: &[Token]) -> Vec<TokenType> {
    ts.iter()
        .map(|t| match &t.ty {
            TokenType::String(s) => TokenType::String(s.clone()),
            TokenType::Number(n) => TokenType::Number(*n),
            other => rlox::scanner::tt_dup(other),
        })
        .collect()
}

#[test]
fn ends_with_exactly_one_eof() {
    let ts = scan("var x = 1;");
    assert!(matches!(ts.last().unwrap().ty, TokenType::Eof));
    let eofs = ts.iter().filter(|t| matches!(t.ty, TokenType::Eof)).count();
    assert_eq!(eofs, 1);
    let empty = scan("");
    assert_eq!(empty.len(), 1);
    assert!(matches!(empty[0].ty, TokenType::Eof));
}

#[test]
fn keywords_and_identifiers() {
    let ts = scan("var while whilex _x1");
    assert_eq!(
        types(&ts),
        vec![
            TokenType::Var,
            TokenType::While,
            TokenType::Identifier,
            TokenType::Identifier,
            TokenType::Eof,
        ]
    );
    assert_eq!(ts[2].lexeme, "whilex");
    assert_eq!(ts[3].lexeme, "_x1");
}

#[test]
fn one_and_two_character_operators() {
    let ts = scan("! != = == < <= > >= / *");
    assert_eq!(
        types(&ts),
        vec![
            TokenType::Bang,
            TokenType::BangEqual,
            TokenType::Equal,
            TokenType::EqualEqual,
            TokenType::Less,
            TokenType::LessEqual,
            TokenType::Greater,
            TokenType::GreaterEqual,
            TokenType::Slash,
            TokenType::Star,
            TokenType::Eof,
        ]
    );
}

#[test]
fn comments_run_to_end_of_line() {
    let ts = scan("1 // two three\n2");
    assert_eq!(
        types(&ts),
        vec![TokenType::Number(1), TokenType::Number(2), TokenType::Eof]
    );
    assert_eq!(ts[1].line, 2);
}

#[test]
fn string_payload_drops_quotes_lexeme_keeps_them() {
    let ts = scan("\"abc\"");
    assert_eq!(ts[0].ty, TokenType::String("abc".to_string()));
    assert_eq!(ts[0].lexeme, "\"abc\"");
}

#[test]
fn strings_may_span_lines() {
    let ts = scan("\"a\nb\" x");
    assert_eq!(ts[0].ty, TokenType::String("a\nb".to_string()));
    assert_eq!(ts[0].line, 2);
    assert_eq!(ts[1].line, 2);
}

#[test]
fn unterminated_string_is_fatal() {
    match scan_err("\"abc") {
        ErrorKind::ScanError(line, m) => {
            assert_eq!(line, 1);
            assert_eq!(m, "Unterminated string.");
        },
        other => panic!("unexpected {:?}", other),
    }
}

#[test]
fn unexpected_character_is_fatal() {
    match scan_err("@") {
        ErrorKind::ScanError(line, m) => {
            assert_eq!(line, 1);
            assert_eq!(m, "Unexpected character: @");
        },
        other => panic!("unexpected {:?}", other),
    }
}

#[test]
fn numbers_with_and_without_fraction() {
    let ts = scan("12 12.5 12.x");
    assert_eq!(ts[0].ty, TokenType::Number(12));
    assert_eq!(ts[0].lexeme, "12");
    // fractional digits are scanned per the grammar; the value is the
    // integer part, the lexeme the whole literal
    assert_eq!(ts[1].ty, TokenType::Number(12));
    assert_eq!(ts[1].lexeme, "12.5");
    // a dot not followed by a digit ends the number
    assert_eq!(ts[2].ty, TokenType::Number(12));
    assert_eq!(ts[2].lexeme, "12");
    assert_eq!(types(&ts)[3..], [TokenType::Dot, TokenType::Identifier, TokenType::Eof]);
}

#[test]
fn huge_numbers_saturate() {
    let ts = scan("99999999999999999999");
    assert_eq!(ts[0].ty, TokenType::Number(i64::MAX));
}

#[test]
fn line_numbers_increment_on_newlines() {
    let ts = scan("a\nb\n\nc");
    assert_eq!(ts[0].line, 1);
    assert_eq!(ts[1].line, 2);
    assert_eq!(ts[2].line, 4);
}

#[test]
fn character_helpers() {
    assert!(rlox::scanner::is_digit('7'));
    assert!(!rlox::scanner::is_digit('a'));
    assert!(rlox::scanner::is_alpha('_'));
    assert!(rlox::scanner::is_alpha('Z'));
    assert!(!rlox::scanner::is_alpha('1'));
    assert!(rlox::scanner::is_alpha_numeric('1'));
    assert!(rlox::scanner::is_alpha_numeric('z'));
    assert!(!rlox::scanner::is_alpha_numeric(' '));
}

#[test]
fn token_new_records_fields() {
    let t = Token::new(TokenType::Plus, "+", 3);
    assert_eq!(t.ty, TokenType::Plus);
    assert_eq!(t.lexeme, "+");
    assert_eq!(t.line, 3);
}
