//! The parser on concrete token streams: shapes of the trees, the
//! all-tokens-consumed guarantee, and parse errors.

use rlox::scanner::Scanner;
use rlox::parser::Parser;
use rlox::ast::{Expr, Stmt, Value, BinaryOperator};
use rlox::errors::ErrorKind;

fn parse(src: &str) -> Vec<Stmt> {
    let tokens = Scanner::new(src).scan_tokens().unwrap();
    let mut parser = Parser::new(tokens);
    match parser.parse() {
        Ok(ss) => ss,
        Err(e) => panic!("expected a parse, got {:?}", e),
    }
}

fn parse_err(src: &str) -> ErrorKind {
    let tokens = Scanner::new(src).scan_tokens().unwrap();
    let mut parser = Parser::new(tokens);
    match parser.parse() {
        Ok(ss) => panic!("expected an error, got {:?}", ss),
        Err(e) => e,
    }
}

#[test]
fn parse_consumes_every_token() {
    let tokens = Scanner::new("var x = 1; print x;").scan_tokens().unwrap();
    let n = tokens.len();
    let mut parser = Parser::new(tokens);
    parser.parse().unwrap();
    assert_eq!(parser.current, n - 1);
}

#[test]
fn literal_expression_statement() {
    let ss = parse("1;");
    assert_eq!(ss.len(), 1);
    assert_eq!(ss[0], Stmt::Expr(Expr::Literal(Value::Number(1))));
}

#[test]
fn binary_chains_fold_left() {
    let ss = parse("1 - 2 - 3;");
    match &ss[0] {
        Stmt::Expr(Expr::Binary(outer)) => {
            assert_eq!(outer.op, BinaryOperator::Minus);
            assert_eq!(outer.right, Expr::Literal(Value::Number(3)));
            match &outer.left {
                Expr::Binary(inner) => {
                    assert_eq!(inner.left, Expr::Literal(Value::Number(1)));
                    assert_eq!(inner.right, Expr::Literal(Value::Number(2)));
                },
                other => panic!("unexpected {:?}", other),
            }
        },
        other => panic!("unexpected {:?}", other),
    }
}

#[test]
fn precedence_nests_multiplication_deeper() {
    let ss = parse("1 + 2 * 3;");
    match &ss[0] {
        Stmt::Expr(Expr::Binary(outer)) => {
            assert_eq!(outer.op, BinaryOperator::Plus);
            assert!(matches!(outer.right, Expr::Binary(_)));
        },
        other => panic!("unexpected {:?}", other),
    }
}

#[test]
fn string_literal_payload_survives_parsing() {
    let ss = parse("\"s\";");
    assert_eq!(ss[0], Stmt::Expr(Expr::Literal(Value::String("s".to_string()))));
}

#[test]
fn var_without_initializer_defaults_to_nil() {
    let ss = parse("var x;");
    match &ss[0] {
        Stmt::Decl(id, init) => {
            assert_eq!(id.name.lexeme, "x");
            assert_eq!(*init, Expr::Literal(Value::Nil));
        },
        other => panic!("unexpected {:?}", other),
    }
}

#[test]
fn for_desugars_to_while() {
    let ss = parse("for (var i = 0; i < 3; i = i + 1) print i;");
    match &ss[0] {
        Stmt::Block(parts) => {
            assert_eq!(parts.len(), 2);
            assert!(matches!(parts[0], Stmt::Decl(_, _)));
            assert!(matches!(parts[1], Stmt::While(_, _)));
        },
        other => panic!("unexpected {:?}", other),
    }
}

#[test]
fn for_without_clauses_defaults_condition_true() {
    let ss = parse("for (;;) {}");
    match &ss[0] {
        Stmt::While(cond, _) => {
            assert_eq!(*cond, Expr::Literal(Value::Bool(true)));
        },
        other => panic!("unexpected {:?}", other),
    }
}

#[test]
fn bare_return_yields_nil() {
    let ss = parse("fun f() { return; }");
    match &ss[0] {
        Stmt::Func(_, _, body) => match &**body {
            Stmt::Block(inner) => {
                assert_eq!(inner[0], Stmt::Return(Expr::Literal(Value::Nil)));
            },
            other => panic!("unexpected {:?}", other),
        },
        other => panic!("unexpected {:?}", other),
    }
}

#[test]
fn trailing_semicolon_optional_at_eof() {
    let ss = parse("1 + 1");
    assert_eq!(ss.len(), 1);
}

#[test]
fn call_chains_nest_left() {
    let ss = parse("f(1)(2);");
    match &ss[0] {
        Stmt::Expr(Expr::Call(callee, args)) => {
            assert_eq!(args.len(), 1);
            assert!(matches!(**callee, Expr::Call(_, _)));
        },
        other => panic!("unexpected {:?}", other),
    }
}

#[test]
fn invalid_assignment_target_is_an_error() {
    match parse_err("1 = 2;") {
        ErrorKind::ParseError { tok, t } => {
            assert_eq!(tok.lexeme, "=");
            assert_eq!(t, "Invalid assignment target: 1");
        },
        other => panic!("unexpected {:?}", other),
    }
}

#[test]
fn missing_expression_is_an_error() {
    match parse_err("print ;") {
        ErrorKind::ParseError { t, .. } => {
            assert_eq!(t, "Expect expression");
        },
        other => panic!("unexpected {:?}", other),
    }
}

#[test]
fn missing_paren_is_an_error() {
    match parse_err("while (true print 1;") {
        ErrorKind::ParseError { t, .. } => {
            assert_eq!(t, "Expect ')' after while condition.");
        },
        other => panic!("unexpected {:?}", other),
    }
}

#[test]
fn reserved_class_keyword_is_an_error() {
    assert!(matches!(parse_err("class C {}"), ErrorKind::ParseError { .. }));
}
