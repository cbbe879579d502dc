//! Values, truthiness, structural equality, display forms, and the
//! environment arena.

use rlox::ast::{Value, value_eq, value_dup};
use rlox::render::{display_value, print_text, num_to_string};
use rlox::interpreter::Environment;
use rlox::errors::ErrorKind;

#[test]
fn truthiness_two_falsy_values() {
    assert!(!Value::Nil.is_truthy());
    assert!(!Value::Bool(false).is_truthy());
    assert!(Value::Bool(true).is_truthy());
    assert!(Value::Number(0).is_truthy());
    assert!(Value::String(String::new()).is_truthy());
}

#[test]
fn value_equality_is_structural() {
    assert!(value_eq(&Value::Number(3), &Value::Number(3)));
    assert!(!value_eq(&Value::Number(3), &Value::Number(4)));
    assert!(value_eq(
        &Value::String("a".to_string()),
        &Value::String("a".to_string())
    ));
    assert!(!value_eq(&Value::String("1".to_string()), &Value::Number(1)));
    assert!(value_eq(&Value::Nil, &Value::Nil));
    assert!(!value_eq(&Value::Nil, &Value::Bool(false)));
}

#[test]
fn duplicates_compare_equal() {
    let v = Value::String("abc".to_string());
    let w = value_dup(&v);
    assert!(value_eq(&v, &w));
    assert_eq!(v, w);
}

#[test]
fn display_forms() {
    assert_eq!(display_value(&Value::Nil), "nil");
    assert_eq!(display_value(&Value::Bool(true)), "true");
    assert_eq!(display_value(&Value::Number(-42)), "-42");
    assert_eq!(display_value(&Value::String("s".to_string())), "\"s\"");
}

#[test]
fn print_strips_quotes_only_from_strings() {
    assert_eq!(print_text(&Value::String("s".to_string())), "s");
    assert_eq!(print_text(&Value::Number(7)), "7");
    assert_eq!(print_text(&Value::Nil), "nil");
}

#[test]
fn number_rendering_covers_extremes() {
    assert_eq!(num_to_string(0), "0");
    assert_eq!(num_to_string(10), "10");
    assert_eq!(num_to_string(i64::MAX), i64::MAX.to_string());
    assert_eq!(num_to_string(i64::MIN), i64::MIN.to_string());
}

#[test]
fn environment_lookup_walks_parents() {
    let mut env = Environment::new();
    env.insert(0, "a", Value::Number(1));
    let child = env.wrap(0);
    assert_eq!(env.get(child, "a"), Some(Value::Number(1)));
    assert_eq!(env.get(child, "b"), None);
}

#[test]
fn environment_insert_shadows_locally() {
    let mut env = Environment::new();
    env.insert(0, "a", Value::Number(1));
    let child = env.wrap(0);
    env.insert(child, "a", Value::Number(2));
    assert_eq!(env.get(child, "a"), Some(Value::Number(2)));
    assert_eq!(env.get(0, "a"), Some(Value::Number(1)));
}

#[test]
fn environment_update_mutates_nearest_ancestor() {
    let mut env = Environment::new();
    env.insert(0, "a", Value::Number(1));
    let child = env.wrap(0);
    assert!(env.update(child, "a", Value::Number(5)));
    assert_eq!(env.get(0, "a"), Some(Value::Number(5)));
    assert!(!env.update(child, "missing", Value::Nil));
}

#[test]
fn environment_redeclaration_overrides() {
    let mut env = Environment::new();
    env.insert(0, "a", Value::Number(1));
    env.insert(0, "a", Value::Number(2));
    assert_eq!(env.get(0, "a"), Some(Value::Number(2)));
}

#[test]
fn expression_rendering_is_prefix_form() {
    let tokens = rlox::scanner::Scanner::new("1 + 2 * 3;").scan_tokens().unwrap();
    let mut parser = rlox::parser::Parser::new(tokens);
    let ss = parser.parse().unwrap();
    match &ss[0] {
        rlox::ast::Stmt::Expr(e) => {
            assert_eq!(rlox::render::render_expr(e), "(+ 1 (* 2 3))");
        },
        other => panic!("unexpected {:?}", other),
    }
}

#[test]
fn rendered_string_literal_restores_quotes() {
    let e = rlox::ast::Expr::Literal(Value::String("s".to_string()));
    assert_eq!(rlox::render::render_expr(&e), "\"s\"");
}

#[test]
fn error_reports_are_single_lines() {
    let e = ErrorKind::EvaluateError("boom".to_string());
    assert_eq!(e.render(), "Error: boom");
    let s = ErrorKind::ScanError(3, "Unterminated string.".to_string());
    assert_eq!(s.render(), "Error at line 3: Unterminated string.");
    let t = rlox::scanner::Token::new(rlox::scanner::TokenType::Equal, "=", 2);
    let p = ErrorKind::ParseError { tok: t, t: "Expect expression".to_string() };
    assert_eq!(p.render(), "Error at line 2 at '=': Expect expression");
}
