//! End-to-end runs: source text in, printed lines and results out.

use rlox::interpreter::Interpreter;
use rlox::errors::ErrorKind;
use rlox::ast::Value;

fn run_ok(code: &str) -> (Value, Vec<String>) {
    let mut interp = Interpreter::new();
    let mut out: Vec<String> = Vec::new();
    let r = interp.run(code, &mut out);
    match r {
        Ok(v) => (v, out),
        Err(e) => panic!("expected success, got {:?}", e),
    }
}

fn run_err(code: &str) -> ErrorKind {
    let mut interp = Interpreter::new();
    let mut out: Vec<String> = Vec::new();
    match interp.run(code, &mut out) {
        Ok(v) => panic!("expected an error, got {:?}", v),
        Err(e) => e,
    }
}

fn eval_msg(e: ErrorKind) -> String {
    match e {
        ErrorKind::EvaluateError(m) => m,
        other => panic!("expected an evaluation error, got {:?}", other),
    }
}

#[test]
fn precedence_arithmetic() {
    let (_, out) = run_ok("print 1 + 2 * 3;");
    assert_eq!(out, vec!["7".to_string()]);
}

#[test]
fn string_concatenation() {
    let (_, out) = run_ok("var a = \"hi\"; print a + \" there\";");
    assert_eq!(out, vec!["hi there".to_string()]);
}

#[test]
fn block_shadowing() {
    let (_, out) = run_ok("var x = 1; { var x = 2; print x; } print x;");
    assert_eq!(out, vec!["2".to_string(), "1".to_string()]);
}

#[test]
fn closure_counter() {
    let code = "\
fun mkCounter() {
  var n = 0;
  fun inc() { n = n + 1; return n; }
  return inc;
}
var c = mkCounter(); print c(); print c(); print c();
";
    let (_, out) = run_ok(code);
    assert_eq!(out, vec!["1".to_string(), "2".to_string(), "3".to_string()]);
}

#[test]
fn fibonacci() {
    let code = "fun fib(n) { if (n < 2) return n; return fib(n-1) + fib(n-2); } print fib(10);";
    let (_, out) = run_ok(code);
    assert_eq!(out, vec!["55".to_string()]);
}

#[test]
fn for_loop_desugaring() {
    let (_, out) = run_ok("var s = 0; for (var i = 1; i <= 3; i = i + 1) s = s + i; print s;");
    assert_eq!(out, vec!["6".to_string()]);
}

#[test]
fn number_plus_string_concatenates() {
    let (_, out) = run_ok("print 1 + \"a\";");
    assert_eq!(out, vec!["1a".to_string()]);
}

#[test]
fn string_plus_number_concatenates() {
    let (_, out) = run_ok("print \"a\" + 1;");
    assert_eq!(out, vec!["a1".to_string()]);
}

#[test]
fn negating_a_string_fails() {
    let m = eval_msg(run_err("print -\"a\";"));
    assert_eq!(m, "Can't negate \"a\"");
}

#[test]
fn assignment_without_declaration_fails() {
    let m = eval_msg(run_err("x = 1;"));
    assert_eq!(m, "Undefined variable: x");
}

#[test]
fn wrong_argument_count_fails() {
    let m = eval_msg(run_err("fun f(a,b){} f(1);"));
    assert_eq!(m, "Wrong number of arguments: Expected 2, got 1");
}

#[test]
fn top_level_return_is_reported() {
    let m = eval_msg(run_err("return 1;"));
    assert_eq!(m, "Return outside a function");
}

#[test]
fn return_inside_function_is_fine() {
    let (_, out) = run_ok("fun f() { return 5; } print f();");
    assert_eq!(out, vec!["5".to_string()]);
}

#[test]
fn last_value_is_returned() {
    let (v, out) = run_ok("1 + 2;");
    assert_eq!(v, Value::Number(3));
    assert!(out.is_empty());
}

#[test]
fn short_circuit_or_returns_operand() {
    let (_, out) = run_ok("print nil or \"x\"; print 1 or 2;");
    assert_eq!(out, vec!["x".to_string(), "1".to_string()]);
}

#[test]
fn short_circuit_and_skips_right() {
    let (_, out) = run_ok("var a = 1; false and (a = 2); print a; print false and 2;");
    assert_eq!(out, vec!["1".to_string(), "false".to_string()]);
}

#[test]
fn truthiness_of_bang() {
    let (_, out) = run_ok("print !nil; print !false; print !0; print !\"\";");
    assert_eq!(
        out,
        vec!["true".to_string(), "true".to_string(), "false".to_string(), "false".to_string()]
    );
}

#[test]
fn division_truncates_and_zero_fails() {
    let (_, out) = run_ok("print 7 / 2;");
    assert_eq!(out, vec!["3".to_string()]);
    let m = eval_msg(run_err("print 1 / 0;"));
    assert_eq!(m, "Division by zero");
}

#[test]
fn equality_across_variants_is_false() {
    let (_, out) = run_ok("print 1 == 1; print \"a\" == 1; print nil == nil; print 1 != 2;");
    assert_eq!(
        out,
        vec!["true".to_string(), "false".to_string(), "true".to_string(), "true".to_string()]
    );
}

#[test]
fn comparison_demands_numbers() {
    let m = eval_msg(run_err("print 1 < \"a\";"));
    assert_eq!(m, "Expected a number, instead got: \"a\"");
    let m2 = eval_msg(run_err("print \"a\" < 1;"));
    assert_eq!(m2, "Expected a number, instead got: \"a\"");
}

#[test]
fn calling_a_number_fails() {
    let m = eval_msg(run_err("1(2);"));
    assert_eq!(m, "1 is not a valid function");
}

#[test]
fn function_display_form() {
    let (_, out) = run_ok("fun f(){} print f;");
    assert_eq!(out, vec!["<function f>".to_string()]);
}

#[test]
fn builtin_clock_is_a_number() {
    let (_, out) = run_ok("print clock() >= 0;");
    assert_eq!(out, vec!["true".to_string()]);
    let m = eval_msg(run_err("clock(1);"));
    assert_eq!(m, "Wrong number of arguments: Expected 0, got 1");
}

#[test]
fn builtin_display_form() {
    let (_, out) = run_ok("print clock;");
    assert_eq!(out, vec!["<built-in function clock>".to_string()]);
}

#[test]
fn while_loop_counts() {
    let (_, out) = run_ok("var i = 0; while (i < 3) { print i; i = i + 1; }");
    assert_eq!(out, vec!["0".to_string(), "1".to_string(), "2".to_string()]);
}

#[test]
fn if_else_branches() {
    let (_, out) = run_ok("if (1 < 2) print \"yes\"; else print \"no\"; if (false) print \"a\"; else print \"b\";");
    assert_eq!(out, vec!["yes".to_string(), "b".to_string()]);
}

#[test]
fn negative_numbers_print_with_sign() {
    let (_, out) = run_ok("print -5; print 0 - 7;");
    assert_eq!(out, vec!["-5".to_string(), "-7".to_string()]);
}

#[test]
fn scopes_persist_across_runs() {
    let mut interp = Interpreter::new();
    let mut out: Vec<String> = Vec::new();
    interp.run("var a = 41;", &mut out).unwrap();
    interp.run("print a + 1;", &mut out).unwrap();
    assert_eq!(out, vec!["42".to_string()]);
}

#[test]
fn string_literal_round_trip() {
    let (_, out) = run_ok("print \"s\";");
    assert_eq!(out, vec!["s".to_string()]);
    let (v, _) = run_ok("\"s\";");
    assert_eq!(v, Value::String("s".to_string()));
}

#[test]
fn nested_calls_left_to_right() {
    let code = "\
fun id(x) { return x; }
fun add(a, b) { return a + b; }
print add(id(1), id(2));
";
    let (_, out) = run_ok(code);
    assert_eq!(out, vec!["3".to_string()]);
}

#[test]
fn grouping_overrides_precedence() {
    let (_, out) = run_ok("print (1 + 2) * 3;");
    assert_eq!(out, vec!["9".to_string()]);
}

#[test]
fn nested_blocks_restore_each_level() {
    let (_, out) = run_ok(
        "var a = 1; { var a = 2; { var a = 3; print a; } print a; } print a;",
    );
    assert_eq!(out, vec!["3".to_string(), "2".to_string(), "1".to_string()]);
}

#[test]
fn unary_chains_apply_right_to_left() {
    let (_, out) = run_ok("print --5; print !!nil;");
    assert_eq!(out, vec!["5".to_string(), "false".to_string()]);
}

#[test]
fn assignment_yields_the_assigned_value() {
    let (v, _) = run_ok("var a = 1; a = 41 + 1;");
    assert_eq!(v, Value::Number(42));
}

#[test]
fn return_unwinds_through_loops_and_blocks() {
    let code = "\
fun first() {
  var i = 0;
  while (true) {
    if (i == 2) { return i; }
    i = i + 1;
  }
}
print first();
";
    let (_, out) = run_ok(code);
    assert_eq!(out, vec!["2".to_string()]);
}

#[test]
fn wrapping_arithmetic_on_the_edges() {
    let (v, _) = run_ok("9223372036854775807 + 1;");
    assert_eq!(v, Value::Number(i64::MIN));
}

#[test]
fn string_plus_other_fails() {
    let m = eval_msg(run_err("print \"a\" + true;"));
    assert_eq!(m, "Can't add \"a\" and true");
    let m2 = eval_msg(run_err("print \"a\" + nil;"));
    assert_eq!(m2, "Can't add \"a\" and nil");
}

#[test]
fn other_plus_string_fails() {
    let m = eval_msg(run_err("print true + \"a\";"));
    assert_eq!(m, "Can't add true and \"a\"");
    let m2 = eval_msg(run_err("print nil + nil;"));
    assert_eq!(m2, "Can't add nil and nil");
}

#[test]
fn number_plus_other_fails() {
    let m = eval_msg(run_err("print 1 + true;"));
    assert_eq!(m, "Can't add true to a number");
}
