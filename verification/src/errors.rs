//! The error taxonomy, and the exact text of each runtime diagnostic.

use vstd::prelude::*;
use crate::scanner::Token;
use crate::ast::ValueV;
use crate::render::{val_display, dec_digits, display_value, u64_to_string};
use crate::scanner::token_view;
use crate::ast::{Value, value_view};

verus! {

/// What can go wrong: a malformed lexeme, a grammar violation at a
/// token, or a runtime failure.
#[derive(Debug)]
pub enum ErrorKind {
    ScanError(usize, String),
    ParseError { tok: Token, t: String },
    EvaluateError(String),
}

pub open spec fn msg_undefined_variable(name: Seq<char>) -> Seq<char> {
    "Undefined variable: "@ + name
}

pub open spec fn msg_cant_negate(v: ValueV) -> Seq<char> {
    "Can't negate "@ + val_display(v)
}

pub open spec fn msg_expected_number(v: ValueV) -> Seq<char> {
    "Expected a number, instead got: "@ + val_display(v)
}

pub open spec fn msg_cant_add_to_number(v: ValueV) -> Seq<char> {
    "Can't add "@ + val_display(v) + " to a number"@
}

pub open spec fn msg_cant_add(l: ValueV, r: ValueV) -> Seq<char> {
    "Can't add "@ + val_display(l) + " and "@ + val_display(r)
}

pub open spec fn msg_wrong_arg_count(expected: nat, got: nat) -> Seq<char> {
    "Wrong number of arguments: Expected "@ + dec_digits(expected) + ", got "@ + dec_digits(got)
}

pub open spec fn msg_not_callable(v: ValueV) -> Seq<char> {
    val_display(v) + " is not a valid function"@
}

pub open spec fn msg_division_by_zero() -> Seq<char> {
    "Division by zero"@
}

pub open spec fn msg_budget_exhausted() -> Seq<char> {
    "Execution budget exhausted"@
}

pub open spec fn msg_return_outside() -> Seq<char> {
    "Return outside a function"@
}

/// An evaluation error whose message is `prefix` followed by the display
/// form of `v`.
pub fn err_prefix_value(prefix: &str, v: &Value) -> (r: ErrorKind)
    ensures
        r matches ErrorKind::EvaluateError(m) && m@ == prefix@ + val_display(value_view(*v)),
{
    let mut m = prefix.to_owned();
    let shown = display_value(v);
    m.append(shown.as_str());
    ErrorKind::EvaluateError(m)
}

pub fn err_undefined_variable(name: &str) -> (r: ErrorKind)
    ensures
        r matches ErrorKind::EvaluateError(m) && m@ == msg_undefined_variable(name@),
{
    let mut m = String::from_str("Undefined variable: ");
    m.append(name);
    ErrorKind::EvaluateError(m)
}

pub fn err_cant_add(l: &Value, r: &Value) -> (e: ErrorKind)
    ensures
        e matches ErrorKind::EvaluateError(m) && m@ == msg_cant_add(
            value_view(*l),
            value_view(*r),
        ),
{
    let mut m = String::from_str("Can't add ");
    let ls = display_value(l);
    m.append(ls.as_str());
    m.append(" and ");
    let rs = display_value(r);
    m.append(rs.as_str());
    proof {
        assert(m@ =~= msg_cant_add(value_view(*l), value_view(*r)));
    }
    ErrorKind::EvaluateError(m)
}

pub fn err_cant_add_to_number(v: &Value) -> (e: ErrorKind)
    ensures
        e matches ErrorKind::EvaluateError(m) && m@ == msg_cant_add_to_number(value_view(*v)),
{
    let mut m = String::from_str("Can't add ");
    let s = display_value(v);
    m.append(s.as_str());
    m.append(" to a number");
    proof {
        assert(m@ =~= msg_cant_add_to_number(value_view(*v)));
    }
    ErrorKind::EvaluateError(m)
}

pub fn err_wrong_arg_count(expected: usize, got: usize) -> (e: ErrorKind)
    ensures
        e matches ErrorKind::EvaluateError(m) && m@ == msg_wrong_arg_count(
            expected as nat,
            got as nat,
        ),
{
    let mut m = String::from_str("Wrong number of arguments: Expected ");
    let es = u64_to_string(expected as u64);
    m.append(es.as_str());
    m.append(", got ");
    let gs = u64_to_string(got as u64);
    m.append(gs.as_str());
    proof {
        assert(m@ =~= msg_wrong_arg_count(expected as nat, got as nat));
    }
    ErrorKind::EvaluateError(m)
}

pub fn err_not_callable(v: &Value) -> (e: ErrorKind)
    ensures
        e matches ErrorKind::EvaluateError(m) && m@ == msg_not_callable(value_view(*v)),
{
    let shown = display_value(v);
    let mut m = shown;
    m.append(" is not a valid function");
    ErrorKind::EvaluateError(m)
}

pub fn err_division_by_zero() -> (e: ErrorKind)
    ensures
        e matches ErrorKind::EvaluateError(m) && m@ == msg_division_by_zero(),
{
    ErrorKind::EvaluateError(String::from_str("Division by zero"))
}

pub fn err_budget_exhausted() -> (e: ErrorKind)
    ensures
        e matches ErrorKind::EvaluateError(m) && m@ == msg_budget_exhausted(),
{
    ErrorKind::EvaluateError(String::from_str("Execution budget exhausted"))
}

pub fn err_return_outside() -> (e: ErrorKind)
    ensures
        e matches ErrorKind::EvaluateError(m) && m@ == msg_return_outside(),
{
    ErrorKind::EvaluateError(String::from_str("Return outside a function"))
}

/// The single-line report of an error, as the interpreter's host
/// prints it.
pub open spec fn err_display(e: ErrorKind) -> Seq<char> {
    match e {
        ErrorKind::ScanError(line, m) => "Error at line "@ + dec_digits(line as nat) + ": "@ + m@,
        ErrorKind::ParseError { tok, t } => "Error at line "@ + dec_digits(
            token_view(tok).line,
        ) + " at '"@ + token_view(tok).lexeme + "': "@ + t@,
        ErrorKind::EvaluateError(m) => "Error: "@ + m@,
    }
}

impl ErrorKind {
    /// The single-line report of this error.
    pub fn render(&self) -> (r: String)
        ensures
            r@ == err_display(*self),
    {
        match self {
            ErrorKind::ScanError(line, m) => {
                let mut r = String::from_str("Error at line ");
                let ls = u64_to_string(*line as u64);
                r.append(ls.as_str());
                r.append(": ");
                r.append(m.as_str());
                proof {
                    assert(r@ =~= err_display(*self));
                }
                r
            },
            ErrorKind::ParseError { tok, t } => {
                let mut r = String::from_str("Error at line ");
                let ls = u64_to_string(tok.line as u64);
                r.append(ls.as_str());
                r.append(" at '");
                r.append(tok.lexeme.as_str());
                r.append("': ");
                r.append(t.as_str());
                proof {
                    assert(r@ =~= err_display(*self));
                }
                r
            },
            ErrorKind::EvaluateError(m) => {
                let mut r = String::from_str("Error: ");
                r.append(m.as_str());
                proof {
                    assert(r@ =~= err_display(*self));
                }
                r
            },
        }
    }
}

} // verus!
