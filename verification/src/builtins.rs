//! Host builtins.  The only one is `clock`.

use vstd::prelude::*;
use crate::ast::{Value, ValueV, value_view};
use crate::errors::ErrorKind;

verus! {

/// Relies on `std::time::SystemTime::now` and
/// `Duration::as_secs`: the seconds since the UNIX epoch, or 0 when the
/// system clock sits before the epoch.  Nothing more is assumed: any
/// two calls may differ.
#[verifier::external_body]
pub fn now_secs() -> u64 {
    match std::time::SystemTime::now().duration_since(std::time::UNIX_EPOCH) {
        Ok(d) => d.as_secs(),
        Err(_) => 0,
    }
}

/// The `clock` builtin: the time the interpreter sampled when the run
/// began, as a number, whatever the arguments.
pub fn clock(now: i64, _args: &Vec<Value>) -> (r: Result<Value, ErrorKind>)
    ensures
        r matches Ok(v) && value_view(v) == ValueV::Number(now),
{
    Ok(Value::Number(now))
}

} // verus!
