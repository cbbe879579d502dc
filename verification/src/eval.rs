//! The evaluator.
//!
//! `sp_expr`, `sp_stmt` and their companions form a mathematical
//! big-step interpreter over the model types: they take an evaluation
//! state (the scope arena and the printed output so far) and return the
//! new state with the outcome, an error message or a value.  Evaluation
//! is bounded by a fuel that only function calls and loop iterations
//! consume; exhaustion is reported as an evaluation error.  The
//! executable evaluator below is verified to return exactly what the
//! mathematical one says, state, output and outcome alike.

use vstd::prelude::*;
use crate::ast::{
    Builtin, BinaryOperator, LogicalOperator, UnaryOperator, Value, ValueV, ExprV, StmtV,
    Expr, Stmt, truthy, value_view, expr_view, stmt_view, exprs_view, stmts_view,
    value_dup, stmt_dup, tokens_dup, value_eq, lemma_exprs_view_index,
    lemma_stmts_view_index,
};
use crate::scanner::{TokenV, token_view, tokens_view, token_dup};
use crate::interpreter::{
    Environment, EnvNodeV, envs_wf, env_lookup, env_insert, env_update, env_wrap,
    bindings_lookup, bindings_update,
};
use crate::render::{print_view, print_text, val_display};

use crate::errors::{
    ErrorKind, msg_undefined_variable, msg_cant_negate, msg_expected_number,
    msg_cant_add_to_number, msg_cant_add, msg_wrong_arg_count, msg_not_callable,
    msg_division_by_zero, msg_budget_exhausted, err_prefix_value, err_undefined_variable,
    err_cant_add, err_cant_add_to_number, err_wrong_arg_count, err_not_callable,
    err_division_by_zero, err_budget_exhausted,
};

verus! {

/// An evaluation state: the scope arena and the lines printed so far.
#[verifier::ext_equal]
pub struct StateV {
    pub envs: Seq<EnvNodeV>,
    pub out: Seq<Seq<char>>,
}

/// Wrapping negation of a 64-bit number.
pub open spec fn wrap_neg(n: i64) -> i64 {
    if n == i64::MIN {
        i64::MIN
    } else {
        (-n) as i64
    }
}

/// Wrapping division truncating toward zero; the one overflowing case
/// wraps to `i64::MIN`.
pub open spec fn wrap_div(a: i64, b: i64) -> i64
    recommends
        b != 0,
{
    match a.checked_div(b) {
        Some(q) => q,
        None => i64::MIN,
    }
}

/// The value of one binary operator on two evaluated operands.
///
/// The numeric operators demand numbers, checking the left operand
/// first.  `+` adds two numbers, concatenates two strings, and
/// concatenates a number with a string (either way round) through the
/// number's display form; every other combination is an error.
/// Equality is structural and never fails; division by zero is an
/// error.
pub open spec fn sp_binop(op: BinaryOperator, l: ValueV, r: ValueV) -> Result<
    ValueV,
    Seq<char>,
> {
    match op {
        BinaryOperator::EqualEqual => Ok(ValueV::Bool(l == r)),
        BinaryOperator::BangEqual => Ok(ValueV::Bool(l != r)),
        BinaryOperator::Equal => Ok(ValueV::Nil),
        BinaryOperator::Plus => match l {
            ValueV::Number(a) => match r {
                ValueV::Number(b) => Ok(ValueV::Number(a.wrapping_add(b))),
                ValueV::String(s) => Ok(ValueV::String(val_display(l) + s)),
                _ => Err(msg_cant_add_to_number(r)),
            },
            ValueV::String(s) => match r {
                ValueV::String(t) => Ok(ValueV::String(s + t)),
                ValueV::Number(b) => Ok(ValueV::String(s + val_display(r))),
                _ => Err(msg_cant_add(l, r)),
            },
            _ => Err(msg_cant_add(l, r)),
        },
        _ => match l {
            ValueV::Number(a) => match r {
                ValueV::Number(b) => match op {
                    BinaryOperator::Minus => Ok(ValueV::Number(a.wrapping_sub(b))),
                    BinaryOperator::Star => Ok(ValueV::Number(a.wrapping_mul(b))),
                    BinaryOperator::Slash => if b == 0 {
                        Err(msg_division_by_zero())
                    } else {
                        Ok(ValueV::Number(wrap_div(a, b)))
                    },
                    BinaryOperator::Less => Ok(ValueV::Bool(a < b)),
                    BinaryOperator::LessEqual => Ok(ValueV::Bool(a <= b)),
                    BinaryOperator::Greater => Ok(ValueV::Bool(a > b)),
                    BinaryOperator::GreaterEqual => Ok(ValueV::Bool(a >= b)),
                    _ => Ok(ValueV::Nil),
                },
                _ => Err(msg_expected_number(r)),
            },
            _ => Err(msg_expected_number(l)),
        },
    }
}

/// Binding parameters to arguments, left to right, in scope `e`.
pub open spec fn bind_params(
    envs: Seq<EnvNodeV>,
    e: int,
    params: Seq<TokenV>,
    argvs: Seq<ValueV>,
) -> Seq<EnvNodeV>
    decreases params.len(),
{
    if params.len() == 0 || argvs.len() == 0 {
        envs
    } else {
        bind_params(
            env_insert(envs, e, params[0].lexeme, argvs[0]),
            e,
            params.drop_first(),
            argvs.drop_first(),
        )
    }
}

/// The meaning of an expression: the new state and the outcome.
pub open spec fn sp_expr(st: StateV, env: int, e: ExprV, now: i64, fuel: nat) -> (StateV, Result<
    ValueV,
    Seq<char>,
>)
    decreases fuel, e,
{
    match e {
        ExprV::Literal(v) => (st, Ok(v)),
        ExprV::Unary(u) => {
            let (st1, r1) = sp_expr(st, env, u.expr, now, fuel);
            match r1 {
                Ok(v) => match u.op {
                    UnaryOperator::Bang => (st1, Ok(ValueV::Bool(!truthy(v)))),
                    UnaryOperator::Minus => match v {
                        ValueV::Number(n) => (st1, Ok(ValueV::Number(wrap_neg(n)))),
                        _ => (st1, Err(msg_cant_negate(v))),
                    },
                },
                Err(m) => (st1, Err(m)),
            }
        },
        ExprV::Binary(b) => {
            let (st1, r1) = sp_expr(st, env, b.left, now, fuel);
            match r1 {
                Err(m) => (st1, Err(m)),
                Ok(lv) => {
                    let (st2, r2) = sp_expr(st1, env, b.right, now, fuel);
                    match r2 {
                        Err(m) => (st2, Err(m)),
                        Ok(rv) => (st2, sp_binop(b.op, lv, rv)),
                    }
                },
            }
        },
        ExprV::Logical(l) => {
            let (st1, r1) = sp_expr(st, env, l.left, now, fuel);
            match r1 {
                Err(m) => (st1, Err(m)),
                Ok(lv) => {
                    if (l.op == LogicalOperator::Or && truthy(lv)) || (l.op == LogicalOperator::And
                        && !truthy(lv)) {
                        (st1, Ok(lv))
                    } else {
                        sp_expr(st1, env, l.right, now, fuel)
                    }
                },
            }
        },
        ExprV::Call(callee, args) => {
            let (st1, r1) = sp_expr(st, env, *callee, now, fuel);
            match r1 {
                Err(m) => (st1, Err(m)),
                Ok(f) => {
                    let (st2, r2) = sp_args(st1, env, args, Seq::empty(), now, fuel);
                    match r2 {
                        Err(m) => (st2, Err(m)),
                        Ok(vs) => {
                            if fuel == 0 {
                                (st2, Err(msg_budget_exhausted()))
                            } else {
                                sp_call(st2, f, vs, now, (fuel - 1) as nat)
                            }
                        },
                    }
                },
            }
        },
        ExprV::Grouping(g) => sp_expr(st, env, g.expr, now, fuel),
        ExprV::Variable(id) => match env_lookup(st.envs, env, id.name.lexeme) {
            Some(v) => (st, Ok(v)),
            None => (st, Err(msg_undefined_variable(id.name.lexeme))),
        },
        ExprV::Assign(id, b) => {
            let (st1, r1) = sp_expr(st, env, *b, now, fuel);
            match r1 {
                Err(m) => (st1, Err(m)),
                Ok(v) => match env_update(st1.envs, env, id.name.lexeme, v) {
                    Some(envs2) => (StateV { envs: envs2, out: st1.out }, Ok(v)),
                    None => (st1, Err(msg_undefined_variable(id.name.lexeme))),
                },
            }
        },
    }
}

/// The meaning of an argument list, evaluated left to right onto `acc`.
pub open spec fn sp_args(
    st: StateV,
    env: int,
    args: Seq<ExprV>,
    acc: Seq<ValueV>,
    now: i64,
    fuel: nat,
) -> (StateV, Result<Seq<ValueV>, Seq<char>>)
    decreases fuel, args,
{
    if args.len() == 0 {
        (st, Ok(acc))
    } else {
        let (st1, r1) = sp_expr(st, env, args[0], now, fuel);
        match r1 {
            Err(m) => (st1, Err(m)),
            Ok(v) => sp_args(st1, env, args.drop_first(), acc.push(v), now, fuel),
        }
    }
}

/// The meaning of a call: arity is checked against the callee; a
/// declared function runs its body in a fresh scope parented to the
/// environment the function captured, and one `Return` wrapper is
/// unwrapped.  The `clock` builtin returns the interpreter's sampled
/// time.
pub open spec fn sp_call(st: StateV, f: ValueV, argvs: Seq<ValueV>, now: i64, fuel: nat) -> (
    StateV,
    Result<ValueV, Seq<char>>,
)
    decreases fuel, f,
{
    match f {
        ValueV::BuiltinFunc(name, arity, kind) => {
            if argvs.len() != arity {
                (st, Err(msg_wrong_arg_count(arity, argvs.len())))
            } else {
                match kind {
                    Builtin::Clock => (st, Ok(ValueV::Number(now))),
                }
            }
        },
        ValueV::Func(name, cenv, params, body) => {
            if params.len() != argvs.len() {
                (st, Err(msg_wrong_arg_count(params.len(), argvs.len())))
            } else {
                let newenv = st.envs.len() as int;
                let envs2 = env_wrap(st.envs, cenv);
                let envs3 = bind_params(envs2, newenv, params, argvs);
                let (st3, rb) = sp_stmt(StateV { envs: envs3, out: st.out }, newenv, *body, now, fuel);
                match rb {
                    Ok(v) => match v {
                        ValueV::Return(x) => (st3, Ok(*x)),
                        _ => (st3, Ok(v)),
                    },
                    Err(m) => (st3, Err(m)),
                }
            }
        },
        _ => (st, Err(msg_not_callable(f))),
    }
}

/// The meaning of a statement.
pub open spec fn sp_stmt(st: StateV, env: int, s: StmtV, now: i64, fuel: nat) -> (StateV, Result<
    ValueV,
    Seq<char>,
>)
    decreases fuel, s,
{
    match s {
        StmtV::Expr(e) => sp_expr(st, env, e, now, fuel),
        StmtV::Print(e) => {
            let (st1, r1) = sp_expr(st, env, e, now, fuel);
            match r1 {
                Err(m) => (st1, Err(m)),
                Ok(v) => (
                    StateV { envs: st1.envs, out: st1.out.push(print_view(v)) },
                    Ok(ValueV::Nil),
                ),
            }
        },
        StmtV::Decl(id, e) => {
            let (st1, r1) = sp_expr(st, env, e, now, fuel);
            match r1 {
                Err(m) => (st1, Err(m)),
                Ok(v) => (
                    StateV { envs: env_insert(st1.envs, env, id.name.lexeme, v), out: st1.out },
                    Ok(ValueV::Nil),
                ),
            }
        },
        StmtV::Block(ss) => {
            let newenv = st.envs.len() as int;
            sp_stmts(
                StateV { envs: env_wrap(st.envs, env), out: st.out },
                newenv,
                ss,
                ValueV::Nil,
                now,
                fuel,
            )
        },
        StmtV::Return(e) => {
            let (st1, r1) = sp_expr(st, env, e, now, fuel);
            match r1 {
                Err(m) => (st1, Err(m)),
                Ok(v) => (st1, Ok(ValueV::Return(Box::new(v)))),
            }
        },
        StmtV::If(c, t, els) => {
            let (st1, r1) = sp_expr(st, env, c, now, fuel);
            match r1 {
                Err(m) => (st1, Err(m)),
                Ok(v) => {
                    if truthy(v) {
                        sp_stmt(st1, env, *t, now, fuel)
                    } else {
                        match els {
                            Some(b) => sp_stmt(st1, env, *b, now, fuel),
                            None => (st1, Ok(ValueV::Nil)),
                        }
                    }
                },
            }
        },
        StmtV::While(c, b) => {
            if fuel == 0 {
                (st, Err(msg_budget_exhausted()))
            } else {
                sp_while(st, env, c, *b, ValueV::Nil, now, (fuel - 1) as nat)
            }
        },
        StmtV::Func(name, params, body) => (
            StateV {
                envs: env_insert(
                    st.envs,
                    env,
                    name.lexeme,
                    ValueV::Func(name, env, params, body),
                ),
                out: st.out,
            },
            Ok(ValueV::Nil),
        ),
    }
}

/// The meaning of a statement sequence: statements run in order, the
/// last value wins, and a `Return` stops the sequence.
pub open spec fn sp_stmts(
    st: StateV,
    env: int,
    ss: Seq<StmtV>,
    prev: ValueV,
    now: i64,
    fuel: nat,
) -> (StateV, Result<ValueV, Seq<char>>)
    decreases fuel, ss,
{
    if ss.len() == 0 {
        (st, Ok(prev))
    } else {
        let (st1, r1) = sp_stmt(st, env, ss[0], now, fuel);
        match r1 {
            Err(m) => (st1, Err(m)),
            Ok(v) => {
                if v is Return {
                    (st1, Ok(v))
                } else {
                    sp_stmts(st1, env, ss.drop_first(), v, now, fuel)
                }
            },
        }
    }
}

// ---------------------------------------------------------------------
// Well-formedness.
//
// A value that expressions may produce and scopes may store: never the
// `Return` sentinel, and a function value points into the arena and has
// a plain body.  Plain syntax is what the parser emits: literals are
// `Nil`, booleans, numbers or strings, never function or `Return`
// values.

pub open spec fn lit_plain(v: ValueV) -> bool {
    match v {
        ValueV::Nil => true,
        ValueV::Bool(_) => true,
        ValueV::Number(_) => true,
        ValueV::String(_) => true,
        _ => false,
    }
}

pub open spec fn expr_plain(e: ExprV) -> bool
    decreases e,
{
    match e {
        ExprV::Literal(v) => lit_plain(v),
        ExprV::Unary(u) => expr_plain(u.expr),
        ExprV::Binary(b) => expr_plain(b.left) && expr_plain(b.right),
        ExprV::Logical(l) => expr_plain(l.left) && expr_plain(l.right),
        ExprV::Call(callee, args) => expr_plain(*callee) && exprs_plain(args),
        ExprV::Grouping(g) => expr_plain(g.expr),
        ExprV::Variable(_) => true,
        ExprV::Assign(_, b) => expr_plain(*b),
    }
}

pub open spec fn exprs_plain(es: Seq<ExprV>) -> bool
    decreases es,
{
    if es.len() == 0 {
        true
    } else {
        expr_plain(es[0]) && exprs_plain(es.drop_first())
    }
}

pub open spec fn stmt_plain(s: StmtV) -> bool
    decreases s,
{
    match s {
        StmtV::Expr(e) => expr_plain(e),
        StmtV::Print(e) => expr_plain(e),
        StmtV::Decl(_, e) => expr_plain(e),
        StmtV::Block(ss) => stmts_plain(ss),
        StmtV::Return(e) => expr_plain(e),
        StmtV::If(c, t, els) => expr_plain(c) && stmt_plain(*t) && match els {
            Some(b) => stmt_plain(*b),
            None => true,
        },
        StmtV::While(c, b) => expr_plain(c) && stmt_plain(*b),
        StmtV::Func(_, _, body) => stmt_plain(*body),
    }
}

pub open spec fn stmts_plain(ss: Seq<StmtV>) -> bool
    decreases ss,
{
    if ss.len() == 0 {
        true
    } else {
        stmt_plain(ss[0]) && stmts_plain(ss.drop_first())
    }
}

pub proof fn lemma_exprs_plain_index(es: Seq<ExprV>)
    requires
        exprs_plain(es),
    ensures
        forall|i: int| 0 <= i < es.len() ==> expr_plain(#[trigger] es[i]),
    decreases es,
{
    if es.len() > 0 {
        lemma_exprs_plain_index(es.drop_first());
        assert forall|i: int| 0 <= i < es.len() implies expr_plain(#[trigger] es[i]) by {
            if i > 0 {
                assert(es[i] == es.drop_first()[i - 1]);
            }
        }
    }
}

pub proof fn lemma_stmts_plain_index(ss: Seq<StmtV>)
    requires
        stmts_plain(ss),
    ensures
        forall|i: int| 0 <= i < ss.len() ==> stmt_plain(#[trigger] ss[i]),
    decreases ss,
{
    if ss.len() > 0 {
        lemma_stmts_plain_index(ss.drop_first());
        assert forall|i: int| 0 <= i < ss.len() implies stmt_plain(#[trigger] ss[i]) by {
            if i > 0 {
                assert(ss[i] == ss.drop_first()[i - 1]);
            }
        }
    }
}

/// A value a scope may hold or an expression may produce, against an
/// arena of `n` scopes.
pub open spec fn val_ok(v: ValueV, n: int) -> bool {
    match v {
        ValueV::Func(_, cenv, _, body) => 0 <= cenv < n && stmt_plain(*body),
        ValueV::Return(_) => false,
        _ => true,
    }
}

/// A statement outcome: either such a value, or one `Return` around one.
pub open spec fn res_ok(v: ValueV, n: int) -> bool {
    match v {
        ValueV::Return(b) => val_ok(*b, n),
        _ => val_ok(v, n),
    }
}

/// Every value stored anywhere in the arena is well formed against it.
pub open spec fn vals_ok_envs(envs: Seq<EnvNodeV>) -> bool {
    forall|i: int, j: int|
        0 <= i < envs.len() && 0 <= j < envs[i].bindings.len() ==> val_ok(
            (#[trigger] envs[i].bindings[j]).1,
            envs.len() as int,
        )
}

/// The standing invariant of an evaluation state.
pub open spec fn state_ok(st: StateV) -> bool {
    envs_wf(st.envs) && vals_ok_envs(st.envs)
}

pub proof fn lemma_val_ok_mono(v: ValueV, n: int, m: int)
    requires
        val_ok(v, n),
        n <= m,
    ensures
        val_ok(v, m),
{
}

pub proof fn lemma_state_ok_wrap(envs: Seq<EnvNodeV>, parent: int)
    requires
        envs_wf(envs),
        vals_ok_envs(envs),
        0 <= parent < envs.len(),
    ensures
        envs_wf(env_wrap(envs, parent)),
        vals_ok_envs(env_wrap(envs, parent)),
{
    let envs2 = env_wrap(envs, parent);
    assert forall|i: int, j: int|
        0 <= i < envs2.len() && 0 <= j < envs2[i].bindings.len() implies val_ok(
        (#[trigger] envs2[i].bindings[j]).1,
        envs2.len() as int,
    ) by {
        if i < envs.len() {
            assert(envs2[i] == envs[i]);
            assert(val_ok(envs[i].bindings[j].1, envs.len() as int));
            lemma_val_ok_mono(envs[i].bindings[j].1, envs.len() as int, envs2.len() as int);
        }
    }
}

pub proof fn lemma_state_ok_insert(envs: Seq<EnvNodeV>, e: int, name: Seq<char>, v: ValueV)
    requires
        envs_wf(envs),
        vals_ok_envs(envs),
        0 <= e < envs.len(),
        val_ok(v, envs.len() as int),
    ensures
        envs_wf(env_insert(envs, e, name, v)),
        vals_ok_envs(env_insert(envs, e, name, v)),
        env_insert(envs, e, name, v).len() == envs.len(),
{
    let envs2 = env_insert(envs, e, name, v);
    assert forall|i: int|
        0 <= i < envs2.len() implies match (#[trigger] envs2[i]).parent {
        Some(p) => 0 <= p < i,
        None => true,
    } by {
        if i != e {
            assert(envs2[i] == envs[i]);
        }
    }
    assert forall|i: int, j: int|
        0 <= i < envs2.len() && 0 <= j < envs2[i].bindings.len() implies val_ok(
        (#[trigger] envs2[i].bindings[j]).1,
        envs2.len() as int,
    ) by {
        if i != e {
            assert(envs2[i] == envs[i]);
        } else {
            if j < envs[e].bindings.len() {
                assert(envs2[e].bindings[j] == envs[e].bindings[j]);
            } else {
                assert(envs2[e].bindings[j] == (name, v));
            }
        }
    }
}

proof fn lemma_bindings_update_vals(bs: Seq<(Seq<char>, ValueV)>, name: Seq<char>, v: ValueV)
    ensures
        match bindings_update(bs, name, v) {
            Some(bs2) => bs2.len() == bs.len() && forall|j: int|
                0 <= j < bs2.len() ==> ((#[trigger] bs2[j]).1 == bs[j].1 || bs2[j].1 == v),
            None => true,
        },
    decreases bs.len(),
{
    if bs.len() > 0 {
        if bs.last().0 == name {
        } else {
            lemma_bindings_update_vals(bs.drop_last(), name, v);
        }
    }
}

pub proof fn lemma_state_ok_update(envs: Seq<EnvNodeV>, e: int, name: Seq<char>, v: ValueV)
    requires
        envs_wf(envs),
        vals_ok_envs(envs),
        0 <= e < envs.len(),
        val_ok(v, envs.len() as int),
    ensures
        match env_update(envs, e, name, v) {
            Some(envs2) => {
                &&& envs2.len() == envs.len()
                &&& envs_wf(envs2)
                &&& vals_ok_envs(envs2)
            },
            None => true,
        },
    decreases e,
{
    match bindings_update(envs[e].bindings, name, v) {
        Some(bs2) => {
            lemma_bindings_update_vals(envs[e].bindings, name, v);
            let envs2 = envs.update(
                e,
                EnvNodeV { parent: envs[e].parent, bindings: bs2 },
            );
            assert forall|i: int|
                0 <= i < envs2.len() implies match (#[trigger] envs2[i]).parent {
                Some(p) => 0 <= p < i,
                None => true,
            } by {
                if i != e {
                    assert(envs2[i] == envs[i]);
                }
            }
            assert forall|i: int, j: int|
                0 <= i < envs2.len() && 0 <= j < envs2[i].bindings.len() implies val_ok(
                (#[trigger] envs2[i].bindings[j]).1,
                envs2.len() as int,
            ) by {
                if i != e {
                    assert(envs2[i] == envs[i]);
                    assert(val_ok(envs[i].bindings[j].1, envs.len() as int));
                } else {
                    assert(bs2[j].1 == envs[e].bindings[j].1 || bs2[j].1 == v);
                    assert(val_ok(envs[e].bindings[j].1, envs.len() as int));
                }
            }
        },
        None => {
            if e > 0 {
                match envs[e].parent {
                    Some(p) => {
                        lemma_state_ok_update(envs, p, name, v);
                    },
                    None => {},
                }
            }
        },
    }
}

proof fn lemma_bindings_lookup_in(bs: Seq<(Seq<char>, ValueV)>, name: Seq<char>)
    ensures
        match bindings_lookup(bs, name) {
            Some(v) => exists|j: int| 0 <= j < bs.len() && (#[trigger] bs[j]).1 == v,
            None => true,
        },
    decreases bs.len(),
{
    if bs.len() > 0 {
        if bs.last().0 == name {
            assert(bs[bs.len() - 1].1 == bs.last().1);
        } else {
            lemma_bindings_lookup_in(bs.drop_last(), name);
            match bindings_lookup(bs.drop_last(), name) {
                Some(v) => {
                    let j = choose|j: int|
                        0 <= j < bs.drop_last().len() && (#[trigger] bs.drop_last()[j]).1 == v;
                    assert(bs[j].1 == v);
                },
                None => {},
            }
        }
    }
}

pub proof fn lemma_lookup_val_ok(envs: Seq<EnvNodeV>, e: int, name: Seq<char>)
    requires
        envs_wf(envs),
        vals_ok_envs(envs),
        0 <= e < envs.len(),
    ensures
        match env_lookup(envs, e, name) {
            Some(v) => val_ok(v, envs.len() as int),
            None => true,
        },
    decreases e,
{
    lemma_bindings_lookup_in(envs[e].bindings, name);
    match bindings_lookup(envs[e].bindings, name) {
        Some(v) => {},
        None => match envs[e].parent {
            Some(p) => {
                lemma_lookup_val_ok(envs, p, name);
            },
            None => {},
        },
    }
}

/// The meaning of a `while` loop carrying the last body value; each
/// iteration costs one unit of fuel.
pub open spec fn sp_while(
    st: StateV,
    env: int,
    c: ExprV,
    b: StmtV,
    prev: ValueV,
    now: i64,
    fuel: nat,
) -> (StateV, Result<ValueV, Seq<char>>)
    decreases fuel, b,
{
    if fuel == 0 {
        (st, Err(msg_budget_exhausted()))
    } else {
        let f1 = (fuel - 1) as nat;
        let (st1, rc) = sp_expr(st, env, c, now, f1);
        match rc {
            Err(m) => (st1, Err(m)),
            Ok(cv) => {
                if !truthy(cv) {
                    (st1, Ok(prev))
                } else {
                    let (st2, rb) = sp_stmt(st1, env, b, now, f1);
                    match rb {
                        Err(m) => (st2, Err(m)),
                        Ok(v) => {
                            if v is Return {
                                (st2, Ok(v))
                            } else {
                                sp_while(st2, env, c, b, v, now, f1)
                            }
                        },
                    }
                }
            },
        }
    }
}

/// A whole program: statements in order, the last value carried along;
/// unlike a block, a top-level `Return` value does not stop the run.
pub open spec fn sp_program(
    st: StateV,
    env: int,
    ss: Seq<StmtV>,
    prev: ValueV,
    now: i64,
    fuel: nat,
) -> (StateV, Result<ValueV, Seq<char>>)
    decreases ss.len(),
{
    if ss.len() == 0 {
        (st, Ok(prev))
    } else {
        let (st1, r1) = sp_stmt(st, env, ss[0], now, fuel);
        match r1 {
            Err(m) => (st1, Err(m)),
            Ok(v) => sp_program(st1, env, ss.drop_first(), v, now, fuel),
        }
    }
}

// ---------------------------------------------------------------------
// The executable evaluator.

pub open spec fn out_view(out: Seq<String>) -> Seq<Seq<char>> {
    out.map(|i: int, s: String| s@)
}

pub open spec fn vals_view(vs: Seq<Value>) -> Seq<ValueV> {
    vs.map(|i: int, v: Value| value_view(v))
}

/// The evaluation state an arena and an output vector stand for.
pub open spec fn st_of(envs: Seq<EnvNodeV>, out: Seq<String>) -> StateV {
    StateV { envs, out: out_view(out) }
}

/// The arena invariant: acyclic parents, well-formed stored values.
pub open spec fn env_ok(envs: Seq<EnvNodeV>) -> bool {
    envs_wf(envs) && vals_ok_envs(envs)
}

pub open spec fn vals_ok(vs: Seq<ValueV>, n: int) -> bool {
    forall|i: int| 0 <= i < vs.len() ==> val_ok(#[trigger] vs[i], n)
}

/// The executable outcome agrees with the mathematical one: equal
/// values on success, an `EvaluateError` with the exact message on
/// failure.
pub open spec fn res_matches(r: Result<Value, ErrorKind>, res: Result<ValueV, Seq<char>>) -> bool {
    match r {
        Ok(v) => match res {
            Ok(vv) => value_view(v) == vv,
            Err(_) => false,
        },
        Err(e) => match e {
            ErrorKind::EvaluateError(m) => match res {
                Ok(_) => false,
                Err(mm) => m@ == mm,
            },
            _ => false,
        },
    }
}

fn exec_wrap_neg(n: i64) -> (r: i64)
    ensures
        r == wrap_neg(n),
{
    if n == i64::MIN {
        i64::MIN
    } else {
        -n
    }
}

fn exec_wrap_div(a: i64, b: i64) -> (r: i64)
    requires
        b != 0,
    ensures
        r == wrap_div(a, b),
{
    match a.checked_div(b) {
        Some(q) => q,
        None => i64::MIN,
    }
}

/// `+` on two evaluated operands: addition, or one of the
/// concatenation forms.
fn eval_plus(l: &Value, r: &Value) -> (res: Result<Value, ErrorKind>)
    ensures
        res_matches(res, sp_binop(BinaryOperator::Plus, value_view(*l), value_view(*r))),
        res matches Ok(v) ==> lit_plain(value_view(v)),
{
    let ghost lv = value_view(*l);
    let ghost rv = value_view(*r);
    match l {
        Value::Number(a) => match r {
            Value::Number(b) => Ok(Value::Number(a.wrapping_add(*b))),
            Value::String(s) => {
                let mut t = crate::render::num_to_string(*a);
                t.append(s.as_str());
                Ok(Value::String(t))
            },
            _ => Err(err_cant_add_to_number(r)),
        },
        Value::String(s) => match r {
            Value::String(t2) => {
                let mut t = s.clone();
                t.append(t2.as_str());
                Ok(Value::String(t))
            },
            Value::Number(b) => {
                let shown = crate::render::num_to_string(*b);
                let mut t = s.clone();
                t.append(shown.as_str());
                Ok(Value::String(t))
            },
            _ => Err(err_cant_add(l, r)),
        },
        _ => Err(err_cant_add(l, r)),
    }
}

/// One binary operator on two evaluated operands.
fn eval_binop(op: BinaryOperator, l: &Value, r: &Value) -> (res: Result<Value, ErrorKind>)
    ensures
        res_matches(res, sp_binop(op, value_view(*l), value_view(*r))),
        res matches Ok(v) ==> lit_plain(value_view(v)),
{
    match op {
        BinaryOperator::EqualEqual => Ok(Value::Bool(value_eq(l, r))),
        BinaryOperator::BangEqual => Ok(Value::Bool(!value_eq(l, r))),
        BinaryOperator::Equal => Ok(Value::Nil),
        BinaryOperator::Plus => eval_plus(l, r),
        _ => {
            let a: i64 = match l {
                Value::Number(a) => *a,
                _ => {
                    return Err(err_prefix_value("Expected a number, instead got: ", l));
                },
            };
            let b: i64 = match r {
                Value::Number(b) => *b,
                _ => {
                    return Err(err_prefix_value("Expected a number, instead got: ", r));
                },
            };
            match op {
                BinaryOperator::Minus => Ok(Value::Number(a.wrapping_sub(b))),
                BinaryOperator::Star => Ok(Value::Number(a.wrapping_mul(b))),
                BinaryOperator::Slash => {
                    if b == 0 {
                        Err(err_division_by_zero())
                    } else {
                        Ok(Value::Number(exec_wrap_div(a, b)))
                    }
                },
                BinaryOperator::Less => Ok(Value::Bool(a < b)),
                BinaryOperator::LessEqual => Ok(Value::Bool(a <= b)),
                BinaryOperator::Greater => Ok(Value::Bool(a > b)),
                BinaryOperator::GreaterEqual => Ok(Value::Bool(a >= b)),
                _ => Ok(Value::Nil),
            }
        },
    }
}

/// Evaluates an expression against the arena and the output buffer,
/// returning exactly what the mathematical evaluator `sp_expr` says.
#[verifier::loop_isolation(false)]
pub fn evaluate(
    arena: &mut Environment,
    env: usize,
    e: &Expr,
    now: i64,
    fuel: u64,
    out: &mut Vec<String>,
) -> (r: Result<Value, ErrorKind>)
    requires
        env_ok(old(arena)@),
        env < old(arena)@.len(),
        expr_plain(expr_view(*e)),
    ensures
        ({
            let stepped = sp_expr(
                st_of(old(arena)@, old(out)@),
                env as int,
                expr_view(*e),
                now,
                fuel as nat,
            );
            &&& st_of(final(arena)@, final(out)@) == stepped.0
            &&& res_matches(r, stepped.1)
        }),
        env_ok(final(arena)@),
        final(arena)@.len() >= old(arena)@.len(),
        r matches Ok(v) ==> val_ok(value_view(v), final(arena)@.len() as int),
    decreases fuel, expr_view(*e),
{
    let ghost st0 = st_of(old(arena)@, old(out)@);
    let ghost ev = expr_view(*e);
    match e {
        Expr::Literal(v) => Ok(value_dup(v)),
        Expr::Unary(u) => {
            let r1 = evaluate(arena, env, &u.expr, now, fuel, out);
            match r1 {
                Ok(v) => match u.op {
                    UnaryOperator::Bang => Ok(Value::Bool(!v.is_truthy())),
                    UnaryOperator::Minus => match v {
                        Value::Number(n) => Ok(Value::Number(exec_wrap_neg(n))),
                        x => Err(err_prefix_value("Can't negate ", &x)),
                    },
                },
                Err(er) => Err(er),
            }
        },
        Expr::Binary(b) => {
            let r1 = evaluate(arena, env, &b.left, now, fuel, out);
            match r1 {
                Err(er) => Err(er),
                Ok(lv) => {
                    let r2 = evaluate(arena, env, &b.right, now, fuel, out);
                    match r2 {
                        Err(er) => Err(er),
                        Ok(rv) => eval_binop(b.op, &lv, &rv),
                    }
                },
            }
        },
        Expr::Logical(l) => {
            let r1 = evaluate(arena, env, &l.left, now, fuel, out);
            match r1 {
                Err(er) => Err(er),
                Ok(lv) => {
                    let take_left = match l.op {
                        LogicalOperator::Or => lv.is_truthy(),
                        LogicalOperator::And => !lv.is_truthy(),
                    };
                    if take_left {
                        Ok(lv)
                    } else {
                        evaluate(arena, env, &l.right, now, fuel, out)
                    }
                },
            }
        },
        Expr::Call(callee, args) => {
            let r1 = evaluate(arena, env, &**callee, now, fuel, out);
            match r1 {
                Err(er) => Err(er),
                Ok(f) => {
                    let ghost argsv = exprs_view(args@);
                    let ghost st1 = st_of(arena@, out@);
                    proof {
                        lemma_exprs_view_index(args@);
                        lemma_exprs_plain_index(argsv);
                    }
                    let mut vals: Vec<Value> = Vec::new();
                    let mut i: usize = 0;
                    proof {
                        assert(argsv.skip(0) =~= argsv);
                        assert(vals_view(vals@) =~= Seq::<ValueV>::empty());
                    }
                    while i < args.len()
                        invariant
                            i <= args@.len(),
                            vals@.len() == i,
                            env_ok(arena@),
                            arena@.len() >= old(arena)@.len(),
                            arena@.len() >= st1.envs.len(),
                            env < arena@.len(),
                            vals_ok(vals_view(vals@), arena@.len() as int),
                            sp_args(st1, env as int, argsv, Seq::empty(), now, fuel as nat)
                                == sp_args(
                                st_of(arena@, out@),
                                env as int,
                                argsv.skip(i as int),
                                vals_view(vals@),
                                now,
                                fuel as nat,
                            ),
                        decreases args@.len() - i,
                    {
                        proof {
                            assert(decreases_to!(ev => argsv));
                            assert(decreases_to!(argsv => argsv[i as int]));
                            assert(argsv[i as int] == expr_view(args@[i as int]));
                        }
                        let ghost vals_before = vals@;
                        let ghost st_it = st_of(arena@, out@);
                        let rv = evaluate(arena, env, &args[i], now, fuel, out);
                        proof {
                            assert(argsv.skip(i as int)[0] == argsv[i as int]);
                            assert(argsv.skip(i as int).drop_first() =~= argsv.skip(i + 1));
                        }
                        match rv {
                            Err(er) => {
                                return Err(er);
                            },
                            Ok(v) => {
                                proof {
                                    lemma_val_ok_mono_seq(
                                        vals_view(vals_before),
                                        st_it.envs.len() as int,
                                        arena@.len() as int,
                                    );
                                    assert(vals_view(vals@.push(v)) =~= vals_view(vals@).push(
                                        value_view(v),
                                    ));
                                }
                                vals.push(v);
                                i = i + 1;
                            },
                        }
                    }
                    proof {
                        assert(argsv.skip(args@.len() as int)
                            =~= Seq::<ExprV>::empty());
                    }
                    if fuel == 0 {
                        Err(err_budget_exhausted())
                    } else {
                        proof {
                            lemma_val_ok_mono(
                                value_view(f),
                                st1.envs.len() as int,
                                arena@.len() as int,
                            );
                        }
                        let res = call(&f, vals, arena, now, fuel - 1, out);
                        res
                    }
                },
            }
        },
        Expr::Grouping(g) => evaluate(arena, env, &g.expr, now, fuel, out),
        Expr::Variable(id) => {
            proof {
                lemma_lookup_val_ok(arena@, env as int, id.name.lexeme@);
            }
            match arena.get(env, id.name.lexeme.as_str()) {
                Some(v) => Ok(v),
                None => Err(err_undefined_variable(id.name.lexeme.as_str())),
            }
        },
        Expr::Assign(id, b) => {
            let r1 = evaluate(arena, env, &**b, now, fuel, out);
            match r1 {
                Err(er) => Err(er),
                Ok(v) => {
                    proof {
                        lemma_state_ok_update(
                            arena@,
                            env as int,
                            id.name.lexeme@,
                            value_view(v),
                        );
                    }
                    let copy = value_dup(&v);
                    if arena.update(env, id.name.lexeme.as_str(), copy) {
                        Ok(v)
                    } else {
                        Err(err_undefined_variable(id.name.lexeme.as_str()))
                    }
                },
            }
        },
    }
}

/// A helper: every value in a list stays well formed when the arena
/// only grows.
proof fn lemma_val_ok_mono_seq(vs: Seq<ValueV>, n: int, m: int)
    requires
        vals_ok(vs, n),
        n <= m,
    ensures
        vals_ok(vs, m),
{
    assert forall|i: int| 0 <= i < vs.len() implies val_ok(#[trigger] vs[i], m) by {
        lemma_val_ok_mono(vs[i], n, m);
    }
}

/// Applies a callee to evaluated arguments, returning exactly what the
/// mathematical `sp_call` says.
#[verifier::loop_isolation(false)]
pub fn call(
    f: &Value,
    args: Vec<Value>,
    arena: &mut Environment,
    now: i64,
    fuel: u64,
    out: &mut Vec<String>,
) -> (r: Result<Value, ErrorKind>)
    requires
        env_ok(old(arena)@),
        val_ok(value_view(*f), old(arena)@.len() as int),
        vals_ok(vals_view(args@), old(arena)@.len() as int),
    ensures
        ({
            let stepped = sp_call(
                st_of(old(arena)@, old(out)@),
                value_view(*f),
                vals_view(args@),
                now,
                fuel as nat,
            );
            &&& st_of(final(arena)@, final(out)@) == stepped.0
            &&& res_matches(r, stepped.1)
        }),
        env_ok(final(arena)@),
        final(arena)@.len() >= old(arena)@.len(),
        r matches Ok(v) ==> val_ok(value_view(v), final(arena)@.len() as int),
    decreases fuel, value_view(*f),
{
    let ghost st0 = st_of(old(arena)@, old(out)@);
    let ghost fv = value_view(*f);
    let ghost argvs = vals_view(args@);
    match f {
        Value::BuiltinFunc(_name, arity, kind) => {
            if args.len() != *arity {
                Err(err_wrong_arg_count(*arity, args.len()))
            } else {
                match kind {
                    Builtin::Clock => crate::builtins::clock(now, &args),
                }
            }
        },
        Value::Func(_name, cenv, params, body) => {
            if params.len() != args.len() {
                Err(err_wrong_arg_count(params.len(), args.len()))
            } else {
                let ghost paramsv = tokens_view(params@);
                let newenv = arena.wrap(*cenv);
                proof {
                    lemma_state_ok_wrap(old(arena)@, *cenv as int);
                }
                let ghost envs_start = arena@;
                let mut j: usize = 0;
                proof {
                    assert(paramsv.skip(0) =~= paramsv);
                    assert(argvs.skip(0) =~= argvs);
                }
                while j < params.len()
                    invariant
                        j <= params@.len(),
                        params@.len() == args@.len(),
                        env_ok(arena@),
                        arena@.len() == envs_start.len(),
                        newenv < arena@.len(),
                        bind_params(envs_start, newenv as int, paramsv, argvs) == bind_params(
                            arena@,
                            newenv as int,
                            paramsv.skip(j as int),
                            argvs.skip(j as int),
                        ),
                    decreases params@.len() - j,
                {
                    proof {
                        assert(paramsv.skip(j as int)[0] == paramsv[j as int]);
                        assert(paramsv[j as int] == token_view(params@[j as int]));
                        assert(argvs.skip(j as int)[0] == argvs[j as int]);
                        assert(argvs[j as int] == value_view(args@[j as int]));
                        assert(paramsv.skip(j as int).drop_first() =~= paramsv.skip(j + 1));
                        assert(argvs.skip(j as int).drop_first() =~= argvs.skip(j + 1));
                        lemma_val_ok_mono(argvs[j as int], old(arena)@.len() as int, arena@.len() as int);
                        lemma_state_ok_insert(
                            arena@,
                            newenv as int,
                            paramsv[j as int].lexeme,
                            argvs[j as int],
                        );
                    }
                    let v = value_dup(&args[j]);
                    arena.insert(newenv, params[j].lexeme.as_str(), v);
                    j = j + 1;
                }
                proof {
                    assert(paramsv.skip(params@.len() as int) =~= Seq::<TokenV>::empty());
                }
                let res = interpret(arena, newenv, &**body, now, fuel, out);
                match res {
                    Ok(v) => match v {
                        Value::Return(x) => Ok(*x),
                        other => Ok(other),
                    },
                    Err(er) => Err(er),
                }
            }
        },
        _ => Err(err_not_callable(f)),
    }
}

/// Runs a statement against the arena and the output buffer, returning
/// exactly what the mathematical `sp_stmt` says.
#[verifier::loop_isolation(false)]
pub fn interpret(
    arena: &mut Environment,
    env: usize,
    s: &Stmt,
    now: i64,
    fuel: u64,
    out: &mut Vec<String>,
) -> (r: Result<Value, ErrorKind>)
    requires
        env_ok(old(arena)@),
        env < old(arena)@.len(),
        stmt_plain(stmt_view(*s)),
    ensures
        ({
            let stepped = sp_stmt(
                st_of(old(arena)@, old(out)@),
                env as int,
                stmt_view(*s),
                now,
                fuel as nat,
            );
            &&& st_of(final(arena)@, final(out)@) == stepped.0
            &&& res_matches(r, stepped.1)
        }),
        env_ok(final(arena)@),
        final(arena)@.len() >= old(arena)@.len(),
        r matches Ok(v) ==> res_ok(value_view(v), final(arena)@.len() as int),
    decreases fuel, stmt_view(*s),
{
    let ghost st0 = st_of(old(arena)@, old(out)@);
    let ghost sv = stmt_view(*s);
    match s {
        Stmt::Expr(e) => {
            let r1 = evaluate(arena, env, e, now, fuel, out);
            r1
        },
        Stmt::Print(e) => {
            let r1 = evaluate(arena, env, e, now, fuel, out);
            match r1 {
                Err(er) => Err(er),
                Ok(v) => {
                    let line = print_text(&v);
                    let ghost out_mid = out@;
                    out.push(line);
                    proof {
                        assert(out_view(out@) =~= out_view(out_mid).push(
                            print_view(value_view(v)),
                        ));
                    }
                    Ok(Value::Nil)
                },
            }
        },
        Stmt::Decl(id, e) => {
            let r1 = evaluate(arena, env, e, now, fuel, out);
            match r1 {
                Err(er) => Err(er),
                Ok(v) => {
                    proof {
                        lemma_state_ok_insert(arena@, env as int, id.name.lexeme@, value_view(v));
                    }
                    arena.insert(env, id.name.lexeme.as_str(), v);
                    Ok(Value::Nil)
                },
            }
        },
        Stmt::Block(ss) => {
            let newenv = arena.wrap(env);
            proof {
                lemma_state_ok_wrap(old(arena)@, env as int);
                lemma_stmts_view_index(ss@);
                lemma_stmts_plain_index(stmts_view(ss@));
            }
            let ghost ssv = stmts_view(ss@);
            let ghost st1 = st_of(arena@, out@);
            let mut res = Value::Nil;
            let mut i: usize = 0;
            proof {
                assert(ssv.skip(0) =~= ssv);
            }
            while i < ss.len()
                invariant
                    i <= ss@.len(),
                    env_ok(arena@),
                    arena@.len() >= st1.envs.len(),
                    newenv < arena@.len(),
                    val_ok(value_view(res), arena@.len() as int),
                    sp_stmts(st1, newenv as int, ssv, ValueV::Nil, now, fuel as nat) == sp_stmts(
                        st_of(arena@, out@),
                        newenv as int,
                        ssv.skip(i as int),
                        value_view(res),
                        now,
                        fuel as nat,
                    ),
                decreases ss@.len() - i,
            {
                proof {
                    assert(decreases_to!(sv => ssv));
                    assert(decreases_to!(ssv => ssv[i as int]));
                    assert(ssv[i as int] == stmt_view(ss@[i as int]));
                    assert(ssv.skip(i as int)[0] == ssv[i as int]);
                    assert(ssv.skip(i as int).drop_first() =~= ssv.skip(i + 1));
                }
                let r1 = interpret(arena, newenv, &ss[i], now, fuel, out);
                match r1 {
                    Err(er) => {
                        return Err(er);
                    },
                    Ok(v) => {
                        if matches!(v, Value::Return(_)) {
                            return Ok(v);
                        }
                        res = v;
                        i = i + 1;
                    },
                }
            }
            proof {
                assert(ssv.skip(ss@.len() as int) =~= Seq::<StmtV>::empty());
            }
            Ok(res)
        },
        Stmt::Return(e) => {
            let r1 = evaluate(arena, env, e, now, fuel, out);
            match r1 {
                Err(er) => Err(er),
                Ok(v) => Ok(Value::Return(Box::new(v))),
            }
        },
        Stmt::If(c, t, els) => {
            let r1 = evaluate(arena, env, c, now, fuel, out);
            match r1 {
                Err(er) => Err(er),
                Ok(v) => {
                    if v.is_truthy() {
                        interpret(arena, env, &**t, now, fuel, out)
                    } else {
                        match els {
                            Some(b) => interpret(arena, env, &**b, now, fuel, out),
                            None => Ok(Value::Nil),
                        }
                    }
                },
            }
        },
        Stmt::While(c, b) => {
            if fuel == 0 {
                Err(err_budget_exhausted())
            } else {
                interpret_while(arena, env, c, &**b, Value::Nil, now, fuel - 1, out)
            }
        },
        Stmt::Func(name, params, body) => {
            let func = Value::Func(
                token_dup(name),
                env,
                tokens_dup(params),
                Box::new(stmt_dup(&**body)),
            );
            proof {
                lemma_state_ok_insert(arena@, env as int, name.lexeme@, value_view(func));
            }
            arena.insert(env, name.lexeme.as_str(), func);
            Ok(Value::Nil)
        },
    }
}

/// One `while` loop, carrying the last body value, mirroring
/// `sp_while`'s fuel accounting.
fn interpret_while(
    arena: &mut Environment,
    env: usize,
    c: &Expr,
    b: &Stmt,
    prev: Value,
    now: i64,
    fuel: u64,
    out: &mut Vec<String>,
) -> (r: Result<Value, ErrorKind>)
    requires
        env_ok(old(arena)@),
        env < old(arena)@.len(),
        expr_plain(expr_view(*c)),
        stmt_plain(stmt_view(*b)),
        val_ok(value_view(prev), old(arena)@.len() as int),
    ensures
        ({
            let stepped = sp_while(
                st_of(old(arena)@, old(out)@),
                env as int,
                expr_view(*c),
                stmt_view(*b),
                value_view(prev),
                now,
                fuel as nat,
            );
            &&& st_of(final(arena)@, final(out)@) == stepped.0
            &&& res_matches(r, stepped.1)
        }),
        env_ok(final(arena)@),
        final(arena)@.len() >= old(arena)@.len(),
        r matches Ok(v) ==> res_ok(value_view(v), final(arena)@.len() as int),
    decreases fuel, stmt_view(*b),
{
    if fuel == 0 {
        return Err(err_budget_exhausted());
    }
    let f1 = fuel - 1;
    let rc = evaluate(arena, env, c, now, f1, out);
    match rc {
        Err(er) => Err(er),
        Ok(cv) => {
            if !cv.is_truthy() {
                Ok(prev)
            } else {
                let rb = interpret(arena, env, b, now, f1, out);
                match rb {
                    Err(er) => Err(er),
                    Ok(v) => {
                        if matches!(v, Value::Return(_)) {
                            Ok(v)
                        } else {
                            interpret_while(arena, env, c, b, v, now, f1, out)
                        }
                    },
                }
            }
        },
    }
}

} // verus!
