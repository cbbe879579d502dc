//! The language's general laws, stated over the mathematical models
//! and proved once and for all.

use vstd::prelude::*;
use crate::ast::{
    ValueV, ExprV, UnaryExprV, LogicalExprV, UnaryOperator, LogicalOperator, truthy,
};
use crate::scanner::{
    TokenV, TokenTypeV, scan_spec, scan_step, StepV, string_end, count_newlines, eof_token,
};
use crate::interpreter::{EnvNodeV, envs_wf, env_lookup, env_insert, bindings_lookup};
use crate::eval::{StateV, sp_expr, sp_call, bind_params};
use crate::render::val_display;

verus! {

/// Negation flips truthiness: `truthy(x) == !truthy(!x)` for every
/// value, where `!x` evaluates to `Bool(!truthy(x))`.  Whenever an
/// expression evaluates to `x`, wrapping it in `!` yields a value of
/// opposite truthiness, without touching the state.
pub proof fn law_truthy_negation(st: StateV, env: int, e: ExprV, now: i64, fuel: nat)
    ensures
        ({
            let (st1, r1) = sp_expr(st, env, e, now, fuel);
            r1 matches Ok(x) ==> {
                let bang = ExprV::Unary(Box::new(UnaryExprV { op: UnaryOperator::Bang, expr: e }));
                &&& sp_expr(st, env, bang, now, fuel) == (st1, Ok::<ValueV, Seq<char>>(
                    ValueV::Bool(!truthy(x)),
                ))
                &&& truthy(ValueV::Bool(!truthy(x))) == !truthy(x)
            }
        }),
{
}

/// Shadowing: a declaration in an inner scope mutates no outer
/// binding.  Scope chains only walk toward smaller indices, so a
/// lookup from any older scope is untouched by an insertion into a
/// younger one, whatever either name is.
pub proof fn law_shadowing(
    envs: Seq<EnvNodeV>,
    inner: int,
    outer: int,
    name: Seq<char>,
    probe: Seq<char>,
    v: ValueV,
)
    requires
        envs_wf(envs),
        0 <= outer < inner < envs.len(),
    ensures
        env_lookup(env_insert(envs, inner, name, v), outer, probe) == env_lookup(
            envs,
            outer,
            probe,
        ),
    decreases outer,
{
    let envs2 = env_insert(envs, inner, name, v);
    assert(envs2.len() == envs.len());
    assert(envs2[outer] == envs[outer]);
    assert forall|i: int|
        0 <= i < envs2.len() implies match (#[trigger] envs2[i]).parent {
        Some(p) => 0 <= p < i,
        None => true,
    } by {
        if i != inner {
            assert(envs2[i] == envs[i]);
        }
    }
    match bindings_lookup(envs[outer].bindings, probe) {
        Some(_) => {},
        None => {
            match envs[outer].parent {
                Some(p) => {
                    law_shadowing(envs, inner, p, name, probe, v);
                },
                None => {},
            }
        },
    }
}

/// Lexical capture: calling a function runs its body in a fresh scope
/// whose parent is the scope the function captured when it was
/// declared, never the caller's.  The fresh scope holds exactly the
/// parameter bindings.
pub proof fn law_lexical_capture(
    st: StateV,
    name: TokenV,
    cenv: int,
    params: Seq<TokenV>,
    body: Box<crate::ast::StmtV>,
    argvs: Seq<ValueV>,
    now: i64,
    fuel: nat,
)
    requires
        params.len() == argvs.len(),
    ensures
        ({
            let f = ValueV::Func(name, cenv, params, body);
            let frame = st.envs.len() as int;
            let envs3 = bind_params(
                crate::interpreter::env_wrap(st.envs, cenv),
                frame,
                params,
                argvs,
            );
            &&& envs3[frame].parent == Some(cenv)
            &&& sp_call(st, f, argvs, now, fuel) == ({
                let (st3, rb) = crate::eval::sp_stmt(
                    StateV { envs: envs3, out: st.out },
                    frame,
                    *body,
                    now,
                    fuel,
                );
                match rb {
                    Ok(v) => match v {
                        ValueV::Return(x) => (st3, Ok::<ValueV, Seq<char>>(*x)),
                        _ => (st3, Ok::<ValueV, Seq<char>>(v)),
                    },
                    Err(m) => (st3, Err::<ValueV, Seq<char>>(m)),
                }
            })
        }),
{
    let frame = st.envs.len() as int;
    let envs2 = crate::interpreter::env_wrap(st.envs, cenv);
    lemma_bind_params_parent(envs2, frame, params, argvs);
    assert(envs2[frame].parent == Some(cenv));
}

/// Binding parameters never changes which parent a scope has.
proof fn lemma_bind_params_parent(
    envs: Seq<EnvNodeV>,
    e: int,
    params: Seq<TokenV>,
    argvs: Seq<ValueV>,
)
    requires
        0 <= e < envs.len(),
    ensures
        bind_params(envs, e, params, argvs).len() == envs.len(),
        bind_params(envs, e, params, argvs)[e].parent == envs[e].parent,
    decreases params.len(),
{
    if params.len() == 0 || argvs.len() == 0 {
    } else {
        let envs1 = env_insert(envs, e, params[0].lexeme, argvs[0]);
        lemma_bind_params_parent(envs1, e, params.drop_first(), argvs.drop_first());
    }
}

/// Short-circuit: `and` and `or` evaluate their right operand exactly
/// when the left one does not already determine the outcome, and in
/// the short-circuit case the result is the left operand itself, not a
/// coerced boolean, with the state untouched beyond the left operand's
/// effects.
pub proof fn law_short_circuit(
    st: StateV,
    env: int,
    left: ExprV,
    op: LogicalOperator,
    right: ExprV,
    now: i64,
    fuel: nat,
)
    ensures
        ({
            let (st1, r1) = sp_expr(st, env, left, now, fuel);
            let node = ExprV::Logical(Box::new(LogicalExprV { left, op, right }));
            r1 matches Ok(lv) ==> {
                if (op == LogicalOperator::Or && truthy(lv)) || (op == LogicalOperator::And
                    && !truthy(lv)) {
                    sp_expr(st, env, node, now, fuel) == (st1, Ok::<ValueV, Seq<char>>(lv))
                } else {
                    sp_expr(st, env, node, now, fuel) == sp_expr(st1, env, right, now, fuel)
                }
            }
        }),
{
}

/// No escape mangling: scanning a quoted string yields one token that
/// carries exactly the text between the quotes, and the display form
/// of the resulting string value is exactly the original quoted text.
pub proof fn law_string_round_trip(s: Seq<char>)
    requires
        forall|i: int| 0 <= i < s.len() ==> s[i] != '"',
        forall|i: int| 0 <= i < s.len() ==> s[i] != '\n',
    ensures
        ({
            let src = seq!['"'] + s + seq!['"'];
            &&& scan_spec(src, 0, 1) == Ok::<Seq<TokenV>, (int, Seq<char>)>(
                seq![
                    TokenV { ty: TokenTypeV::String(s), lexeme: src, line: 1nat },
                    eof_token(1),
                ],
            )
            &&& val_display(ValueV::String(s)) == src
        }),
{
    let src = seq!['"'] + s + seq!['"'];
    assert(src.len() == s.len() + 2);
    assert(src[0] == '"');
    lemma_string_end(src, 1, s.len() as int + 1);
    assert(string_end(src, 1) == s.len() as int + 1);
    assert(src.subrange(1, s.len() as int + 1) =~= s);
    lemma_count_no_newlines(s);
    assert(count_newlines(src.subrange(1, s.len() as int + 1)) == 0);
    let step = scan_step(src, 0, 1);
    assert(step == StepV::Tok(
        TokenV { ty: TokenTypeV::String(s), lexeme: src.subrange(0, src.len() as int), line: 1nat },
        s.len() as int + 2,
        1,
    ));
    assert(src.subrange(0, src.len() as int) =~= src);
    assert(scan_spec(src, s.len() as int + 2, 1) == Ok::<Seq<TokenV>, (int, Seq<char>)>(
        seq![eof_token(1)],
    ));
    assert(seq![
        TokenV { ty: TokenTypeV::String(s), lexeme: src, line: 1nat },
    ] + seq![eof_token(1)] =~= seq![
        TokenV { ty: TokenTypeV::String(s), lexeme: src, line: 1nat },
        eof_token(1),
    ]);
    assert(val_display(ValueV::String(s)) =~= src);
}

/// The closing quote of a quote-free span is the string's end.
proof fn lemma_string_end(src: Seq<char>, j: int, e: int)
    requires
        0 <= j <= e < src.len(),
        src[e] == '"',
        forall|k: int| j <= k < e ==> src[k] != '"',
    ensures
        string_end(src, j) == e,
    decreases e - j,
{
    if j < e {
        lemma_string_end(src, j + 1, e);
    }
}

/// A newline-free text has no newlines to count.
proof fn lemma_count_no_newlines(s: Seq<char>)
    requires
        forall|i: int| 0 <= i < s.len() ==> s[i] != '\n',
    ensures
        count_newlines(s) == 0,
    decreases s.len(),
{
    if s.len() > 0 {
        lemma_count_no_newlines(s.drop_last());
    }
}

} // verus!
