//! The recursive-descent parser: tokens to a statement tree.
//!
//! One token of lookahead, left-associative binary chains, and
//! panic-mode recovery: after an error inside a declaration the parser
//! synchronizes to a statement boundary, and the error is reported.
//!
//! Contracts: parsing never runs past the closing `Eof`, consumes at
//! least one token whenever it succeeds, emits only plain syntax (its
//! literals are `nil`, booleans, numbers and strings), and a successful
//! `parse` consumes every token up to `Eof`.  A failure is always a
//! `ParseError`.

use vstd::prelude::*;
use crate::scanner::{Token, TokenType, TokenV, TokenTypeV, token_view, tokens_view, tt_view, tt_eq, token_dup};
use crate::ast::{
    Expr, Stmt, Value, Identifier, UnaryExpr, BinaryExpr, LogicalExpr, Grouping,
    UnaryOperator, LogicalOperator, BinaryOperator, StmtV, ExprV, ValueV, IdentifierV,
    UnaryExprV, BinaryExprV, LogicalExprV, GroupingV, expr_view, stmt_view,
    stmts_view, exprs_view,
};
use crate::eval::{expr_plain, stmt_plain, stmts_plain, exprs_plain};
use crate::errors::ErrorKind;

verus! {

broadcast use crate::ast::group_ast_views;

/// A scanned token stream: nonempty, ending with its only `Eof`.
pub open spec fn toks_wf(ts: Seq<Token>) -> bool {
    &&& ts.len() >= 1
    &&& tt_view(ts.last().ty) is Eof
    &&& forall|j: int| 0 <= j < ts.len() - 1 ==> !(tt_view((#[trigger] ts[j]).ty) is Eof)
}

/// Appending a statement keeps a statement sequence plain.
pub proof fn lemma_stmts_plain_push(ss: Seq<StmtV>, x: StmtV)
    requires
        stmts_plain(ss),
        stmt_plain(x),
    ensures
        stmts_plain(ss.push(x)),
    decreases ss.len(),
{
    if ss.len() == 0 {
        assert(ss.push(x)[0] == x);
        assert(ss.push(x).drop_first() =~= Seq::<StmtV>::empty());
        assert(stmts_plain(ss.push(x).drop_first()));
    } else {
        assert(ss.push(x)[0] == ss[0]);
        assert(stmt_plain(ss[0]));
        assert(ss.push(x).drop_first() =~= ss.drop_first().push(x));
        lemma_stmts_plain_push(ss.drop_first(), x);
        assert(stmts_plain(ss.push(x).drop_first()));
    }
}

/// Appending an expression keeps an expression sequence plain.
pub proof fn lemma_exprs_plain_push(es: Seq<ExprV>, x: ExprV)
    requires
        exprs_plain(es),
        expr_plain(x),
    ensures
        exprs_plain(es.push(x)),
    decreases es.len(),
{
    if es.len() == 0 {
        assert(es.push(x)[0] == x);
        assert(es.push(x).drop_first() =~= Seq::<ExprV>::empty());
        assert(exprs_plain(es.push(x).drop_first()));
    } else {
        assert(es.push(x)[0] == es[0]);
        assert(expr_plain(es[0]));
        assert(es.push(x).drop_first() =~= es.drop_first().push(x));
        lemma_exprs_plain_push(es.drop_first(), x);
        assert(exprs_plain(es.push(x).drop_first()));
    }
}

// ---------------------------------------------------------------------
// The parser's mathematical model.  One spec function per production,
// over the token models: each returns the parsed node and the position
// just past it, or the offending token with the message.  The
// executable productions below are verified to return exactly what
// these functions say.

/// One parsing step's outcome.
#[verifier::ext_equal]
pub enum PStep<T> {
    /// The parsed node and the next position.
    Next(T, int),
    /// The offending token and the message.
    Fail(TokenV, Seq<char>),
}

/// Positions fed back into recursion, kept monotone and in range so
/// that the recursion measures are evident; on streams the executable
/// parser accepts, the clamps never fire.
pub open spec fn bounded(j: int, lo: int, n: int) -> int {
    let p = if j < lo {
        lo
    } else {
        j
    };
    if p > n {
        n
    } else {
        p
    }
}

/// The token at a position, an `Eof` marker when out of range.
pub open spec fn tok_at(toks: Seq<TokenV>, j: int) -> TokenV {
    if 0 <= j < toks.len() {
        toks[j]
    } else {
        crate::scanner::eof_token(0)
    }
}

/// `nil | true | false | NUMBER | STRING | IDENT | ( expression )`
#[verifier::opaque]
pub open spec fn sp_primary(toks: Seq<TokenV>, i: int) -> PStep<ExprV>
    decreases toks.len() - i, 7int,
{
    let n = toks.len() as int;
    let t = tok_at(toks, i);
    match t.ty {
        TokenTypeV::Nil => PStep::Next(ExprV::Literal(ValueV::Nil), i + 1),
        TokenTypeV::False => PStep::Next(ExprV::Literal(ValueV::Bool(false)), i + 1),
        TokenTypeV::True => PStep::Next(ExprV::Literal(ValueV::Bool(true)), i + 1),
        TokenTypeV::Identifier => PStep::Next(
            ExprV::Variable(IdentifierV { name: t }),
            i + 1,
        ),
        TokenTypeV::Number(v) => PStep::Next(ExprV::Literal(ValueV::Number(v)), i + 1),
        TokenTypeV::String(sv) => PStep::Next(ExprV::Literal(ValueV::String(sv)), i + 1),
        TokenTypeV::LeftParen => match sp_expression(toks, bounded(i + 1, i + 1, n)) {
            PStep::Next(e, j) => {
                if tok_at(toks, j).ty is RightParen {
                    PStep::Next(ExprV::Grouping(Box::new(GroupingV { expr: e })), j + 1)
                } else {
                    PStep::Fail(tok_at(toks, j), "Expect \')\' after expression"@)
                }
            },
            PStep::Fail(t2, m) => PStep::Fail(t2, m),
        },
        _ => PStep::Fail(t, "Expect expression"@),
    }
}

/// `primary ( ( args? ) )*`
#[verifier::opaque]
pub open spec fn sp_call_e(toks: Seq<TokenV>, i: int) -> PStep<ExprV>
    decreases toks.len() - i, 8int,
{
    let n = toks.len() as int;
    if i < 0 || i >= n {
        PStep::Fail(crate::scanner::eof_token(0), Seq::empty())
    } else {
        match sp_primary(toks, i) {
            PStep::Next(e, j) => sp_call_rest(toks, bounded(j, i + 1, n), e),
            PStep::Fail(t, m) => PStep::Fail(t, m),
        }
    }
}

#[verifier::opaque]
pub open spec fn sp_call_rest(toks: Seq<TokenV>, q: int, callee: ExprV) -> PStep<ExprV>
    decreases toks.len() - q, 6int,
{
    let n = toks.len() as int;
    if q < n && tok_at(toks, q).ty is LeftParen {
        match sp_finish(toks, bounded(q + 1, q + 1, n), callee) {
            PStep::Next(e, k) => sp_call_rest(toks, bounded(k, q + 1, n), e),
            PStep::Fail(t, m) => PStep::Fail(t, m),
        }
    } else {
        PStep::Next(callee, q)
    }
}

/// The arguments of a call, the `(` already consumed.
#[verifier::opaque]
pub open spec fn sp_finish(toks: Seq<TokenV>, i: int, callee: ExprV) -> PStep<ExprV>
    decreases toks.len() - i, 20int,
{
    let n = toks.len() as int;
    if i < 0 || i >= n {
        PStep::Fail(crate::scanner::eof_token(0), Seq::empty())
    } else {
        if tok_at(toks, i).ty is RightParen {
            PStep::Next(ExprV::Call(Box::new(callee), Seq::empty()), i + 1)
        } else {
            match sp_expression(toks, i) {
                PStep::Next(a0, j) => sp_args_rest(toks, bounded(j, i + 1, n), callee, seq![a0]),
                PStep::Fail(t, m) => PStep::Fail(t, m),
            }
        }
    }
}

#[verifier::opaque]
pub open spec fn sp_args_rest(
    toks: Seq<TokenV>,
    q: int,
    callee: ExprV,
    acc: Seq<ExprV>,
) -> PStep<ExprV>
    decreases toks.len() - q, 6int,
{
    let n = toks.len() as int;
    if q < n && tok_at(toks, q).ty is Comma {
        match sp_expression(toks, bounded(q + 1, q + 1, n)) {
            PStep::Next(a, k) => sp_args_rest(toks, bounded(k, q + 2, n), callee, acc.push(a)),
            PStep::Fail(t, m) => PStep::Fail(t, m),
        }
    } else if tok_at(toks, q).ty is RightParen {
        PStep::Next(ExprV::Call(Box::new(callee), acc), q + 1)
    } else {
        PStep::Fail(tok_at(toks, q), "Expect \')\' after arguments"@)
    }
}

/// `(!|-) unary | call`
#[verifier::opaque]
pub open spec fn sp_unary(toks: Seq<TokenV>, i: int) -> PStep<ExprV>
    decreases toks.len() - i, 9int,
{
    let n = toks.len() as int;
    if i < 0 || i >= n {
        PStep::Fail(crate::scanner::eof_token(0), Seq::empty())
    } else {
        let t = tok_at(toks, i);
        if t.ty is Minus || t.ty is Bang {
            let op = if t.ty is Minus {
                UnaryOperator::Minus
            } else {
                UnaryOperator::Bang
            };
            match sp_unary(toks, bounded(i + 1, i + 1, n)) {
                PStep::Next(e, j) => PStep::Next(
                    ExprV::Unary(Box::new(UnaryExprV { op, expr: e })),
                    j,
                ),
                PStep::Fail(t2, m) => PStep::Fail(t2, m),
            }
        } else {
            sp_call_e(toks, i)
        }
    }
}

/// `unary ( (/|*) unary )*`, folded left.
#[verifier::opaque]
pub open spec fn sp_multiplication(toks: Seq<TokenV>, i: int) -> PStep<ExprV>
    decreases toks.len() - i, 10int,
{
    let n = toks.len() as int;
    if i < 0 || i >= n {
        PStep::Fail(crate::scanner::eof_token(0), Seq::empty())
    } else {
        match sp_unary(toks, i) {
            PStep::Next(l, j) => sp_mul_rest(toks, bounded(j, i + 1, n), l),
            PStep::Fail(t, m) => PStep::Fail(t, m),
        }
    }
}

#[verifier::opaque]
pub open spec fn sp_mul_rest(toks: Seq<TokenV>, q: int, acc: ExprV) -> PStep<ExprV>
    decreases toks.len() - q, 6int,
{
    let n = toks.len() as int;
    let t = tok_at(toks, q);
    if q < n && (t.ty is Slash || t.ty is Star) {
        let op = if t.ty is Slash {
            BinaryOperator::Slash
        } else {
            BinaryOperator::Star
        };
        match sp_unary(toks, bounded(q + 1, q + 1, n)) {
            PStep::Next(r, k) => sp_mul_rest(
                toks,
                bounded(k, q + 2, n),
                ExprV::Binary(Box::new(BinaryExprV { left: acc, op, right: r })),
            ),
            PStep::Fail(t2, m) => PStep::Fail(t2, m),
        }
    } else {
        PStep::Next(acc, q)
    }
}

/// `multiplication ( (-|+) multiplication )*`, folded left.
#[verifier::opaque]
pub open spec fn sp_addition(toks: Seq<TokenV>, i: int) -> PStep<ExprV>
    decreases toks.len() - i, 11int,
{
    let n = toks.len() as int;
    if i < 0 || i >= n {
        PStep::Fail(crate::scanner::eof_token(0), Seq::empty())
    } else {
        match sp_multiplication(toks, i) {
            PStep::Next(l, j) => sp_add_rest(toks, bounded(j, i + 1, n), l),
            PStep::Fail(t, m) => PStep::Fail(t, m),
        }
    }
}

#[verifier::opaque]
pub open spec fn sp_add_rest(toks: Seq<TokenV>, q: int, acc: ExprV) -> PStep<ExprV>
    decreases toks.len() - q, 6int,
{
    let n = toks.len() as int;
    let t = tok_at(toks, q);
    if q < n && (t.ty is Minus || t.ty is Plus) {
        let op = if t.ty is Minus {
            BinaryOperator::Minus
        } else {
            BinaryOperator::Plus
        };
        match sp_multiplication(toks, bounded(q + 1, q + 1, n)) {
            PStep::Next(r, k) => sp_add_rest(
                toks,
                bounded(k, q + 2, n),
                ExprV::Binary(Box::new(BinaryExprV { left: acc, op, right: r })),
            ),
            PStep::Fail(t2, m) => PStep::Fail(t2, m),
        }
    } else {
        PStep::Next(acc, q)
    }
}

/// `addition ( (<|<=|>|>=) addition )*`, folded left.
#[verifier::opaque]
pub open spec fn sp_comparison(toks: Seq<TokenV>, i: int) -> PStep<ExprV>
    decreases toks.len() - i, 12int,
{
    let n = toks.len() as int;
    if i < 0 || i >= n {
        PStep::Fail(crate::scanner::eof_token(0), Seq::empty())
    } else {
        match sp_addition(toks, i) {
            PStep::Next(l, j) => sp_cmp_rest(toks, bounded(j, i + 1, n), l),
            PStep::Fail(t, m) => PStep::Fail(t, m),
        }
    }
}

pub open spec fn cmp_op_of(t: TokenTypeV) -> Option<BinaryOperator> {
    match t {
        TokenTypeV::Greater => Some(BinaryOperator::Greater),
        TokenTypeV::GreaterEqual => Some(BinaryOperator::GreaterEqual),
        TokenTypeV::Less => Some(BinaryOperator::Less),
        TokenTypeV::LessEqual => Some(BinaryOperator::LessEqual),
        _ => None,
    }
}

#[verifier::opaque]
pub open spec fn sp_cmp_rest(toks: Seq<TokenV>, q: int, acc: ExprV) -> PStep<ExprV>
    decreases toks.len() - q, 6int,
{
    let n = toks.len() as int;
    match cmp_op_of(tok_at(toks, q).ty) {
        Some(op) => {
            if q < n {
                match sp_addition(toks, bounded(q + 1, q + 1, n)) {
                    PStep::Next(r, k) => sp_cmp_rest(
                        toks,
                        bounded(k, q + 2, n),
                        ExprV::Binary(Box::new(BinaryExprV { left: acc, op, right: r })),
                    ),
                    PStep::Fail(t2, m) => PStep::Fail(t2, m),
                }
            } else {
                PStep::Next(acc, q)
            }
        },
        None => PStep::Next(acc, q),
    }
}

/// `comparison ( (!=|==) comparison )*`, folded left.
#[verifier::opaque]
pub open spec fn sp_equality(toks: Seq<TokenV>, i: int) -> PStep<ExprV>
    decreases toks.len() - i, 13int,
{
    let n = toks.len() as int;
    if i < 0 || i >= n {
        PStep::Fail(crate::scanner::eof_token(0), Seq::empty())
    } else {
        match sp_comparison(toks, i) {
            PStep::Next(l, j) => sp_eq_rest(toks, bounded(j, i + 1, n), l),
            PStep::Fail(t, m) => PStep::Fail(t, m),
        }
    }
}

#[verifier::opaque]
pub open spec fn sp_eq_rest(toks: Seq<TokenV>, q: int, acc: ExprV) -> PStep<ExprV>
    decreases toks.len() - q, 6int,
{
    let n = toks.len() as int;
    let t = tok_at(toks, q);
    if q < n && (t.ty is BangEqual || t.ty is EqualEqual) {
        let op = if t.ty is BangEqual {
            BinaryOperator::BangEqual
        } else {
            BinaryOperator::EqualEqual
        };
        match sp_comparison(toks, bounded(q + 1, q + 1, n)) {
            PStep::Next(r, k) => sp_eq_rest(
                toks,
                bounded(k, q + 2, n),
                ExprV::Binary(Box::new(BinaryExprV { left: acc, op, right: r })),
            ),
            PStep::Fail(t2, m) => PStep::Fail(t2, m),
        }
    } else {
        PStep::Next(acc, q)
    }
}

/// `equality ( and equality )*`, folded left.
#[verifier::opaque]
pub open spec fn sp_and(toks: Seq<TokenV>, i: int) -> PStep<ExprV>
    decreases toks.len() - i, 14int,
{
    let n = toks.len() as int;
    if i < 0 || i >= n {
        PStep::Fail(crate::scanner::eof_token(0), Seq::empty())
    } else {
        match sp_equality(toks, i) {
            PStep::Next(l, j) => sp_and_rest(toks, bounded(j, i + 1, n), l),
            PStep::Fail(t, m) => PStep::Fail(t, m),
        }
    }
}

#[verifier::opaque]
pub open spec fn sp_and_rest(toks: Seq<TokenV>, q: int, acc: ExprV) -> PStep<ExprV>
    decreases toks.len() - q, 6int,
{
    let n = toks.len() as int;
    if q < n && tok_at(toks, q).ty is And {
        match sp_equality(toks, bounded(q + 1, q + 1, n)) {
            PStep::Next(r, k) => sp_and_rest(
                toks,
                bounded(k, q + 2, n),
                ExprV::Logical(
                    Box::new(LogicalExprV { left: acc, op: LogicalOperator::And, right: r }),
                ),
            ),
            PStep::Fail(t2, m) => PStep::Fail(t2, m),
        }
    } else {
        PStep::Next(acc, q)
    }
}

/// `logic_and ( or logic_and )*`, folded left.
#[verifier::opaque]
pub open spec fn sp_or(toks: Seq<TokenV>, i: int) -> PStep<ExprV>
    decreases toks.len() - i, 15int,
{
    let n = toks.len() as int;
    if i < 0 || i >= n {
        PStep::Fail(crate::scanner::eof_token(0), Seq::empty())
    } else {
        match sp_and(toks, i) {
            PStep::Next(l, j) => sp_or_rest(toks, bounded(j, i + 1, n), l),
            PStep::Fail(t, m) => PStep::Fail(t, m),
        }
    }
}

#[verifier::opaque]
pub open spec fn sp_or_rest(toks: Seq<TokenV>, q: int, acc: ExprV) -> PStep<ExprV>
    decreases toks.len() - q, 6int,
{
    let n = toks.len() as int;
    if q < n && tok_at(toks, q).ty is Or {
        match sp_and(toks, bounded(q + 1, q + 1, n)) {
            PStep::Next(r, k) => sp_or_rest(
                toks,
                bounded(k, q + 2, n),
                ExprV::Logical(
                    Box::new(LogicalExprV { left: acc, op: LogicalOperator::Or, right: r }),
                ),
            ),
            PStep::Fail(t2, m) => PStep::Fail(t2, m),
        }
    } else {
        PStep::Next(acc, q)
    }
}

/// The `= assignment` tail: the `=` stands at `j`; only a bare
/// variable may stand on the left.
#[verifier::opaque]
pub open spec fn sp_assign_tail(toks: Seq<TokenV>, j: int, l: ExprV) -> PStep<ExprV>
    decreases toks.len() - j, 6int,
{
    let n = toks.len() as int;
    if j < 0 || j >= n {
        PStep::Fail(crate::scanner::eof_token(0), Seq::empty())
    } else {
    match sp_assignment(toks, bounded(j + 1, j + 1, n)) {
        PStep::Next(v, k) => match l {
            ExprV::Variable(id) => PStep::Next(ExprV::Assign(id, Box::new(v)), k),
            _ => PStep::Fail(
                tok_at(toks, j),
                "Invalid assignment target: "@ + crate::render::expr_display(l),
            ),
        },
        PStep::Fail(t, m) => PStep::Fail(t, m),
    }    }
}

/// `IDENT = assignment | logic_or`
#[verifier::opaque]
pub open spec fn sp_assignment(toks: Seq<TokenV>, i: int) -> PStep<ExprV>
    decreases toks.len() - i, 16int,
{
    let n = toks.len() as int;
    if i < 0 || i >= n {
        PStep::Fail(crate::scanner::eof_token(0), Seq::empty())
    } else {
        match sp_or(toks, i) {
            PStep::Next(l, j0) => {
                let j = bounded(j0, i + 1, n);
                if j < n && tok_at(toks, j).ty is Equal {
                    sp_assign_tail(toks, j, l)
                } else {
                    PStep::Next(l, j0)
                }
            },
            PStep::Fail(t, m) => PStep::Fail(t, m),
        }
    }
}

/// Any expression.
#[verifier::opaque]
pub open spec fn sp_expression(toks: Seq<TokenV>, i: int) -> PStep<ExprV>
    decreases toks.len() - i, 17int,
{
    sp_assignment(toks, i)
}

/// A statement's end: a `;`, waived when the stream is at `Eof`.
/// Yields the position after the terminator.
#[verifier::opaque]
pub open spec fn sp_end_stmt(toks: Seq<TokenV>, k: int, msg: Seq<char>) -> PStep<int> {
    if tok_at(toks, k).ty is Eof {
        PStep::Next(k, k)
    } else if tok_at(toks, k).ty is Semicolon {
        PStep::Next(k + 1, k + 1)
    } else {
        PStep::Fail(tok_at(toks, k), msg)
    }
}

/// `expression ;` (the semicolon is waived at `Eof`).
#[verifier::opaque]
pub open spec fn sp_expr_stmt(toks: Seq<TokenV>, i: int) -> PStep<StmtV>
    decreases toks.len() - i, 20int,
{
    match sp_expression(toks, i) {
        PStep::Next(e, j) => match sp_end_stmt(toks, j, "Expect \';\' after value."@) {
            PStep::Next(_, k) => PStep::Next(StmtV::Expr(e), k),
            PStep::Fail(t, m) => PStep::Fail(t, m),
        },
        PStep::Fail(t, m) => PStep::Fail(t, m),
    }
}

/// `print expression ;` (the semicolon is waived at `Eof`).
#[verifier::opaque]
pub open spec fn sp_print_stmt(toks: Seq<TokenV>, i: int) -> PStep<StmtV>
    decreases toks.len() - i, 20int,
{
    match sp_expression(toks, i) {
        PStep::Next(e, j) => match sp_end_stmt(toks, j, "Expect \';\' after value."@) {
            PStep::Next(_, k) => PStep::Next(StmtV::Print(e), k),
            PStep::Fail(t, m) => PStep::Fail(t, m),
        },
        PStep::Fail(t, m) => PStep::Fail(t, m),
    }
}

/// `return expression? ;`, a bare return yielding `nil`.
#[verifier::opaque]
pub open spec fn sp_return_stmt(toks: Seq<TokenV>, i: int) -> PStep<StmtV>
    decreases toks.len() - i, 20int,
{
    if tok_at(toks, i).ty is Semicolon {
        PStep::Next(StmtV::Return(ExprV::Literal(ValueV::Nil)), i + 1)
    } else {
        match sp_expression(toks, i) {
            PStep::Next(e, j) => {
                if tok_at(toks, j).ty is Semicolon {
                    PStep::Next(StmtV::Return(e), j + 1)
                } else {
                    PStep::Fail(tok_at(toks, j), "Exprect \';\' after return statement."@)
                }
            },
            PStep::Fail(t, m) => PStep::Fail(t, m),
        }
    }
}

/// `( expression )`, with the two messages of the construct around it.
#[verifier::opaque]
pub open spec fn sp_paren_expr(
    toks: Seq<TokenV>,
    i: int,
    open_msg: Seq<char>,
    close_msg: Seq<char>,
) -> PStep<ExprV>
    decreases toks.len() - i, 19int,
{
    let n = toks.len() as int;
    if i < 0 || i >= n {
        PStep::Fail(crate::scanner::eof_token(0), Seq::empty())
    } else if !(tok_at(toks, i).ty is LeftParen) {
        PStep::Fail(tok_at(toks, i), open_msg)
    } else {
        match sp_expression(toks, bounded(i + 1, i + 1, n)) {
            PStep::Next(c, j) => {
                if tok_at(toks, j).ty is RightParen {
                    PStep::Next(c, j + 1)
                } else {
                    PStep::Fail(tok_at(toks, j), close_msg)
                }
            },
            PStep::Fail(t, m) => PStep::Fail(t, m),
        }
    }
}

/// `while ( expression ) statement`
#[verifier::opaque]
pub open spec fn sp_while_stmt(toks: Seq<TokenV>, i: int) -> PStep<StmtV>
    decreases toks.len() - i, 20int,
{
    let n = toks.len() as int;
    if i < 0 || i >= n {
        PStep::Fail(crate::scanner::eof_token(0), Seq::empty())
    } else {
    match sp_paren_expr(
        toks,
        i,
        "Expect \'(\' after \'while\'."@,
        "Expect \')\' after while condition."@,
    ) {
        PStep::Next(c, j) => match sp_statement(toks, bounded(j, i + 1, n)) {
            PStep::Next(b, k) => PStep::Next(StmtV::While(c, Box::new(b)), k),
            PStep::Fail(t, m) => PStep::Fail(t, m),
        },
        PStep::Fail(t, m) => PStep::Fail(t, m),
    }    }
}

/// `if ( expression ) statement ( else statement )?`
#[verifier::opaque]
pub open spec fn sp_if_stmt(toks: Seq<TokenV>, i: int) -> PStep<StmtV>
    decreases toks.len() - i, 20int,
{
    let n = toks.len() as int;
    if i < 0 || i >= n {
        PStep::Fail(crate::scanner::eof_token(0), Seq::empty())
    } else {
    match sp_paren_expr(
        toks,
        i,
        "Expect \'(\' after \'if\'."@,
        "Expect \')\' after if condition."@,
    ) {
        PStep::Next(c, j) => match sp_statement(toks, bounded(j, i + 1, n)) {
            PStep::Next(t_branch, k) => {
                if tok_at(toks, k).ty is Else {
                    match sp_statement(toks, bounded(k + 1, i + 2, n)) {
                        PStep::Next(e_branch, k2) => PStep::Next(
                            StmtV::If(c, Box::new(t_branch), Some(Box::new(e_branch))),
                            k2,
                        ),
                        PStep::Fail(t, m) => PStep::Fail(t, m),
                    }
                } else {
                    PStep::Next(StmtV::If(c, Box::new(t_branch), None), k)
                }
            },
            PStep::Fail(t, m) => PStep::Fail(t, m),
        },
        PStep::Fail(t, m) => PStep::Fail(t, m),
    }    }
}

/// `for ( init? ; cond? ; inc? ) statement`, desugared to a block with
/// a `while`; a missing condition defaults to `true`.
#[verifier::opaque]
pub open spec fn sp_for_stmt(toks: Seq<TokenV>, i: int) -> PStep<StmtV>
    decreases toks.len() - i, 20int,
{
    let n = toks.len() as int;
    if i < 0 || i >= n {
        PStep::Fail(crate::scanner::eof_token(0), Seq::empty())
    } else if !(tok_at(toks, i).ty is LeftParen) {
        PStep::Fail(tok_at(toks, i), "Expect \'(\' after \'for\'."@)
    } else {
        let p1 = bounded(i + 1, i + 1, n);
        let init_step: PStep<Option<StmtV>> = if tok_at(toks, p1).ty is Semicolon {
            PStep::Next(None, p1 + 1)
        } else if tok_at(toks, p1).ty is Var {
            match sp_var_decl(toks, bounded(p1 + 1, p1 + 1, n)) {
                PStep::Next(st, j) => PStep::Next(Some(st), j),
                PStep::Fail(t, m) => PStep::Fail(t, m),
            }
        } else {
            match sp_expr_stmt(toks, p1) {
                PStep::Next(st, j) => PStep::Next(Some(st), j),
                PStep::Fail(t, m) => PStep::Fail(t, m),
            }
        };
        match init_step {
            PStep::Fail(t, m) => PStep::Fail(t, m),
            PStep::Next(init, j) => {
                let cond_step: PStep<ExprV> = if !(tok_at(toks, j).ty is Semicolon) {
                    sp_expression(toks, bounded(j, i + 1, n))
                } else {
                    PStep::Next(ExprV::Literal(ValueV::Bool(true)), j)
                };
                match cond_step {
                    PStep::Fail(t, m) => PStep::Fail(t, m),
                    PStep::Next(cond, k) => {
                        if !(tok_at(toks, k).ty is Semicolon) {
                            PStep::Fail(tok_at(toks, k), "Expect \';\' after loop condition."@)
                        } else {
                            let k1 = k + 1;
                            let inc_step: PStep<Option<ExprV>> = if !(tok_at(toks, k1).ty
                                is RightParen) {
                                match sp_expression(toks, bounded(k1, i + 1, n)) {
                                    PStep::Next(e, p) => PStep::Next(Some(e), p),
                                    PStep::Fail(t, m) => PStep::Fail(t, m),
                                }
                            } else {
                                PStep::Next(None, k1)
                            };
                            match inc_step {
                                PStep::Fail(t, m) => PStep::Fail(t, m),
                                PStep::Next(inc, p) => {
                                    if !(tok_at(toks, p).ty is RightParen) {
                                        PStep::Fail(
                                            tok_at(toks, p),
                                            "Expect \')\' after for clauses."@,
                                        )
                                    } else {
                                        match sp_statement(toks, bounded(p + 1, i + 2, n)) {
                                            PStep::Fail(t, m) => PStep::Fail(t, m),
                                            PStep::Next(body0, z) => PStep::Next(
                                                for_desugar(init, cond, inc, body0),
                                                z,
                                            ),
                                        }
                                    }
                                },
                            }
                        }
                    },
                }
            },
        }
    }
}

/// The `for` desugaring: the increment joins the body in a block, the
/// `while` wraps them, the initializer leads an outer block.
#[verifier::opaque]
pub open spec fn for_desugar(
    init: Option<StmtV>,
    cond: ExprV,
    inc: Option<ExprV>,
    body0: StmtV,
) -> StmtV {
    let body1 = match inc {
        Some(e) => StmtV::Block(seq![body0, StmtV::Expr(e)]),
        None => body0,
    };
    let body2 = StmtV::While(cond, Box::new(body1));
    match init {
        Some(s) => StmtV::Block(seq![s, body2]),
        None => body2,
    }
}

/// `var IDENT ( = expression )? ;` (the semicolon is waived at `Eof`).
#[verifier::opaque]
pub open spec fn sp_var_decl(toks: Seq<TokenV>, i: int) -> PStep<StmtV>
    decreases toks.len() - i, 20int,
{
    let n = toks.len() as int;
    if !(tok_at(toks, i).ty is Identifier) {
        PStep::Fail(tok_at(toks, i), "Expect variable name."@)
    } else {
        let name = tok_at(toks, i);
        let j = i + 1;
        let init_step: PStep<ExprV> = if tok_at(toks, j).ty is Equal {
            sp_expression(toks, bounded(j + 1, j + 1, n))
        } else {
            PStep::Next(ExprV::Literal(ValueV::Nil), j)
        };
        match init_step {
            PStep::Fail(t, m) => PStep::Fail(t, m),
            PStep::Next(e, k) => match sp_end_stmt(
                toks,
                k,
                "Expect \';\' after variable declaration."@,
            ) {
                PStep::Next(_, k2) => PStep::Next(StmtV::Decl(IdentifierV { name }, e), k2),
                PStep::Fail(t, m) => PStep::Fail(t, m),
            },
        }
    }
}

/// The parameter names after the first: `( , IDENT )*`.
#[verifier::opaque]
pub open spec fn sp_params_more(toks: Seq<TokenV>, q: int, acc: Seq<TokenV>) -> PStep<
    Seq<TokenV>,
>
    decreases toks.len() - q, 6int,
{
    let n = toks.len() as int;
    if 0 <= q < n && tok_at(toks, q).ty is Comma {
        if tok_at(toks, q + 1).ty is Identifier {
            sp_params_more(toks, bounded(q + 2, q + 1, n), acc.push(tok_at(toks, q + 1)))
        } else {
            PStep::Fail(tok_at(toks, q + 1), "Expect identifier name."@)
        }
    } else {
        PStep::Next(acc, q)
    }
}

/// `fun IDENT ( params? ) block`
#[verifier::opaque]
pub open spec fn sp_fun_decl(toks: Seq<TokenV>, i: int) -> PStep<StmtV>
    decreases toks.len() - i, 20int,
{
    let n = toks.len() as int;
    if i < 0 || i >= n {
        PStep::Fail(crate::scanner::eof_token(0), Seq::empty())
    } else if !(tok_at(toks, i).ty is Identifier) {
        PStep::Fail(tok_at(toks, i), "Expect function name."@)
    } else {
        let name = tok_at(toks, i);
        if !(tok_at(toks, i + 1).ty is LeftParen) {
            PStep::Fail(tok_at(toks, i + 1), "Expect \'(\' after function name."@)
        } else {
            let p = i + 2;
            let params_step: PStep<Seq<TokenV>> = if tok_at(toks, p).ty is RightParen {
                PStep::Next(Seq::empty(), p)
            } else if tok_at(toks, p).ty is Identifier {
                sp_params_more(toks, bounded(p + 1, p + 1, n), seq![tok_at(toks, p)])
            } else {
                PStep::Fail(tok_at(toks, p), "Expect identifier name."@)
            };
            match params_step {
                PStep::Fail(t, m) => PStep::Fail(t, m),
                PStep::Next(params, k) => {
                    if !(tok_at(toks, k).ty is RightParen) {
                        PStep::Fail(tok_at(toks, k), "Expect \')\' after parameters"@)
                    } else if !(tok_at(toks, k + 1).ty is LeftBrace) {
                        PStep::Fail(tok_at(toks, k + 1), "Expect \'{\' before function body"@)
                    } else {
                        match sp_block(toks, bounded(k + 2, i + 3, n)) {
                            PStep::Fail(t, m) => PStep::Fail(t, m),
                            PStep::Next(body, z) => PStep::Next(
                                StmtV::Func(name, params, Box::new(body)),
                                z,
                            ),
                        }
                    }
                },
            }
        }
    }
}

/// `{ declaration* }`, the opening brace already consumed.
#[verifier::opaque]
pub open spec fn sp_block(toks: Seq<TokenV>, i: int) -> PStep<StmtV>
    decreases toks.len() - i, 24int,
{
    match sp_block_items(toks, i, Seq::empty()) {
        PStep::Next(ss, k) => {
            if tok_at(toks, k).ty is RightBrace {
                PStep::Next(StmtV::Block(ss), k + 1)
            } else {
                PStep::Fail(tok_at(toks, k), "Expect \'}\' after block."@)
            }
        },
        PStep::Fail(t, m) => PStep::Fail(t, m),
    }
}

#[verifier::opaque]
pub open spec fn sp_block_items(toks: Seq<TokenV>, i: int, acc: Seq<StmtV>) -> PStep<
    Seq<StmtV>,
>
    decreases toks.len() - i, 23int,
{
    let n = toks.len() as int;
    if tok_at(toks, i).ty is Eof || tok_at(toks, i).ty is RightBrace {
        PStep::Next(acc, i)
    } else {
        match sp_declaration(toks, i) {
            PStep::Next(sv, j) => sp_block_items(toks, bounded(j, i + 1, n), acc.push(sv)),
            PStep::Fail(t, m) => PStep::Fail(t, m),
        }
    }
}

/// One statement, by its leading keyword.
#[verifier::opaque]
pub open spec fn sp_statement(toks: Seq<TokenV>, i: int) -> PStep<StmtV>
    decreases toks.len() - i, 21int,
{
    let n = toks.len() as int;
    let t = tok_at(toks, i);
    if t.ty is Print {
        sp_print_stmt(toks, bounded(i + 1, i + 1, n))
    } else if t.ty is LeftBrace {
        sp_block(toks, bounded(i + 1, i + 1, n))
    } else if t.ty is While {
        sp_while_stmt(toks, bounded(i + 1, i + 1, n))
    } else if t.ty is Return {
        sp_return_stmt(toks, bounded(i + 1, i + 1, n))
    } else if t.ty is For {
        sp_for_stmt(toks, bounded(i + 1, i + 1, n))
    } else if t.ty is If {
        sp_if_stmt(toks, bounded(i + 1, i + 1, n))
    } else {
        sp_expr_stmt(toks, i)
    }
}

/// One declaration: `var`, `fun`, or a statement.
#[verifier::opaque]
pub open spec fn sp_declaration(toks: Seq<TokenV>, i: int) -> PStep<StmtV>
    decreases toks.len() - i, 22int,
{
    let n = toks.len() as int;
    let t = tok_at(toks, i);
    if t.ty is Var {
        sp_var_decl(toks, bounded(i + 1, i + 1, n))
    } else if t.ty is Fun {
        sp_fun_decl(toks, bounded(i + 1, i + 1, n))
    } else {
        sp_statement(toks, i)
    }
}

/// The whole program: declarations up to `Eof`, or the first error.
#[verifier::opaque]
pub open spec fn sp_parse(toks: Seq<TokenV>, i: int, acc: Seq<StmtV>) -> PStep<Seq<StmtV>>
    decreases toks.len() - i, 23int,
{
    let n = toks.len() as int;
    if tok_at(toks, i).ty is Eof {
        PStep::Next(acc, i)
    } else {
        match sp_declaration(toks, i) {
            PStep::Next(sv, j) => sp_parse(toks, bounded(j, i + 1, n), acc.push(sv)),
            PStep::Fail(t, m) => PStep::Fail(t, m),
        }
    }
}

/// A token tag that begins a statement: a recovery boundary.
pub open spec fn boundary_tag(t: TokenTypeV) -> bool {
    ||| t is Class
    ||| t is Fun
    ||| t is Var
    ||| t is Print
    ||| t is For
    ||| t is If
    ||| t is While
    ||| t is Return
}

pub struct Parser {
    pub tokens: Vec<Token>,
    pub current: usize,
}

/// The parser's standing invariant: a well-formed stream, the cursor
/// on a token.
pub open spec fn pwf(p: Parser) -> bool {
    &&& toks_wf(p.tokens@)
    &&& p.current < p.tokens@.len()
}

impl Parser {
    pub fn new(tokens: Vec<Token>) -> (p: Parser)
        ensures
            p.tokens@ == tokens@,
            p.current == 0,
    {
        Parser { tokens, current: 0 }
    }

    fn previous(&self) -> (t: &Token)
        requires
            pwf(*self),
            self.current >= 1,
        ensures
            *t == self.tokens@[self.current as int - 1],
    {
        &self.tokens[self.current - 1]
    }

    fn is_at_end(&self) -> (r: bool)
        requires
            pwf(*self),
        ensures
            r == (tt_view(self.tokens@[self.current as int].ty) is Eof),
            r == (self.current == self.tokens@.len() - 1),
    {
        let r = tt_eq(&self.tokens[self.current].ty, &TokenType::Eof);
        proof {
            if self.current < self.tokens@.len() - 1 {
                assert(!(tt_view(self.tokens@[self.current as int].ty) is Eof));
            } else {
                assert(self.tokens@[self.current as int] == self.tokens@.last());
            }
        }
        r
    }

    fn check(&self, ty: &TokenType) -> (r: bool)
        requires
            pwf(*self),
        ensures
            r == (tt_view(self.tokens@[self.current as int].ty) == tt_view(*ty)),
    {
        tt_eq(&self.tokens[self.current].ty, ty)
    }

    /// Consumes the current token when its tag matches; never consumes
    /// the closing `Eof`.
    fn match_one(&mut self, ty: &TokenType) -> (r: bool)
        requires
            pwf(*old(self)),
            !(tt_view(*ty) is Eof),
        ensures
            pwf(*final(self)),
            final(self).tokens@ == old(self).tokens@,
            if tt_view(old(self).tokens@[old(self).current as int].ty) == tt_view(*ty) {
                r && final(self).current == old(self).current + 1
            } else {
                !r && final(self).current == old(self).current
            },
    {
        if self.check(ty) {
            let n = self.tokens.len();
            proof {
                assert(self.current != self.tokens@.len() - 1);
            }
            self.current = self.current + 1;
            true
        } else {
            false
        }
    }

    /// Demands the current token's tag; hands the token back.
    fn consume(&mut self, ty: TokenType, error: &str) -> (r: Result<Token, ErrorKind>)
        requires
            pwf(*old(self)),
            !(tt_view(ty) is Eof),
        ensures
            pwf(*final(self)),
            final(self).tokens@ == old(self).tokens@,
            match r {
                Ok(t) => {
                    &&& tt_view(old(self).tokens@[old(self).current as int].ty) == tt_view(ty)
                    &&& token_view(t) == token_view(old(self).tokens@[old(self).current as int])
                    &&& final(self).current == old(self).current + 1
                },
                Err(e) => {
                    &&& e matches ErrorKind::ParseError { tok, t }
                    &&& !(tt_view(old(self).tokens@[old(self).current as int].ty) == tt_view(ty))
                    &&& (e matches ErrorKind::ParseError { tok, t } ==> token_view(tok)
                        == token_view(old(self).tokens@[old(self).current as int]) && t@
                        == error@)
                    &&& final(self).current == old(self).current
                },
            },
    {
        if self.check(&ty) {
            let n = self.tokens.len();
            proof {
                assert(self.current != self.tokens@.len() - 1);
            }
            let result = token_dup(&self.tokens[self.current]);
            self.current = self.current + 1;
            Ok(result)
        } else {
            Err(
                ErrorKind::ParseError {
                    tok: token_dup(&self.tokens[self.current]),
                    t: error.to_owned(),
                },
            )
        }
    }


    /// A statement's end: consumes a `;`, waived at `Eof`, exactly as
    /// `sp_end_stmt` says.
    fn end_stmt(&mut self, error: &str) -> (r: Result<(), ErrorKind>)
        requires
            pwf(*old(self)),
        ensures
            pwf(*final(self)),
            final(self).tokens@ == old(self).tokens@,
            final(self).current >= old(self).current,
            match r {
                Ok(_) => sp_end_stmt(
                    tokens_view(old(self).tokens@),
                    old(self).current as int,
                    error@,
                ) == PStep::Next(final(self).current as int, final(self).current as int),
                Err(e) => {
                    &&& e matches ErrorKind::ParseError { tok, t } && sp_end_stmt(
                        tokens_view(old(self).tokens@),
                        old(self).current as int,
                        error@,
                    ) == (PStep::<int>::Fail(token_view(tok), t@))
                },
            },
    {
        proof {
            reveal(sp_end_stmt);
        }
        let ghost toks = tokens_view(old(self).tokens@);
        proof {
            assert(tok_at(toks, old(self).current as int) == token_view(
                old(self).tokens@[old(self).current as int],
            ));
        }
        if !self.is_at_end() {
            match self.consume(TokenType::Semicolon, error) {
                Ok(_) => {},
                Err(e) => {
                    return Err(e);
                },
            }
        }
        Ok(())
    }

    /// `( expression )`, exactly as `sp_paren_expr` says.
    fn paren_expr(&mut self, open_msg: &str, close_msg: &str) -> (r: Result<Expr, ErrorKind>)
        requires
            pwf(*old(self)),
        ensures
            pwf(*final(self)),
            final(self).tokens@ == old(self).tokens@,
            final(self).current >= old(self).current,
            match r {
                Ok(e) => {
                    &&& expr_plain(expr_view(e))
                    &&& final(self).current > old(self).current
                    &&& sp_paren_expr(
                        tokens_view(old(self).tokens@),
                        old(self).current as int,
                        open_msg@,
                        close_msg@,
                    ) == PStep::Next(expr_view(e), final(self).current as int)
                },
                Err(e) => {
                    &&& e matches ErrorKind::ParseError { tok, t } && sp_paren_expr(
                        tokens_view(old(self).tokens@),
                        old(self).current as int,
                        open_msg@,
                        close_msg@,
                    ) == (PStep::<ExprV>::Fail(token_view(tok), t@))
                },
            },
        decreases self.tokens@.len() - self.current, 19int,
    {
        proof {
            reveal(sp_paren_expr);
        }
        let ghost toks = tokens_view(old(self).tokens@);
        proof {
            assert(tok_at(toks, old(self).current as int) == token_view(
                old(self).tokens@[old(self).current as int],
            ));
        }
        match self.consume(TokenType::LeftParen, open_msg) {
            Ok(_) => {},
            Err(e) => {
                return Err(e);
            },
        }
        let cond = match self.expression() {
            Ok(e) => e,
            Err(e) => {
                return Err(e);
            },
        };
        proof {
            assert(tok_at(toks, self.current as int) == token_view(
                self.tokens@[self.current as int],
            ));
        }
        match self.consume(TokenType::RightParen, close_msg) {
            Ok(_) => {},
            Err(e) => {
                return Err(e);
            },
        }
        Ok(cond)
    }

    /// Discards tokens to a statement boundary: it stops just past a
    /// `;`, before a keyword that begins a statement, or at `Eof`.
    fn synchronize(&mut self)
        requires
            pwf(*old(self)),
        ensures
            pwf(*final(self)),
            final(self).tokens@ == old(self).tokens@,
            final(self).current >= old(self).current,
            ({
                let c = final(self).current as int;
                let ts = final(self).tokens@;
                ||| c == ts.len() - 1
                ||| (c >= 1 && tt_view(ts[c - 1].ty) is Semicolon)
                ||| boundary_tag(tt_view(ts[c].ty))
            }),
    {
        while !self.is_at_end()
            invariant
                pwf(*self),
                self.tokens@ == old(self).tokens@,
                self.current >= old(self).current,
            decreases self.tokens@.len() - self.current,
        {
            let n = self.tokens.len();
            proof {
                assert(self.current != self.tokens@.len() - 1);
            }
            self.current = self.current + 1;
            if tt_eq(&self.previous().ty, &TokenType::Semicolon) {
                return ;
            }
            let next_is_boundary = {
                let t = &self.tokens[self.current].ty;
                tt_eq(t, &TokenType::Class) || tt_eq(t, &TokenType::Fun) || tt_eq(
                    t,
                    &TokenType::Var,
                ) || tt_eq(t, &TokenType::Print) || tt_eq(t, &TokenType::For) || tt_eq(
                    t,
                    &TokenType::If,
                ) || tt_eq(t, &TokenType::While) || tt_eq(t, &TokenType::Return)
            };
            if next_is_boundary {
                return ;
            }
        }
    }

    /// The whole program: declarations up to `Eof`, or the first error,
    /// exactly as `sp_parse` says.
    #[verifier::rlimit(100)]
    #[verifier::spinoff_prover]
    #[verifier::loop_isolation(false)]
    pub fn parse(&mut self) -> (r: Result<Vec<Stmt>, ErrorKind>)
        requires
            pwf(*old(self)),
        ensures
            pwf(*final(self)),
            final(self).tokens@ == old(self).tokens@,
            match r {
                Ok(stmts) => {
                    &&& final(self).current == final(self).tokens@.len() - 1
                    &&& stmts_plain(stmts_view(stmts@))
                    &&& (stmts@.len() == 0 <==> old(self).current == old(self).tokens@.len() - 1)
                    &&& sp_parse(
                        tokens_view(old(self).tokens@),
                        old(self).current as int,
                        Seq::empty(),
                    ) == PStep::Next(stmts_view(stmts@), final(self).current as int)
                },
                Err(e) => {
                    &&& e matches ErrorKind::ParseError { tok, t } && sp_parse(
                        tokens_view(old(self).tokens@),
                        old(self).current as int,
                        Seq::empty(),
                    ) == (PStep::<Seq<StmtV>>::Fail(token_view(tok), t@))
                },
            },
    {
        proof {
            reveal(sp_parse);
        }
        let ghost toks = tokens_view(old(self).tokens@);
        let mut statements: Vec<Stmt> = Vec::new();
        proof {
            assert(stmts_view(statements@) =~= Seq::<StmtV>::empty());
        }
        while !self.is_at_end()
            invariant
                pwf(*self),
                self.tokens@ == old(self).tokens@,
                stmts_plain(stmts_view(statements@)),
                statements@.len() == 0 ==> self.current == old(self).current,
                old(self).current == old(self).tokens@.len() - 1 ==> statements@.len() == 0,
                self.current >= old(self).current,
                sp_parse(toks, old(self).current as int, Seq::empty()) == sp_parse(
                    toks,
                    self.current as int,
                    stmts_view(statements@),
                ),
            decreases self.tokens@.len() - self.current,
        {
            proof {
                assert(tok_at(toks, self.current as int) == token_view(
                    self.tokens@[self.current as int],
                ));
            }
            let ghost acc = stmts_view(statements@);
            let ghost cur0 = self.current as int;
            match self.declaration() {
                Ok(stmt) => {
                    let ghost sv = stmt_view(stmt);
                    let ghost s0 = statements@;
                    proof {
                        lemma_stmts_plain_push(acc, sv);
                    }
                    statements.push(stmt);
                    proof {
                        assert(statements@.drop_last() =~= s0);
                        assert(statements@.last() == stmt);
                        assert(stmts_view(statements@) == acc.push(sv));
                        assert(bounded(self.current as int, cur0 + 1, toks.len() as int)
                            == self.current as int);
                    }
                },
                Err(e) => {
                    return Err(e);
                },
            }
        }
        proof {
            assert(tok_at(toks, self.current as int) == token_view(
                self.tokens@[self.current as int],
            ));
        }
        Ok(statements)
    }

    /// One declaration: `var`, `fun`, or a statement, exactly as
    /// `sp_declaration` says; on an error the parser synchronizes
    /// before reporting it.
    #[verifier::rlimit(100)]
    #[verifier::spinoff_prover]
    fn declaration(&mut self) -> (r: Result<Stmt, ErrorKind>)
        requires
            pwf(*old(self)),
        ensures
            pwf(*final(self)),
            final(self).tokens@ == old(self).tokens@,
            final(self).current >= old(self).current,
            match r {
                Ok(stmt) => {
                    &&& stmt_plain(stmt_view(stmt))
                    &&& final(self).current > old(self).current
                    &&& sp_declaration(tokens_view(old(self).tokens@), old(self).current as int)
                        == PStep::Next(stmt_view(stmt), final(self).current as int)
                },
                Err(e) => {
                    &&& e matches ErrorKind::ParseError { tok, t } && sp_declaration(
                        tokens_view(old(self).tokens@),
                        old(self).current as int,
                    ) == (PStep::<StmtV>::Fail(token_view(tok), t@))
                },
            },
        decreases self.tokens@.len() - self.current, 22int,
    {
        proof {
            reveal(sp_declaration);
        }
        let ghost toks = tokens_view(old(self).tokens@);
        proof {
            assert(tok_at(toks, old(self).current as int) == token_view(
                old(self).tokens@[old(self).current as int],
            ));
        }
        let res = if self.match_one(&TokenType::Var) {
            self.var_declaration()
        } else if self.match_one(&TokenType::Fun) {
            self.fun_declaration()
        } else {
            self.statement()
        };
        match res {
            Ok(stmt) => Ok(stmt),
            Err(e) => {
                self.synchronize();
                Err(e)
            },
        }
    }

    /// `var IDENT ( = expression )? ;`, exactly as `sp_var_decl` says.
    #[verifier::rlimit(100)]
    #[verifier::spinoff_prover]
    fn var_declaration(&mut self) -> (r: Result<Stmt, ErrorKind>)
        requires
            pwf(*old(self)),
        ensures
            pwf(*final(self)),
            final(self).tokens@ == old(self).tokens@,
            final(self).current >= old(self).current,
            match r {
                Ok(stmt) => {
                    &&& stmt_plain(stmt_view(stmt))
                    &&& sp_var_decl(tokens_view(old(self).tokens@), old(self).current as int)
                        == PStep::Next(stmt_view(stmt), final(self).current as int)
                },
                Err(e) => {
                    &&& e matches ErrorKind::ParseError { tok, t } && sp_var_decl(
                        tokens_view(old(self).tokens@),
                        old(self).current as int,
                    ) == (PStep::<StmtV>::Fail(token_view(tok), t@))
                },
            },
        decreases self.tokens@.len() - self.current, 20int,
    {
        proof {
            reveal(sp_var_decl);
        }
        let ghost toks = tokens_view(old(self).tokens@);
        let ghost i0 = old(self).current as int;
        proof {
            assert(tok_at(toks, i0) == token_view(old(self).tokens@[i0]));
        }
        let name = match self.consume(TokenType::Identifier, "Expect variable name.") {
            Ok(t) => t,
            Err(e) => {
                return Err(e);
            },
        };
        proof {
            assert(tok_at(toks, i0 + 1) == token_view(old(self).tokens@[i0 + 1]));
        }
        let initializer = if self.match_one(&TokenType::Equal) {
            match self.expression() {
                Ok(e) => e,
                Err(e) => {
                    return Err(e);
                },
            }
        } else {
            Expr::Literal(Value::Nil)
        };
        match self.end_stmt("Expect ';' after variable declaration.") {
            Ok(_) => {},
            Err(e) => {
                return Err(e);
            },
        }
        Ok(Stmt::Decl(Identifier { name }, initializer))
    }

    /// `fun IDENT ( params? ) block`, exactly as `sp_fun_decl` says.
    #[verifier::rlimit(100)]
    #[verifier::spinoff_prover]
    #[verifier::loop_isolation(false)]
    fn fun_declaration(&mut self) -> (r: Result<Stmt, ErrorKind>)
        requires
            pwf(*old(self)),
        ensures
            pwf(*final(self)),
            final(self).tokens@ == old(self).tokens@,
            final(self).current >= old(self).current,
            match r {
                Ok(stmt) => {
                    &&& stmt_plain(stmt_view(stmt))
                    &&& sp_fun_decl(tokens_view(old(self).tokens@), old(self).current as int)
                        == PStep::Next(stmt_view(stmt), final(self).current as int)
                },
                Err(e) => {
                    &&& e matches ErrorKind::ParseError { tok, t } && sp_fun_decl(
                        tokens_view(old(self).tokens@),
                        old(self).current as int,
                    ) == (PStep::<StmtV>::Fail(token_view(tok), t@))
                },
            },
        decreases self.tokens@.len() - self.current, 20int,
    {
        proof {
            reveal(sp_fun_decl);
            reveal(sp_params_more);
        }
        let ghost toks = tokens_view(old(self).tokens@);
        let ghost i0 = old(self).current as int;
        proof {
            assert(tok_at(toks, i0) == token_view(old(self).tokens@[i0]));
        }
        let name = match self.consume(TokenType::Identifier, "Expect function name.") {
            Ok(t) => t,
            Err(e) => {
                return Err(e);
            },
        };
        proof {
            assert(tok_at(toks, i0 + 1) == token_view(old(self).tokens@[i0 + 1]));
        }
        match self.consume(TokenType::LeftParen, "Expect '(' after function name.") {
            Ok(_) => {},
            Err(e) => {
                return Err(e);
            },
        }
        proof {
            assert(tok_at(toks, i0 + 2) == token_view(old(self).tokens@[i0 + 2]));
        }
        let ghost pfull = if tok_at(toks, i0 + 2).ty is RightParen {
            PStep::<Seq<TokenV>>::Next(Seq::empty(), i0 + 2)
        } else if tok_at(toks, i0 + 2).ty is Identifier {
            sp_params_more(toks, bounded(i0 + 3, i0 + 3, toks.len() as int), seq![tok_at(toks, i0 + 2)])
        } else {
            PStep::<Seq<TokenV>>::Fail(tok_at(toks, i0 + 2), "Expect identifier name."@)
        };
        let mut params: Vec<Token> = Vec::new();
        if !self.check(&TokenType::RightParen) {
            match self.consume(TokenType::Identifier, "Expect identifier name.") {
                Ok(t) => {
                    params.push(t);
                },
                Err(e) => {
                    return Err(e);
                },
            }
            proof {
                assert(tokens_view(params@) =~= seq![tok_at(toks, i0 + 2)]);
            }
            while self.match_one(&TokenType::Comma)
                invariant
                    pwf(*self),
                    self.tokens@ == old(self).tokens@,
                    self.current > i0 + 2,
                    pfull == sp_params_more(toks, self.current as int, tokens_view(params@)),
                decreases self.tokens@.len() - self.current,
            {
                proof {
                    assert(tok_at(toks, self.current as int - 1) == token_view(
                        self.tokens@[self.current as int - 1],
                    ));
                    assert(tok_at(toks, self.current as int) == token_view(
                        self.tokens@[self.current as int],
                    ));
                }
                let ghost p0 = params@;
                match self.consume(TokenType::Identifier, "Expect identifier name.") {
                    Ok(t) => {
                        params.push(t);
                        proof {
                            assert(params@.drop_last() =~= p0);
                            assert(tokens_view(params@) =~= tokens_view(p0).push(
                                tok_at(toks, self.current as int - 1),
                            ));
                        }
                    },
                    Err(e) => {
                        return Err(e);
                    },
                }
            }
            proof {
                assert(tok_at(toks, self.current as int) == token_view(
                    self.tokens@[self.current as int],
                ));
            }
        }
        match self.consume(TokenType::RightParen, "Expect ')' after parameters") {
            Ok(_) => {},
            Err(e) => {
                return Err(e);
            },
        }
        proof {
            assert(tok_at(toks, self.current as int) == token_view(
                self.tokens@[self.current as int],
            ));
        }
        match self.consume(TokenType::LeftBrace, "Expect '{' before function body") {
            Ok(_) => {},
            Err(e) => {
                return Err(e);
            },
        }
        let block = match self.block() {
            Ok(b) => b,
            Err(e) => {
                return Err(e);
            },
        };
        Ok(Stmt::Func(name, params, Box::new(block)))
    }

    /// One statement, by its leading keyword, exactly as
    /// `sp_statement` says.
    #[verifier::rlimit(100)]
    #[verifier::spinoff_prover]
    fn statement(&mut self) -> (r: Result<Stmt, ErrorKind>)
        requires
            pwf(*old(self)),
        ensures
            pwf(*final(self)),
            final(self).tokens@ == old(self).tokens@,
            final(self).current >= old(self).current,
            match r {
                Ok(stmt) => {
                    &&& stmt_plain(stmt_view(stmt))
                    &&& final(self).current > old(self).current
                    &&& sp_statement(tokens_view(old(self).tokens@), old(self).current as int)
                        == PStep::Next(stmt_view(stmt), final(self).current as int)
                },
                Err(e) => {
                    &&& e matches ErrorKind::ParseError { tok, t } && sp_statement(
                        tokens_view(old(self).tokens@),
                        old(self).current as int,
                    ) == (PStep::<StmtV>::Fail(token_view(tok), t@))
                },
            },
        decreases self.tokens@.len() - self.current, 21int,
    {
        proof {
            reveal(sp_statement);
        }
        let ghost toks = tokens_view(old(self).tokens@);
        proof {
            assert(tok_at(toks, old(self).current as int) == token_view(
                old(self).tokens@[old(self).current as int],
            ));
        }
        if self.match_one(&TokenType::Print) {
            self.print_statement()
        } else if self.match_one(&TokenType::LeftBrace) {
            self.block()
        } else if self.match_one(&TokenType::While) {
            self.while_stmt()
        } else if self.match_one(&TokenType::Return) {
            self.return_stmt()
        } else if self.match_one(&TokenType::For) {
            self.for_stmt()
        } else if self.match_one(&TokenType::If) {
            self.if_statement()
        } else {
            self.expression_statement()
        }
    }

    /// `print expression ;`, exactly as `sp_print_stmt` says.
    #[verifier::rlimit(100)]
    #[verifier::spinoff_prover]
    fn print_statement(&mut self) -> (r: Result<Stmt, ErrorKind>)
        requires
            pwf(*old(self)),
        ensures
            pwf(*final(self)),
            final(self).tokens@ == old(self).tokens@,
            final(self).current >= old(self).current,
            match r {
                Ok(stmt) => {
                    &&& stmt_plain(stmt_view(stmt))
                    &&& sp_print_stmt(tokens_view(old(self).tokens@), old(self).current as int)
                        == PStep::Next(stmt_view(stmt), final(self).current as int)
                },
                Err(e) => {
                    &&& e matches ErrorKind::ParseError { tok, t } && sp_print_stmt(
                        tokens_view(old(self).tokens@),
                        old(self).current as int,
                    ) == (PStep::<StmtV>::Fail(token_view(tok), t@))
                },
            },
        decreases self.tokens@.len() - self.current, 20int,
    {
        proof {
            reveal(sp_print_stmt);
        }
        let ghost toks = tokens_view(old(self).tokens@);
        let expr = match self.expression() {
            Ok(e) => e,
            Err(e) => {
                return Err(e);
            },
        };
        match self.end_stmt("Expect ';' after value.") {
            Ok(_) => {},
            Err(e) => {
                return Err(e);
            },
        }
        Ok(Stmt::Print(expr))
    }

    /// `{ declaration* }` (the brace already consumed), exactly as
    /// `sp_block` says.
    #[verifier::rlimit(100)]
    #[verifier::spinoff_prover]
    #[verifier::loop_isolation(false)]
    fn block(&mut self) -> (r: Result<Stmt, ErrorKind>)
        requires
            pwf(*old(self)),
        ensures
            pwf(*final(self)),
            final(self).tokens@ == old(self).tokens@,
            final(self).current >= old(self).current,
            match r {
                Ok(stmt) => {
                    &&& stmt_plain(stmt_view(stmt))
                    &&& final(self).current > old(self).current
                    &&& sp_block(tokens_view(old(self).tokens@), old(self).current as int)
                        == PStep::Next(stmt_view(stmt), final(self).current as int)
                },
                Err(e) => {
                    &&& e matches ErrorKind::ParseError { tok, t } && sp_block(
                        tokens_view(old(self).tokens@),
                        old(self).current as int,
                    ) == (PStep::<StmtV>::Fail(token_view(tok), t@))
                },
            },
        decreases self.tokens@.len() - self.current, 24int,
    {
        proof {
            reveal(sp_block);
            reveal(sp_block_items);
        }
        let ghost toks = tokens_view(old(self).tokens@);
        let mut stmts: Vec<Stmt> = Vec::new();
        proof {
            assert(stmts_view(stmts@) =~= Seq::<StmtV>::empty());
        }
        loop
            invariant
                pwf(*self),
                self.tokens@ == old(self).tokens@,
                self.current >= old(self).current,
                stmts_plain(stmts_view(stmts@)),
                sp_block_items(toks, old(self).current as int, Seq::empty()) == sp_block_items(
                    toks,
                    self.current as int,
                    stmts_view(stmts@),
                ),
            decreases self.tokens@.len() - self.current,
        {
            proof {
                assert(tok_at(toks, self.current as int) == token_view(
                    self.tokens@[self.current as int],
                ));
            }
            if self.is_at_end() || self.check(&TokenType::RightBrace) {
                break ;
            }
            let ghost acc = stmts_view(stmts@);
            let ghost cur0 = self.current as int;
            match self.declaration() {
                Ok(stmt) => {
                    let ghost sv = stmt_view(stmt);
                    let ghost s0 = stmts@;
                    proof {
                        lemma_stmts_plain_push(acc, sv);
                    }
                    stmts.push(stmt);
                    proof {
                        assert(stmts@.drop_last() =~= s0);
                        assert(stmts@.last() == stmt);
                        assert(stmts_view(stmts@) == acc.push(sv));
                        assert(bounded(self.current as int, cur0 + 1, toks.len() as int)
                            == self.current as int);
                    }
                },
                Err(e) => {
                    return Err(e);
                },
            }
        }
        proof {
            assert(tok_at(toks, self.current as int) == token_view(
                self.tokens@[self.current as int],
            ));
        }
        match self.consume(TokenType::RightBrace, "Expect '}' after block.") {
            Ok(_) => {},
            Err(e) => {
                return Err(e);
            },
        }
        Ok(Stmt::Block(stmts))
    }

    /// `while ( expression ) statement`, exactly as `sp_while_stmt`
    /// says.
    #[verifier::rlimit(100)]
    #[verifier::spinoff_prover]
    fn while_stmt(&mut self) -> (r: Result<Stmt, ErrorKind>)
        requires
            pwf(*old(self)),
        ensures
            pwf(*final(self)),
            final(self).tokens@ == old(self).tokens@,
            final(self).current >= old(self).current,
            match r {
                Ok(stmt) => {
                    &&& stmt_plain(stmt_view(stmt))
                    &&& sp_while_stmt(tokens_view(old(self).tokens@), old(self).current as int)
                        == PStep::Next(stmt_view(stmt), final(self).current as int)
                },
                Err(e) => {
                    &&& e matches ErrorKind::ParseError { tok, t } && sp_while_stmt(
                        tokens_view(old(self).tokens@),
                        old(self).current as int,
                    ) == (PStep::<StmtV>::Fail(token_view(tok), t@))
                },
            },
        decreases self.tokens@.len() - self.current, 20int,
    {
        proof {
            reveal(sp_while_stmt);
        }
        let ghost toks = tokens_view(old(self).tokens@);
        let cond = match self.paren_expr(
            "Expect '(' after 'while'.",
            "Expect ')' after while condition.",
        ) {
            Ok(e) => e,
            Err(e) => {
                return Err(e);
            },
        };
        let stmt = match self.statement() {
            Ok(s) => s,
            Err(e) => {
                return Err(e);
            },
        };
        Ok(Stmt::While(cond, Box::new(stmt)))
    }

    /// `return expression? ;`, a bare return yielding `nil`, exactly as
    /// `sp_return_stmt` says.
    #[verifier::rlimit(100)]
    #[verifier::spinoff_prover]
    fn return_stmt(&mut self) -> (r: Result<Stmt, ErrorKind>)
        requires
            pwf(*old(self)),
        ensures
            pwf(*final(self)),
            final(self).tokens@ == old(self).tokens@,
            final(self).current >= old(self).current,
            match r {
                Ok(stmt) => {
                    &&& stmt_plain(stmt_view(stmt))
                    &&& sp_return_stmt(tokens_view(old(self).tokens@), old(self).current as int)
                        == PStep::Next(stmt_view(stmt), final(self).current as int)
                },
                Err(e) => {
                    &&& e matches ErrorKind::ParseError { tok, t } && sp_return_stmt(
                        tokens_view(old(self).tokens@),
                        old(self).current as int,
                    ) == (PStep::<StmtV>::Fail(token_view(tok), t@))
                },
            },
        decreases self.tokens@.len() - self.current, 20int,
    {
        proof {
            reveal(sp_return_stmt);
        }
        let ghost toks = tokens_view(old(self).tokens@);
        proof {
            assert(tok_at(toks, old(self).current as int) == token_view(
                old(self).tokens@[old(self).current as int],
            ));
        }
        let expr = if self.check(&TokenType::Semicolon) {
            Expr::Literal(Value::Nil)
        } else {
            match self.expression() {
                Ok(e) => e,
                Err(e) => {
                    return Err(e);
                },
            }
        };
        proof {
            assert(tok_at(toks, self.current as int) == token_view(
                self.tokens@[self.current as int],
            ));
        }
        match self.consume(TokenType::Semicolon, "Exprect ';' after return statement.") {
            Ok(_) => {},
            Err(e) => {
                return Err(e);
            },
        }
        Ok(Stmt::Return(expr))
    }

    /// Builds the `for` desugaring, exactly `for_desugar` of the parts.
    #[verifier::rlimit(100)]
    #[verifier::spinoff_prover]
    fn build_for(init: Option<Stmt>, cond: Expr, inc: Option<Expr>, body: Stmt) -> (r: Stmt)
        requires
            (init matches Some(s) ==> stmt_plain(stmt_view(s))),
            expr_plain(expr_view(cond)),
            (inc matches Some(e) ==> expr_plain(expr_view(e))),
            stmt_plain(stmt_view(body)),
        ensures
            stmt_view(r) == for_desugar(
                match init {
                    Some(s) => Some(stmt_view(s)),
                    None => None,
                },
                expr_view(cond),
                match inc {
                    Some(e) => Some(expr_view(e)),
                    None => None,
                },
                stmt_view(body),
            ),
            stmt_plain(stmt_view(r)),
    {
        proof {
            reveal(for_desugar);
        }
        let ghost condv = expr_view(cond);
        let ghost body0v = stmt_view(body);
        let mut out = body;
        proof {
            assert(stmt_plain(stmt_view(out)));
        }
        if let Some(inc) = inc {
            let mut steps: Vec<Stmt> = Vec::new();
            let ghost bodyv = stmt_view(out);
            let ghost incv = expr_view(inc);
            steps.push(out);
            let ghost st1 = steps@;
            steps.push(Stmt::Expr(inc));
            proof {
                assert(st1.drop_last() =~= Seq::<Stmt>::empty());
                assert(stmts_view(st1.drop_last()) =~= Seq::<StmtV>::empty());
                assert(stmt_view(st1.last()) == bodyv);
                assert(stmts_view(st1) =~= Seq::<StmtV>::empty().push(bodyv));
                assert(steps@.drop_last() =~= st1);
                assert(stmt_view(steps@.last()) == StmtV::Expr(incv));
                assert(stmts_view(steps@) =~= Seq::<StmtV>::empty().push(bodyv).push(
                    StmtV::Expr(incv),
                ));
                assert(stmts_view(steps@) =~= seq![bodyv, StmtV::Expr(incv)]);
                assert(stmts_plain(Seq::<StmtV>::empty()));
                lemma_stmts_plain_push(Seq::<StmtV>::empty(), bodyv);
                lemma_stmts_plain_push(Seq::<StmtV>::empty().push(bodyv), StmtV::Expr(incv));
            }
            out = Stmt::Block(steps);
            proof {
                assert(stmt_view(out) == StmtV::Block(seq![body0v, StmtV::Expr(incv)]));
            }
        }
        let ghost prev = stmt_view(out);
        proof {
            assert(stmt_plain(prev));
        }
        out = Stmt::While(cond, Box::new(out));
        proof {
            assert(stmt_view(out) == StmtV::While(condv, Box::new(prev)));
            assert(stmt_plain(stmt_view(out)));
        }
        if let Some(init) = init {
            let mut steps: Vec<Stmt> = Vec::new();
            let ghost initv = stmt_view(init);
            let ghost bodyv = stmt_view(out);
            steps.push(init);
            let ghost st1 = steps@;
            steps.push(out);
            proof {
                assert(st1.drop_last() =~= Seq::<Stmt>::empty());
                assert(stmts_view(st1.drop_last()) =~= Seq::<StmtV>::empty());
                assert(stmt_view(st1.last()) == initv);
                assert(stmts_view(st1) =~= Seq::<StmtV>::empty().push(initv));
                assert(steps@.drop_last() =~= st1);
                assert(stmt_view(steps@.last()) == bodyv);
                assert(stmts_view(steps@) =~= Seq::<StmtV>::empty().push(initv).push(bodyv));
                assert(stmts_view(steps@) =~= seq![initv, bodyv]);
                assert(stmts_plain(Seq::<StmtV>::empty()));
                lemma_stmts_plain_push(Seq::<StmtV>::empty(), initv);
                lemma_stmts_plain_push(Seq::<StmtV>::empty().push(initv), bodyv);
            }
            out = Stmt::Block(steps);
        }
        out
    }

    /// `for ( init? ; cond? ; inc? ) statement`, desugared to a block
    /// with a `while`, exactly as `sp_for_stmt` says.
    #[verifier::loop_isolation(false)]
        #[verifier::rlimit(100)]
    #[verifier::spinoff_prover]
    fn for_stmt(&mut self) -> (r: Result<Stmt, ErrorKind>)
        requires
            pwf(*old(self)),
        ensures
            pwf(*final(self)),
            final(self).tokens@ == old(self).tokens@,
            final(self).current >= old(self).current,
            match r {
                Ok(stmt) => {
                    &&& stmt_plain(stmt_view(stmt))
                    &&& sp_for_stmt(tokens_view(old(self).tokens@), old(self).current as int)
                        == PStep::Next(stmt_view(stmt), final(self).current as int)
                },
                Err(e) => {
                    &&& e matches ErrorKind::ParseError { tok, t } && sp_for_stmt(
                        tokens_view(old(self).tokens@),
                        old(self).current as int,
                    ) == (PStep::<StmtV>::Fail(token_view(tok), t@))
                },
            },
        decreases self.tokens@.len() - self.current, 20int,
    {
        proof {
            reveal(sp_for_stmt);
        }
        let ghost toks = tokens_view(old(self).tokens@);
        let ghost i0 = old(self).current as int;
        proof {
            assert(tok_at(toks, i0) == token_view(old(self).tokens@[i0]));
        }
        match self.consume(TokenType::LeftParen, "Expect '(' after 'for'.") {
            Ok(_) => {},
            Err(e) => {
                return Err(e);
            },
        }
        proof {
            assert(tok_at(toks, i0 + 1) == token_view(old(self).tokens@[i0 + 1]));
        }
        let initializer = if self.match_one(&TokenType::Semicolon) {
            None
        } else if self.match_one(&TokenType::Var) {
            match self.var_declaration() {
                Ok(s) => Some(s),
                Err(e) => {
                    return Err(e);
                },
            }
        } else {
            match self.expression_statement() {
                Ok(s) => Some(s),
                Err(e) => {
                    return Err(e);
                },
            }
        };
        proof {
            assert(tok_at(toks, self.current as int) == token_view(
                self.tokens@[self.current as int],
            ));
        }
        let cond = if !self.check(&TokenType::Semicolon) {
            match self.expression() {
                Ok(e) => e,
                Err(e) => {
                    return Err(e);
                },
            }
        } else {
            Expr::Literal(Value::Bool(true))
        };
        proof {
            assert(expr_plain(expr_view(cond)));
            assert(tok_at(toks, self.current as int) == token_view(
                self.tokens@[self.current as int],
            ));
        }
        match self.consume(TokenType::Semicolon, "Expect ';' after loop condition.") {
            Ok(_) => {},
            Err(e) => {
                return Err(e);
            },
        }
        proof {
            assert(tok_at(toks, self.current as int) == token_view(
                self.tokens@[self.current as int],
            ));
        }
        let inc = if !self.check(&TokenType::RightParen) {
            match self.expression() {
                Ok(e) => Some(e),
                Err(e) => {
                    return Err(e);
                },
            }
        } else {
            None
        };
        proof {
            assert(tok_at(toks, self.current as int) == token_view(
                self.tokens@[self.current as int],
            ));
        }
        match self.consume(TokenType::RightParen, "Expect ')' after for clauses.") {
            Ok(_) => {},
            Err(e) => {
                return Err(e);
            },
        }
        let body = match self.statement() {
            Ok(s) => s,
            Err(e) => {
                return Err(e);
            },
        };
        let built = Self::build_for(initializer, cond, inc, body);
        Ok(built)
    }

    /// `if ( expression ) statement ( else statement )?`, exactly as
    /// `sp_if_stmt` says.
    #[verifier::rlimit(100)]
    #[verifier::spinoff_prover]
    fn if_statement(&mut self) -> (r: Result<Stmt, ErrorKind>)
        requires
            pwf(*old(self)),
        ensures
            pwf(*final(self)),
            final(self).tokens@ == old(self).tokens@,
            final(self).current >= old(self).current,
            match r {
                Ok(stmt) => {
                    &&& stmt_plain(stmt_view(stmt))
                    &&& sp_if_stmt(tokens_view(old(self).tokens@), old(self).current as int)
                        == PStep::Next(stmt_view(stmt), final(self).current as int)
                },
                Err(e) => {
                    &&& e matches ErrorKind::ParseError { tok, t } && sp_if_stmt(
                        tokens_view(old(self).tokens@),
                        old(self).current as int,
                    ) == (PStep::<StmtV>::Fail(token_view(tok), t@))
                },
            },
        decreases self.tokens@.len() - self.current, 20int,
    {
        proof {
            reveal(sp_if_stmt);
        }
        let ghost toks = tokens_view(old(self).tokens@);
        let cond = match self.paren_expr(
            "Expect '(' after 'if'.",
            "Expect ')' after if condition.",
        ) {
            Ok(e) => e,
            Err(e) => {
                return Err(e);
            },
        };
        let if_branch = match self.statement() {
            Ok(s) => s,
            Err(e) => {
                return Err(e);
            },
        };
        proof {
            assert(tok_at(toks, self.current as int) == token_view(
                self.tokens@[self.current as int],
            ));
        }
        let else_branch = if self.match_one(&TokenType::Else) {
            match self.statement() {
                Ok(s) => Some(Box::new(s)),
                Err(e) => {
                    return Err(e);
                },
            }
        } else {
            None
        };
        Ok(Stmt::If(cond, Box::new(if_branch), else_branch))
    }

    /// `expression ;`, exactly as `sp_expr_stmt` says.
    #[verifier::rlimit(100)]
    #[verifier::spinoff_prover]
    fn expression_statement(&mut self) -> (r: Result<Stmt, ErrorKind>)
        requires
            pwf(*old(self)),
        ensures
            pwf(*final(self)),
            final(self).tokens@ == old(self).tokens@,
            final(self).current >= old(self).current,
            match r {
                Ok(stmt) => {
                    &&& stmt_plain(stmt_view(stmt))
                    &&& final(self).current > old(self).current
                    &&& sp_expr_stmt(tokens_view(old(self).tokens@), old(self).current as int)
                        == PStep::Next(stmt_view(stmt), final(self).current as int)
                },
                Err(e) => {
                    &&& e matches ErrorKind::ParseError { tok, t } && sp_expr_stmt(
                        tokens_view(old(self).tokens@),
                        old(self).current as int,
                    ) == (PStep::<StmtV>::Fail(token_view(tok), t@))
                },
            },
        decreases self.tokens@.len() - self.current, 20int,
    {
        proof {
            reveal(sp_expr_stmt);
        }
        let ghost toks = tokens_view(old(self).tokens@);
        let expr = match self.expression() {
            Ok(e) => e,
            Err(e) => {
                return Err(e);
            },
        };
        match self.end_stmt("Expect ';' after value.") {
            Ok(_) => {},
            Err(e) => {
                return Err(e);
            },
        }
        Ok(Stmt::Expr(expr))
    }

    /// Any expression, exactly as `sp_expression` says.
    #[verifier::rlimit(100)]
    #[verifier::spinoff_prover]
    fn expression(&mut self) -> (r: Result<Expr, ErrorKind>)
        requires
            pwf(*old(self)),
        ensures
            pwf(*final(self)),
            final(self).tokens@ == old(self).tokens@,
            final(self).current >= old(self).current,
            match r {
                Ok(e) => {
                    &&& expr_plain(expr_view(e))
                    &&& final(self).current > old(self).current
                    &&& sp_expression(tokens_view(old(self).tokens@), old(self).current as int)
                        == PStep::Next(expr_view(e), final(self).current as int)
                },
                Err(e) => {
                    &&& e matches ErrorKind::ParseError { tok, t } && sp_expression(
                        tokens_view(old(self).tokens@),
                        old(self).current as int,
                    ) == (PStep::<ExprV>::Fail(token_view(tok), t@))
                },
            },
        decreases self.tokens@.len() - self.current, 17int,
    {
        proof {
            reveal(sp_expression);
        }
        self.assignment()
    }

    /// `IDENT = assignment | logic_or`, exactly as `sp_assignment`
    /// says; only a bare variable may stand on the left of `=`.
    #[verifier::rlimit(100)]
    #[verifier::spinoff_prover]
    fn assignment(&mut self) -> (r: Result<Expr, ErrorKind>)
        requires
            pwf(*old(self)),
        ensures
            pwf(*final(self)),
            final(self).tokens@ == old(self).tokens@,
            final(self).current >= old(self).current,
            match r {
                Ok(e) => {
                    &&& expr_plain(expr_view(e))
                    &&& final(self).current > old(self).current
                    &&& sp_assignment(tokens_view(old(self).tokens@), old(self).current as int)
                        == PStep::Next(expr_view(e), final(self).current as int)
                },
                Err(e) => {
                    &&& e matches ErrorKind::ParseError { tok, t } && sp_assignment(
                        tokens_view(old(self).tokens@),
                        old(self).current as int,
                    ) == (PStep::<ExprV>::Fail(token_view(tok), t@))
                },
            },
        decreases self.tokens@.len() - self.current, 16int,
    {
        proof {
            reveal(sp_assignment);
        }
        let ghost toks = tokens_view(old(self).tokens@);
        let expr = match self.or_expr() {
            Ok(e) => e,
            Err(e) => {
                return Err(e);
            },
        };
        proof {
            assert(tok_at(toks, self.current as int) == token_view(
                self.tokens@[self.current as int],
            ));
        }
        if self.check(&TokenType::Equal) {
            self.assign_tail(expr)
        } else {
            Ok(expr)
        }
    }

    /// The `= assignment` tail, exactly as `sp_assign_tail` says.
    #[verifier::rlimit(100)]
    #[verifier::spinoff_prover]
    fn assign_tail(&mut self, target: Expr) -> (r: Result<Expr, ErrorKind>)
        requires
            pwf(*old(self)),
            expr_plain(expr_view(target)),
            tt_view(old(self).tokens@[old(self).current as int].ty) is Equal,
        ensures
            pwf(*final(self)),
            final(self).tokens@ == old(self).tokens@,
            final(self).current >= old(self).current,
            match r {
                Ok(e) => {
                    &&& expr_plain(expr_view(e))
                    &&& final(self).current > old(self).current
                    &&& sp_assign_tail(
                        tokens_view(old(self).tokens@),
                        old(self).current as int,
                        expr_view(target),
                    ) == PStep::Next(expr_view(e), final(self).current as int)
                },
                Err(e) => {
                    &&& e matches ErrorKind::ParseError { tok, t } && sp_assign_tail(
                        tokens_view(old(self).tokens@),
                        old(self).current as int,
                        expr_view(target),
                    ) == (PStep::<ExprV>::Fail(token_view(tok), t@))
                },
            },
        decreases self.tokens@.len() - self.current, 6int,
    {
        proof {
            reveal(sp_assign_tail);
        }
        let ghost toks = tokens_view(old(self).tokens@);
        proof {
            assert(tok_at(toks, old(self).current as int) == token_view(
                old(self).tokens@[old(self).current as int],
            ));
        }
        let equals = token_dup(&self.tokens[self.current]);
        let matched = self.match_one(&TokenType::Equal);
        let value = match self.assignment() {
            Ok(v) => v,
            Err(e) => {
                return Err(e);
            },
        };
        match target {
            Expr::Variable(id) => Ok(Expr::Assign(id, Box::new(value))),
            x => {
                let mut t = String::from_str("Invalid assignment target: ");
                let shown = crate::render::render_expr(&x);
                t.append(shown.as_str());
                Err(ErrorKind::ParseError { tok: equals, t })
            },
        }
    }


    /// `logic_and ( or logic_and )*`, folded left, exactly as `sp_or`
    /// says.
    #[verifier::rlimit(100)]
    #[verifier::spinoff_prover]
    #[verifier::loop_isolation(false)]
    fn or_expr(&mut self) -> (r: Result<Expr, ErrorKind>)
        requires
            pwf(*old(self)),
        ensures
            pwf(*final(self)),
            final(self).tokens@ == old(self).tokens@,
            final(self).current >= old(self).current,
            match r {
                Ok(e) => {
                    &&& expr_plain(expr_view(e))
                    &&& final(self).current > old(self).current
                    &&& sp_or(tokens_view(old(self).tokens@), old(self).current as int)
                        == PStep::Next(expr_view(e), final(self).current as int)
                },
                Err(e) => {
                    &&& e matches ErrorKind::ParseError { tok, t } && sp_or(
                        tokens_view(old(self).tokens@),
                        old(self).current as int,
                    ) == (PStep::<ExprV>::Fail(token_view(tok), t@))
                },
            },
        decreases self.tokens@.len() - self.current, 15int,
    {
        proof {
            reveal(sp_or);
            reveal(sp_or_rest);
        }
        let ghost toks = tokens_view(old(self).tokens@);
        let mut left = match self.and_expr() {
            Ok(e) => e,
            Err(e) => {
                return Err(e);
            },
        };
        loop
            invariant
                pwf(*self),
                self.tokens@ == old(self).tokens@,
                self.current > old(self).current,
                expr_plain(expr_view(left)),
                sp_or(toks, old(self).current as int) == sp_or_rest(
                    toks,
                    self.current as int,
                    expr_view(left),
                ),
            decreases self.tokens@.len() - self.current,
        {
            proof {
                assert(tok_at(toks, self.current as int) == token_view(
                    self.tokens@[self.current as int],
                ));
            }
            if !self.match_one(&TokenType::Or) {
                break ;
            }
            let right = match self.and_expr() {
                Ok(e) => e,
                Err(e) => {
                    return Err(e);
                },
            };
            left = Expr::Logical(
                Box::new(LogicalExpr { left, op: LogicalOperator::Or, right }),
            );
        }
        Ok(left)
    }

    /// `equality ( and equality )*`, folded left, exactly as `sp_and`
    /// says.
    #[verifier::rlimit(100)]
    #[verifier::spinoff_prover]
    #[verifier::loop_isolation(false)]
    fn and_expr(&mut self) -> (r: Result<Expr, ErrorKind>)
        requires
            pwf(*old(self)),
        ensures
            pwf(*final(self)),
            final(self).tokens@ == old(self).tokens@,
            final(self).current >= old(self).current,
            match r {
                Ok(e) => {
                    &&& expr_plain(expr_view(e))
                    &&& final(self).current > old(self).current
                    &&& sp_and(tokens_view(old(self).tokens@), old(self).current as int)
                        == PStep::Next(expr_view(e), final(self).current as int)
                },
                Err(e) => {
                    &&& e matches ErrorKind::ParseError { tok, t } && sp_and(
                        tokens_view(old(self).tokens@),
                        old(self).current as int,
                    ) == (PStep::<ExprV>::Fail(token_view(tok), t@))
                },
            },
        decreases self.tokens@.len() - self.current, 14int,
    {
        proof {
            reveal(sp_and);
            reveal(sp_and_rest);
        }
        let ghost toks = tokens_view(old(self).tokens@);
        let mut left = match self.equality() {
            Ok(e) => e,
            Err(e) => {
                return Err(e);
            },
        };
        loop
            invariant
                pwf(*self),
                self.tokens@ == old(self).tokens@,
                self.current > old(self).current,
                expr_plain(expr_view(left)),
                sp_and(toks, old(self).current as int) == sp_and_rest(
                    toks,
                    self.current as int,
                    expr_view(left),
                ),
            decreases self.tokens@.len() - self.current,
        {
            proof {
                assert(tok_at(toks, self.current as int) == token_view(
                    self.tokens@[self.current as int],
                ));
            }
            if !self.match_one(&TokenType::And) {
                break ;
            }
            let right = match self.equality() {
                Ok(e) => e,
                Err(e) => {
                    return Err(e);
                },
            };
            left = Expr::Logical(
                Box::new(LogicalExpr { left, op: LogicalOperator::And, right }),
            );
        }
        Ok(left)
    }

    /// `comparison ( (!=|==) comparison )*`, folded left, exactly as
    /// `sp_equality` says.
    #[verifier::rlimit(100)]
    #[verifier::spinoff_prover]
    #[verifier::loop_isolation(false)]
    fn equality(&mut self) -> (r: Result<Expr, ErrorKind>)
        requires
            pwf(*old(self)),
        ensures
            pwf(*final(self)),
            final(self).tokens@ == old(self).tokens@,
            final(self).current >= old(self).current,
            match r {
                Ok(e) => {
                    &&& expr_plain(expr_view(e))
                    &&& final(self).current > old(self).current
                    &&& sp_equality(tokens_view(old(self).tokens@), old(self).current as int)
                        == PStep::Next(expr_view(e), final(self).current as int)
                },
                Err(e) => {
                    &&& e matches ErrorKind::ParseError { tok, t } && sp_equality(
                        tokens_view(old(self).tokens@),
                        old(self).current as int,
                    ) == (PStep::<ExprV>::Fail(token_view(tok), t@))
                },
            },
        decreases self.tokens@.len() - self.current, 13int,
    {
        proof {
            reveal(sp_equality);
            reveal(sp_eq_rest);
        }
        let ghost toks = tokens_view(old(self).tokens@);
        let mut left = match self.comparison() {
            Ok(e) => e,
            Err(e) => {
                return Err(e);
            },
        };
        loop
            invariant
                pwf(*self),
                self.tokens@ == old(self).tokens@,
                self.current > old(self).current,
                expr_plain(expr_view(left)),
                sp_equality(toks, old(self).current as int) == sp_eq_rest(
                    toks,
                    self.current as int,
                    expr_view(left),
                ),
            decreases self.tokens@.len() - self.current,
        {
            proof {
                assert(tok_at(toks, self.current as int) == token_view(
                    self.tokens@[self.current as int],
                ));
            }
            let op = if self.match_one(&TokenType::BangEqual) {
                BinaryOperator::BangEqual
            } else if self.match_one(&TokenType::EqualEqual) {
                BinaryOperator::EqualEqual
            } else {
                break ;
            };
            let right = match self.comparison() {
                Ok(e) => e,
                Err(e) => {
                    return Err(e);
                },
            };
            left = Expr::Binary(Box::new(BinaryExpr { left, op, right }));
        }
        Ok(left)
    }

    /// `addition ( (<|<=|>|>=) addition )*`, folded left, exactly as
    /// `sp_comparison` says.
    #[verifier::rlimit(100)]
    #[verifier::spinoff_prover]
    #[verifier::loop_isolation(false)]
    fn comparison(&mut self) -> (r: Result<Expr, ErrorKind>)
        requires
            pwf(*old(self)),
        ensures
            pwf(*final(self)),
            final(self).tokens@ == old(self).tokens@,
            final(self).current >= old(self).current,
            match r {
                Ok(e) => {
                    &&& expr_plain(expr_view(e))
                    &&& final(self).current > old(self).current
                    &&& sp_comparison(tokens_view(old(self).tokens@), old(self).current as int)
                        == PStep::Next(expr_view(e), final(self).current as int)
                },
                Err(e) => {
                    &&& e matches ErrorKind::ParseError { tok, t } && sp_comparison(
                        tokens_view(old(self).tokens@),
                        old(self).current as int,
                    ) == (PStep::<ExprV>::Fail(token_view(tok), t@))
                },
            },
        decreases self.tokens@.len() - self.current, 12int,
    {
        proof {
            reveal(sp_comparison);
            reveal(sp_cmp_rest);
        }
        let ghost toks = tokens_view(old(self).tokens@);
        let mut left = match self.addition() {
            Ok(e) => e,
            Err(e) => {
                return Err(e);
            },
        };
        loop
            invariant
                pwf(*self),
                self.tokens@ == old(self).tokens@,
                self.current > old(self).current,
                expr_plain(expr_view(left)),
                sp_comparison(toks, old(self).current as int) == sp_cmp_rest(
                    toks,
                    self.current as int,
                    expr_view(left),
                ),
            decreases self.tokens@.len() - self.current,
        {
            proof {
                assert(tok_at(toks, self.current as int) == token_view(
                    self.tokens@[self.current as int],
                ));
            }
            let op = if self.match_one(&TokenType::Greater) {
                BinaryOperator::Greater
            } else if self.match_one(&TokenType::GreaterEqual) {
                BinaryOperator::GreaterEqual
            } else if self.match_one(&TokenType::Less) {
                BinaryOperator::Less
            } else if self.match_one(&TokenType::LessEqual) {
                BinaryOperator::LessEqual
            } else {
                break ;
            };
            let right = match self.addition() {
                Ok(e) => e,
                Err(e) => {
                    return Err(e);
                },
            };
            left = Expr::Binary(Box::new(BinaryExpr { left, op, right }));
        }
        Ok(left)
    }

    /// `multiplication ( (-|+) multiplication )*`, folded left, exactly
    /// as `sp_addition` says.
    #[verifier::rlimit(100)]
    #[verifier::spinoff_prover]
    #[verifier::loop_isolation(false)]
    fn addition(&mut self) -> (r: Result<Expr, ErrorKind>)
        requires
            pwf(*old(self)),
        ensures
            pwf(*final(self)),
            final(self).tokens@ == old(self).tokens@,
            final(self).current >= old(self).current,
            match r {
                Ok(e) => {
                    &&& expr_plain(expr_view(e))
                    &&& final(self).current > old(self).current
                    &&& sp_addition(tokens_view(old(self).tokens@), old(self).current as int)
                        == PStep::Next(expr_view(e), final(self).current as int)
                },
                Err(e) => {
                    &&& e matches ErrorKind::ParseError { tok, t } && sp_addition(
                        tokens_view(old(self).tokens@),
                        old(self).current as int,
                    ) == (PStep::<ExprV>::Fail(token_view(tok), t@))
                },
            },
        decreases self.tokens@.len() - self.current, 11int,
    {
        proof {
            reveal(sp_addition);
            reveal(sp_add_rest);
        }
        let ghost toks = tokens_view(old(self).tokens@);
        let mut left = match self.multiplication() {
            Ok(e) => e,
            Err(e) => {
                return Err(e);
            },
        };
        loop
            invariant
                pwf(*self),
                self.tokens@ == old(self).tokens@,
                self.current > old(self).current,
                expr_plain(expr_view(left)),
                sp_addition(toks, old(self).current as int) == sp_add_rest(
                    toks,
                    self.current as int,
                    expr_view(left),
                ),
            decreases self.tokens@.len() - self.current,
        {
            proof {
                assert(tok_at(toks, self.current as int) == token_view(
                    self.tokens@[self.current as int],
                ));
            }
            let op = if self.match_one(&TokenType::Minus) {
                BinaryOperator::Minus
            } else if self.match_one(&TokenType::Plus) {
                BinaryOperator::Plus
            } else {
                break ;
            };
            let right = match self.multiplication() {
                Ok(e) => e,
                Err(e) => {
                    return Err(e);
                },
            };
            left = Expr::Binary(Box::new(BinaryExpr { left, op, right }));
        }
        Ok(left)
    }

    /// `unary ( (/|*) unary )*`, folded left, exactly as
    /// `sp_multiplication` says.
    #[verifier::rlimit(100)]
    #[verifier::spinoff_prover]
    #[verifier::loop_isolation(false)]
    fn multiplication(&mut self) -> (r: Result<Expr, ErrorKind>)
        requires
            pwf(*old(self)),
        ensures
            pwf(*final(self)),
            final(self).tokens@ == old(self).tokens@,
            final(self).current >= old(self).current,
            match r {
                Ok(e) => {
                    &&& expr_plain(expr_view(e))
                    &&& final(self).current > old(self).current
                    &&& sp_multiplication(
                        tokens_view(old(self).tokens@),
                        old(self).current as int,
                    ) == PStep::Next(expr_view(e), final(self).current as int)
                },
                Err(e) => {
                    &&& e matches ErrorKind::ParseError { tok, t } && sp_multiplication(
                        tokens_view(old(self).tokens@),
                        old(self).current as int,
                    ) == (PStep::<ExprV>::Fail(token_view(tok), t@))
                },
            },
        decreases self.tokens@.len() - self.current, 10int,
    {
        proof {
            reveal(sp_multiplication);
            reveal(sp_mul_rest);
        }
        let ghost toks = tokens_view(old(self).tokens@);
        let mut left = match self.unary() {
            Ok(e) => e,
            Err(e) => {
                return Err(e);
            },
        };
        loop
            invariant
                pwf(*self),
                self.tokens@ == old(self).tokens@,
                self.current > old(self).current,
                expr_plain(expr_view(left)),
                sp_multiplication(toks, old(self).current as int) == sp_mul_rest(
                    toks,
                    self.current as int,
                    expr_view(left),
                ),
            decreases self.tokens@.len() - self.current,
        {
            proof {
                assert(tok_at(toks, self.current as int) == token_view(
                    self.tokens@[self.current as int],
                ));
            }
            let op = if self.match_one(&TokenType::Slash) {
                BinaryOperator::Slash
            } else if self.match_one(&TokenType::Star) {
                BinaryOperator::Star
            } else {
                break ;
            };
            let right = match self.unary() {
                Ok(e) => e,
                Err(e) => {
                    return Err(e);
                },
            };
            left = Expr::Binary(Box::new(BinaryExpr { left, op, right }));
        }
        Ok(left)
    }

    /// `(!|-) unary | call`, exactly as `sp_unary` says.
    #[verifier::rlimit(100)]
    #[verifier::spinoff_prover]
    fn unary(&mut self) -> (r: Result<Expr, ErrorKind>)
        requires
            pwf(*old(self)),
        ensures
            pwf(*final(self)),
            final(self).tokens@ == old(self).tokens@,
            final(self).current >= old(self).current,
            match r {
                Ok(e) => {
                    &&& expr_plain(expr_view(e))
                    &&& final(self).current > old(self).current
                    &&& sp_unary(tokens_view(old(self).tokens@), old(self).current as int)
                        == PStep::Next(expr_view(e), final(self).current as int)
                },
                Err(e) => {
                    &&& e matches ErrorKind::ParseError { tok, t } && sp_unary(
                        tokens_view(old(self).tokens@),
                        old(self).current as int,
                    ) == (PStep::<ExprV>::Fail(token_view(tok), t@))
                },
            },
        decreases self.tokens@.len() - self.current, 9int,
    {
        proof {
            reveal(sp_unary);
        }
        let ghost toks = tokens_view(old(self).tokens@);
        proof {
            assert(tok_at(toks, old(self).current as int) == token_view(
                old(self).tokens@[old(self).current as int],
            ));
        }
        let op = if self.match_one(&TokenType::Minus) {
            Some(UnaryOperator::Minus)
        } else if self.match_one(&TokenType::Bang) {
            Some(UnaryOperator::Bang)
        } else {
            None
        };
        match op {
            Some(op) => {
                let expr = match self.unary() {
                    Ok(e) => e,
                    Err(e) => {
                        return Err(e);
                    },
                };
                Ok(Expr::Unary(Box::new(UnaryExpr { op, expr })))
            },
            None => self.call_expr(),
        }
    }

    /// `primary ( ( args? ) )*`, call chains nesting leftward, exactly
    /// as `sp_call_e` says.
    #[verifier::rlimit(100)]
    #[verifier::spinoff_prover]
    #[verifier::loop_isolation(false)]
    fn call_expr(&mut self) -> (r: Result<Expr, ErrorKind>)
        requires
            pwf(*old(self)),
        ensures
            pwf(*final(self)),
            final(self).tokens@ == old(self).tokens@,
            final(self).current >= old(self).current,
            match r {
                Ok(e) => {
                    &&& expr_plain(expr_view(e))
                    &&& final(self).current > old(self).current
                    &&& sp_call_e(tokens_view(old(self).tokens@), old(self).current as int)
                        == PStep::Next(expr_view(e), final(self).current as int)
                },
                Err(e) => {
                    &&& e matches ErrorKind::ParseError { tok, t } && sp_call_e(
                        tokens_view(old(self).tokens@),
                        old(self).current as int,
                    ) == (PStep::<ExprV>::Fail(token_view(tok), t@))
                },
            },
        decreases self.tokens@.len() - self.current, 8int,
    {
        proof {
            reveal(sp_call_e);
            reveal(sp_call_rest);
        }
        let ghost toks = tokens_view(old(self).tokens@);
        let mut expr = match self.primary() {
            Ok(e) => e,
            Err(e) => {
                return Err(e);
            },
        };
        loop
            invariant
                pwf(*self),
                self.tokens@ == old(self).tokens@,
                self.current > old(self).current,
                expr_plain(expr_view(expr)),
                sp_call_e(toks, old(self).current as int) == sp_call_rest(
                    toks,
                    self.current as int,
                    expr_view(expr),
                ),
            decreases self.tokens@.len() - self.current,
        {
            proof {
                assert(tok_at(toks, self.current as int) == token_view(
                    self.tokens@[self.current as int],
                ));
            }
            if self.match_one(&TokenType::LeftParen) {
                expr = match self.finish_call(expr) {
                    Ok(e) => e,
                    Err(e) => {
                        return Err(e);
                    },
                };
            } else {
                break ;
            }
        }
        Ok(expr)
    }

    /// The arguments of a call, the `(` already consumed, exactly as
    /// `sp_finish` says.
    #[verifier::rlimit(100)]
    #[verifier::spinoff_prover]
    #[verifier::loop_isolation(false)]
    fn finish_call(&mut self, expr: Expr) -> (r: Result<Expr, ErrorKind>)
        requires
            pwf(*old(self)),
            expr_plain(expr_view(expr)),
        ensures
            pwf(*final(self)),
            final(self).tokens@ == old(self).tokens@,
            final(self).current >= old(self).current,
            match r {
                Ok(e) => {
                    &&& expr_plain(expr_view(e))
                    &&& final(self).current > old(self).current
                    &&& sp_finish(
                        tokens_view(old(self).tokens@),
                        old(self).current as int,
                        expr_view(expr),
                    ) == PStep::Next(expr_view(e), final(self).current as int)
                },
                Err(e) => {
                    &&& e matches ErrorKind::ParseError { tok, t } && sp_finish(
                        tokens_view(old(self).tokens@),
                        old(self).current as int,
                        expr_view(expr),
                    ) == (PStep::<ExprV>::Fail(token_view(tok), t@))
                },
            },
        decreases self.tokens@.len() - self.current, 18int,
    {
        proof {
            reveal(sp_finish);
            reveal(sp_args_rest);
        }
        let ghost toks = tokens_view(old(self).tokens@);
        let ghost calleev = expr_view(expr);
        proof {
            assert(tok_at(toks, old(self).current as int) == token_view(
                old(self).tokens@[old(self).current as int],
            ));
        }
        let mut args: Vec<Expr> = Vec::new();
        proof {
            assert(exprs_view(args@) =~= Seq::<ExprV>::empty());
            assert(exprs_plain(Seq::<ExprV>::empty()));
        }
        if !self.check(&TokenType::RightParen) {
            let ghost acc0 = exprs_view(args@);
            match self.expression() {
                Ok(e) => {
                    let ghost evx = expr_view(e);
                    let ghost a0 = args@;
                    proof {
                        lemma_exprs_plain_push(acc0, evx);
                    }
                    args.push(e);
                    proof {
                        assert(args@.drop_last() =~= a0);
                        assert(args@.last() == e);
                        assert(exprs_view(args@) == acc0.push(evx));
                        assert(exprs_view(args@) =~= seq![evx]);
                    }
                },
                Err(e) => {
                    return Err(e);
                },
            }
            loop
                invariant
                    pwf(*self),
                    self.tokens@ == old(self).tokens@,
                    self.current > old(self).current,
                    exprs_plain(exprs_view(args@)),
                    sp_finish(toks, old(self).current as int, calleev) == sp_args_rest(
                        toks,
                        self.current as int,
                        calleev,
                        exprs_view(args@),
                    ),
                decreases self.tokens@.len() - self.current,
            {
                proof {
                    assert(tok_at(toks, self.current as int) == token_view(
                        self.tokens@[self.current as int],
                    ));
                }
                if !self.match_one(&TokenType::Comma) {
                    break ;
                }
                let ghost acc = exprs_view(args@);
                match self.expression() {
                    Ok(e) => {
                        let ghost evx = expr_view(e);
                        let ghost a0 = args@;
                        proof {
                            lemma_exprs_plain_push(acc, evx);
                        }
                        args.push(e);
                        proof {
                            assert(args@.drop_last() =~= a0);
                            assert(args@.last() == e);
                            assert(exprs_view(args@) == acc.push(evx));
                        }
                    },
                    Err(e) => {
                        return Err(e);
                    },
                }
            }
            proof {
                assert(tok_at(toks, self.current as int) == token_view(
                    self.tokens@[self.current as int],
                ));
            }
            match self.consume(TokenType::RightParen, "Expect ')' after arguments") {
                Ok(_) => {},
                Err(e) => {
                    return Err(e);
                },
            }
            proof {
                assert(exprs_plain(exprs_view(args@)));
            }
            Ok(Expr::Call(Box::new(expr), args))
        } else {
            match self.consume(TokenType::RightParen, "Expect ')' after arguments") {
                Ok(_) => {},
                Err(e) => {
                    return Err(e);
                },
            }
            proof {
                assert(exprs_view(args@) =~= Seq::<ExprV>::empty());
            }
            Ok(Expr::Call(Box::new(expr), args))
        }
    }

    /// A literal, a variable, or a parenthesized expression, exactly as
    /// `sp_primary` says.
    #[verifier::rlimit(100)]
    #[verifier::spinoff_prover]
    fn primary(&mut self) -> (r: Result<Expr, ErrorKind>)
        requires
            pwf(*old(self)),
        ensures
            pwf(*final(self)),
            final(self).tokens@ == old(self).tokens@,
            final(self).current >= old(self).current,
            match r {
                Ok(e) => {
                    &&& expr_plain(expr_view(e))
                    &&& final(self).current > old(self).current
                    &&& sp_primary(tokens_view(old(self).tokens@), old(self).current as int)
                        == PStep::Next(expr_view(e), final(self).current as int)
                },
                Err(e) => {
                    &&& e matches ErrorKind::ParseError { tok, t } && sp_primary(
                        tokens_view(old(self).tokens@),
                        old(self).current as int,
                    ) == (PStep::<ExprV>::Fail(token_view(tok), t@))
                },
            },
        decreases self.tokens@.len() - self.current, 7int,
    {
        proof {
            reveal(sp_primary);
        }
        let ghost toks = tokens_view(old(self).tokens@);
        let ghost i0 = old(self).current as int;
        proof {
            assert(tok_at(toks, i0) == token_view(old(self).tokens@[i0]));
        }
        if self.match_one(&TokenType::Nil) {
            return Ok(Expr::Literal(Value::Nil));
        }
        if self.match_one(&TokenType::False) {
            return Ok(Expr::Literal(Value::Bool(false)));
        }
        if self.match_one(&TokenType::True) {
            return Ok(Expr::Literal(Value::Bool(true)));
        }
        if self.match_one(&TokenType::Identifier) {
            let name = token_dup(self.previous());
            return Ok(Expr::Variable(Identifier { name }));
        }
        let is_number = matches!(&self.tokens[self.current].ty, TokenType::Number(_));
        if is_number {
            let n: i64 = match &self.tokens[self.current].ty {
                TokenType::Number(n) => *n,
                _ => 0,
            };
            let nn = self.tokens.len();
            proof {
                assert(self.current != self.tokens@.len() - 1);
            }
            self.current = self.current + 1;
            return Ok(Expr::Literal(Value::Number(n)));
        }
        let is_string = matches!(&self.tokens[self.current].ty, TokenType::String(_));
        if is_string {
            let s: String = match &self.tokens[self.current].ty {
                TokenType::String(s) => s.clone(),
                _ => String::new(),
            };
            let nn = self.tokens.len();
            proof {
                assert(self.current != self.tokens@.len() - 1);
            }
            self.current = self.current + 1;
            return Ok(Expr::Literal(Value::String(s)));
        }
        if self.match_one(&TokenType::LeftParen) {
            let expr = match self.expression() {
                Ok(e) => e,
                Err(e) => {
                    return Err(e);
                },
            };
            proof {
                assert(tok_at(toks, self.current as int) == token_view(
                    self.tokens@[self.current as int],
                ));
            }
            match self.consume(TokenType::RightParen, "Expect ')' after expression") {
                Ok(_) => {},
                Err(e) => {
                    return Err(e);
                },
            }
            return Ok(Expr::Grouping(Box::new(Grouping { expr })));
        }
        Err(
            ErrorKind::ParseError {
                tok: token_dup(&self.tokens[self.current]),
                t: String::from_str("Expect expression"),
            },
        )
    }
}

} // verus!
