//! The syntax tree and the runtime value universe, together with their
//! mathematical models.
//!
//! Each executable type has a model type (suffix `V`) over `Seq<char>`,
//! `int` and `nat`; the `*_view` functions relate the two.  Numbers in
//! this interpreter are 64-bit signed integers.

use vstd::prelude::*;
use crate::scanner::{Token, TokenV, token_view, tokens_view, token_dup, token_eq};

verus! {

#[derive(Debug, Clone, PartialEq, Eq, Structural, Copy)]
pub enum UnaryOperator {
    Bang,
    Minus,
}

#[derive(Debug, Clone, PartialEq, Eq, Structural, Copy)]
pub enum LogicalOperator {
    Or,
    And,
}

#[derive(Debug, Clone, PartialEq, Eq, Structural, Copy)]
pub enum BinaryOperator {
    Equal,
    EqualEqual,
    BangEqual,
    Less,
    LessEqual,
    Greater,
    GreaterEqual,
    Minus,
    Plus,
    Star,
    Slash,
}

/// The host functions a `Value::BuiltinFunc` can stand for: a closed
/// set of tags, so that dispatching on one stays verifiable.
#[derive(Debug, Clone, PartialEq, Eq, Structural, Copy)]
pub enum Builtin {
    Clock,
}

#[derive(Debug, PartialEq)]
pub struct UnaryExpr {
    pub op: UnaryOperator,
    pub expr: Expr,
}

#[derive(Debug, PartialEq)]
pub struct BinaryExpr {
    pub left: Expr,
    pub op: BinaryOperator,
    pub right: Expr,
}

#[derive(Debug, PartialEq)]
pub struct LogicalExpr {
    pub left: Expr,
    pub op: LogicalOperator,
    pub right: Expr,
}

#[derive(Debug, PartialEq)]
pub struct Grouping {
    pub expr: Expr,
}

/// The runtime universe.  `Func` carries its name token, the index of the
/// environment it captured, its parameter tokens and its body.  `Return`
/// is the transport sentinel that unwinds blocks and loops to the nearest
/// function boundary.
#[derive(Debug, PartialEq)]
pub enum Value {
    Nil,
    Bool(bool),
    Number(i64),
    String(String),
    BuiltinFunc(String, usize, Builtin),
    Func(Token, usize, Vec<Token>, Box<Stmt>),
    Return(Box<Value>),
}

#[derive(Debug, PartialEq)]
pub struct Identifier {
    pub name: Token,
}

#[derive(Debug, PartialEq)]
pub enum Expr {
    Literal(Value),
    Unary(Box<UnaryExpr>),
    Binary(Box<BinaryExpr>),
    Logical(Box<LogicalExpr>),
    Call(Box<Expr>, Vec<Expr>),
    Grouping(Box<Grouping>),
    Variable(Identifier),
    Assign(Identifier, Box<Expr>),
}

#[derive(Debug, PartialEq)]
pub enum Stmt {
    Expr(Expr),
    Print(Expr),
    Decl(Identifier, Expr),
    Block(Vec<Stmt>),
    Return(Expr),
    If(Expr, Box<Stmt>, Option<Box<Stmt>>),
    While(Expr, Box<Stmt>),
    Func(Token, Vec<Token>, Box<Stmt>),
}

// ---------------------------------------------------------------------
// Models.

#[verifier::ext_equal]
pub enum ValueV {
    Nil,
    Bool(bool),
    Number(i64),
    String(Seq<char>),
    BuiltinFunc(Seq<char>, nat, Builtin),
    Func(TokenV, int, Seq<TokenV>, Box<StmtV>),
    Return(Box<ValueV>),
}

#[verifier::ext_equal]
pub struct IdentifierV {
    pub name: TokenV,
}

#[verifier::ext_equal]
pub struct UnaryExprV {
    pub op: UnaryOperator,
    pub expr: ExprV,
}

#[verifier::ext_equal]
pub struct BinaryExprV {
    pub left: ExprV,
    pub op: BinaryOperator,
    pub right: ExprV,
}

#[verifier::ext_equal]
pub struct LogicalExprV {
    pub left: ExprV,
    pub op: LogicalOperator,
    pub right: ExprV,
}

#[verifier::ext_equal]
pub struct GroupingV {
    pub expr: ExprV,
}

#[verifier::ext_equal]
pub enum ExprV {
    Literal(ValueV),
    Unary(Box<UnaryExprV>),
    Binary(Box<BinaryExprV>),
    Logical(Box<LogicalExprV>),
    Call(Box<ExprV>, Seq<ExprV>),
    Grouping(Box<GroupingV>),
    Variable(IdentifierV),
    Assign(IdentifierV, Box<ExprV>),
}

#[verifier::ext_equal]
pub enum StmtV {
    Expr(ExprV),
    Print(ExprV),
    Decl(IdentifierV, ExprV),
    Block(Seq<StmtV>),
    Return(ExprV),
    If(ExprV, Box<StmtV>, Option<Box<StmtV>>),
    While(ExprV, Box<StmtV>),
    Func(TokenV, Seq<TokenV>, Box<StmtV>),
}

pub open spec fn ident_view(id: Identifier) -> IdentifierV {
    IdentifierV { name: token_view(id.name) }
}

pub open spec fn value_view(v: Value) -> ValueV
    decreases v,
{
    match v {
        Value::Nil => ValueV::Nil,
        Value::Bool(b) => ValueV::Bool(b),
        Value::Number(n) => ValueV::Number(n),
        Value::String(s) => ValueV::String(s@),
        Value::BuiltinFunc(name, arity, b) => ValueV::BuiltinFunc(name@, arity as nat, b),
        Value::Func(name, env, params, body) => ValueV::Func(
            token_view(name),
            env as int,
            tokens_view(params@),
            Box::new(stmt_view(*body)),
        ),
        Value::Return(b) => ValueV::Return(Box::new(value_view(*b))),
    }
}

pub open spec fn expr_view(e: Expr) -> ExprV
    decreases e,
{
    match e {
        Expr::Literal(v) => ExprV::Literal(value_view(v)),
        Expr::Unary(u) => ExprV::Unary(
            Box::new(UnaryExprV { op: u.op, expr: expr_view(u.expr) }),
        ),
        Expr::Binary(b) => ExprV::Binary(
            Box::new(BinaryExprV { left: expr_view(b.left), op: b.op, right: expr_view(b.right) }),
        ),
        Expr::Logical(l) => ExprV::Logical(
            Box::new(LogicalExprV { left: expr_view(l.left), op: l.op, right: expr_view(l.right) }),
        ),
        Expr::Call(callee, args) => ExprV::Call(
            Box::new(expr_view(*callee)),
            exprs_view(args@),
        ),
        Expr::Grouping(g) => ExprV::Grouping(Box::new(GroupingV { expr: expr_view(g.expr) })),
        Expr::Variable(id) => ExprV::Variable(ident_view(id)),
        Expr::Assign(id, b) => ExprV::Assign(ident_view(id), Box::new(expr_view(*b))),
    }
}

pub open spec fn exprs_view(es: Seq<Expr>) -> Seq<ExprV>
    decreases es,
{
    if es.len() == 0 {
        Seq::empty()
    } else {
        exprs_view(es.drop_last()).push(expr_view(es.last()))
    }
}

pub open spec fn stmt_view(s: Stmt) -> StmtV
    decreases s,
{
    match s {
        Stmt::Expr(e) => StmtV::Expr(expr_view(e)),
        Stmt::Print(e) => StmtV::Print(expr_view(e)),
        Stmt::Decl(id, e) => StmtV::Decl(ident_view(id), expr_view(e)),
        Stmt::Block(ss) => StmtV::Block(stmts_view(ss@)),
        Stmt::Return(e) => StmtV::Return(expr_view(e)),
        Stmt::If(c, t, e) => StmtV::If(
            expr_view(c),
            Box::new(stmt_view(*t)),
            match e {
                Some(b) => Some(Box::new(stmt_view(*b))),
                None => None,
            },
        ),
        Stmt::While(c, b) => StmtV::While(expr_view(c), Box::new(stmt_view(*b))),
        Stmt::Func(name, params, body) => StmtV::Func(
            token_view(name),
            tokens_view(params@),
            Box::new(stmt_view(*body)),
        ),
    }
}

pub open spec fn stmts_view(ss: Seq<Stmt>) -> Seq<StmtV>
    decreases ss,
{
    if ss.len() == 0 {
        Seq::empty()
    } else {
        stmts_view(ss.drop_last()).push(stmt_view(ss.last()))
    }
}

/// A statement-sequence view has one element per statement, viewing each.
pub proof fn lemma_stmts_view_index(ss: Seq<Stmt>)
    ensures
        stmts_view(ss).len() == ss.len(),
        forall|i: int| 0 <= i < ss.len() ==> #[trigger] stmts_view(ss)[i] == stmt_view(ss[i]),
    decreases ss,
{
    if ss.len() > 0 {
        lemma_stmts_view_index(ss.drop_last());
    }
}

/// An expression-sequence view has one element per expression, viewing each.
pub proof fn lemma_exprs_view_index(es: Seq<Expr>)
    ensures
        exprs_view(es).len() == es.len(),
        forall|i: int| 0 <= i < es.len() ==> #[trigger] exprs_view(es)[i] == expr_view(es[i]),
    decreases es,
{
    if es.len() > 0 {
        lemma_exprs_view_index(es.drop_last());
    }
}

impl View for Value {
    type V = ValueV;

    open spec fn view(&self) -> ValueV {
        value_view(*self)
    }
}

impl View for Expr {
    type V = ExprV;

    open spec fn view(&self) -> ExprV {
        expr_view(*self)
    }
}

impl View for Stmt {
    type V = StmtV;

    open spec fn view(&self) -> StmtV {
        stmt_view(*self)
    }
}

// ---------------------------------------------------------------------
// Truthiness.

/// Only `Nil` and `Bool(false)` are falsy.
pub open spec fn truthy(v: ValueV) -> bool {
    match v {
        ValueV::Nil => false,
        ValueV::Bool(b) => b,
        _ => true,
    }
}

impl Value {
    pub fn is_truthy(&self) -> (r: bool)
        ensures
            r == truthy(self@),
    {
        match *self {
            Value::Nil => false,
            Value::Bool(b) => b,
            _ => true,
        }
    }
}

// ---------------------------------------------------------------------
// Copies.  The evaluator stores values in scopes and hands copies out;
// each copy has the same model as its original.

/// A copy of a token vector whose model is the same as the original's.
pub fn tokens_dup(ts: &Vec<Token>) -> (r: Vec<Token>)
    ensures
        tokens_view(r@) == tokens_view(ts@),
{
    let mut r: Vec<Token> = Vec::new();
    let mut i: usize = 0;
    while i < ts.len()
        invariant
            i <= ts@.len(),
            r@.len() == i,
            forall|j: int| 0 <= j < i ==> token_view(#[trigger] r@[j]) == token_view(ts@[j]),
        decreases ts@.len() - i,
    {
        r.push(token_dup(&ts[i]));
        i = i + 1;
    }
    proof {
        assert(tokens_view(r@) =~= tokens_view(ts@));
    }
    r
}

pub fn ident_dup(id: &Identifier) -> (r: Identifier)
    ensures
        ident_view(r) == ident_view(*id),
{
    Identifier { name: token_dup(&id.name) }
}

/// A copy of a value whose model is the same as the original's.
pub fn value_dup(v: &Value) -> (r: Value)
    ensures
        value_view(r) == value_view(*v),
    decreases v,
{
    match v {
        Value::Nil => Value::Nil,
        Value::Bool(b) => Value::Bool(*b),
        Value::Number(n) => Value::Number(*n),
        Value::String(s) => Value::String(s.clone()),
        Value::BuiltinFunc(name, arity, b) => Value::BuiltinFunc(name.clone(), *arity, *b),
        Value::Func(name, env, params, body) => Value::Func(
            token_dup(name),
            *env,
            tokens_dup(params),
            Box::new(stmt_dup(&**body)),
        ),
        Value::Return(b) => Value::Return(Box::new(value_dup(&**b))),
    }
}

/// A copy of an expression whose model is the same as the original's.
pub fn expr_dup(e: &Expr) -> (r: Expr)
    ensures
        expr_view(r) == expr_view(*e),
    decreases e,
{
    match e {
        Expr::Literal(v) => Expr::Literal(value_dup(v)),
        Expr::Unary(u) => Expr::Unary(
            Box::new(UnaryExpr { op: u.op, expr: expr_dup(&u.expr) }),
        ),
        Expr::Binary(b) => Expr::Binary(
            Box::new(BinaryExpr { left: expr_dup(&b.left), op: b.op, right: expr_dup(&b.right) }),
        ),
        Expr::Logical(l) => Expr::Logical(
            Box::new(LogicalExpr { left: expr_dup(&l.left), op: l.op, right: expr_dup(&l.right) }),
        ),
        Expr::Call(callee, args) => Expr::Call(Box::new(expr_dup(&**callee)), exprs_dup(args)),
        Expr::Grouping(g) => Expr::Grouping(Box::new(Grouping { expr: expr_dup(&g.expr) })),
        Expr::Variable(id) => Expr::Variable(ident_dup(id)),
        Expr::Assign(id, b) => Expr::Assign(ident_dup(id), Box::new(expr_dup(&**b))),
    }
}

/// A copy of an expression vector whose model is the same as the
/// original's.
pub fn exprs_dup(es: &Vec<Expr>) -> (r: Vec<Expr>)
    ensures
        exprs_view(r@) == exprs_view(es@),
    decreases es,
{
    let mut r: Vec<Expr> = Vec::new();
    let mut i: usize = 0;
    while i < es.len()
        invariant
            i <= es@.len(),
            r@.len() == i,
            exprs_view(r@) == exprs_view(es@.take(i as int)),
        decreases es@.len() - i,
    {
        proof {
            assert(decreases_to!(es => es@[i as int]));
        }
        let ghost old_r = r@;
        r.push(expr_dup(&es[i]));
        i = i + 1;
        proof {
            assert(r@.drop_last() =~= old_r);
            assert(es@.take(i as int).drop_last() =~= es@.take(i - 1));
            assert(es@.take(i as int).last() == es@[i - 1]);
        }
    }
    proof {
        assert(es@.take(es@.len() as int) =~= es@);
    }
    r
}

/// A copy of a statement whose model is the same as the original's.
pub fn stmt_dup(s: &Stmt) -> (r: Stmt)
    ensures
        stmt_view(r) == stmt_view(*s),
    decreases s,
{
    match s {
        Stmt::Expr(e) => Stmt::Expr(expr_dup(e)),
        Stmt::Print(e) => Stmt::Print(expr_dup(e)),
        Stmt::Decl(id, e) => Stmt::Decl(ident_dup(id), expr_dup(e)),
        Stmt::Block(ss) => Stmt::Block(stmts_dup(ss)),
        Stmt::Return(e) => Stmt::Return(expr_dup(e)),
        Stmt::If(c, t, e) => Stmt::If(
            expr_dup(c),
            Box::new(stmt_dup(&**t)),
            match e {
                Some(b) => Some(Box::new(stmt_dup(&**b))),
                None => None,
            },
        ),
        Stmt::While(c, b) => Stmt::While(expr_dup(c), Box::new(stmt_dup(&**b))),
        Stmt::Func(name, params, body) => Stmt::Func(
            token_dup(name),
            tokens_dup(params),
            Box::new(stmt_dup(&**body)),
        ),
    }
}

/// A copy of a statement vector whose model is the same as the
/// original's.
pub fn stmts_dup(ss: &Vec<Stmt>) -> (r: Vec<Stmt>)
    ensures
        stmts_view(r@) == stmts_view(ss@),
    decreases ss,
{
    let mut r: Vec<Stmt> = Vec::new();
    let mut i: usize = 0;
    while i < ss.len()
        invariant
            i <= ss@.len(),
            r@.len() == i,
            stmts_view(r@) == stmts_view(ss@.take(i as int)),
        decreases ss@.len() - i,
    {
        proof {
            assert(decreases_to!(ss => ss@[i as int]));
        }
        let ghost old_r = r@;
        r.push(stmt_dup(&ss[i]));
        i = i + 1;
        proof {
            assert(r@.drop_last() =~= old_r);
            assert(ss@.take(i as int).drop_last() =~= ss@.take(i - 1));
            assert(ss@.take(i as int).last() == ss@[i - 1]);
        }
    }
    proof {
        assert(ss@.take(ss@.len() as int) =~= ss@);
    }
    r
}

// ---------------------------------------------------------------------
// Structural equality, the language's `==`.

/// Equality of two token vectors, by their models.
pub fn tokens_eq(a: &Vec<Token>, b: &Vec<Token>) -> (r: bool)
    ensures
        r == (tokens_view(a@) == tokens_view(b@)),
{
    if a.len() != b.len() {
        proof {
            assert(tokens_view(a@).len() != tokens_view(b@).len());
        }
        return false;
    }
    let mut i: usize = 0;
    while i < a.len()
        invariant
            a@.len() == b@.len(),
            i <= a@.len(),
            forall|j: int| 0 <= j < i ==> token_view(#[trigger] a@[j]) == token_view(b@[j]),
        decreases a@.len() - i,
    {
        if !token_eq(&a[i], &b[i]) {
            proof {
                assert(tokens_view(a@)[i as int] != tokens_view(b@)[i as int]);
            }
            return false;
        }
        i = i + 1;
    }
    proof {
        assert(tokens_view(a@) =~= tokens_view(b@));
    }
    true
}

/// Structural equality of values: same variant, equal payload.
pub fn value_eq(a: &Value, b: &Value) -> (r: bool)
    ensures
        r == (value_view(*a) == value_view(*b)),
    decreases a,
{
    match a {
        Value::Nil => matches!(b, Value::Nil),
        Value::Bool(x) => match b {
            Value::Bool(y) => *x == *y,
            _ => false,
        },
        Value::Number(x) => match b {
            Value::Number(y) => *x == *y,
            _ => false,
        },
        Value::String(x) => match b {
            Value::String(y) => *x == *y,
            _ => false,
        },
        Value::BuiltinFunc(n1, a1, b1) => match b {
            Value::BuiltinFunc(n2, a2, b2) => *n1 == *n2 && *a1 == *a2 && *b1 == *b2,
            _ => false,
        },
        Value::Func(n1, e1, p1, b1) => match b {
            Value::Func(n2, e2, p2, b2) => token_eq(n1, n2) && *e1 == *e2 && tokens_eq(p1, p2)
                && stmt_eq(&**b1, &**b2),
            _ => false,
        },
        Value::Return(x) => match b {
            Value::Return(y) => value_eq(&**x, &**y),
            _ => false,
        },
    }
}

/// Structural equality of expressions, by their models.
pub fn expr_eq(a: &Expr, b: &Expr) -> (r: bool)
    ensures
        r == (expr_view(*a) == expr_view(*b)),
    decreases a,
{
    match a {
        Expr::Literal(x) => match b {
            Expr::Literal(y) => value_eq(x, y),
            _ => false,
        },
        Expr::Unary(x) => match b {
            Expr::Unary(y) => x.op == y.op && expr_eq(&x.expr, &y.expr),
            _ => false,
        },
        Expr::Binary(x) => match b {
            Expr::Binary(y) => x.op == y.op && expr_eq(&x.left, &y.left) && expr_eq(
                &x.right,
                &y.right,
            ),
            _ => false,
        },
        Expr::Logical(x) => match b {
            Expr::Logical(y) => x.op == y.op && expr_eq(&x.left, &y.left) && expr_eq(
                &x.right,
                &y.right,
            ),
            _ => false,
        },
        Expr::Call(c1, args1) => match b {
            Expr::Call(c2, args2) => expr_eq(&**c1, &**c2) && exprs_eq(args1, args2),
            _ => false,
        },
        Expr::Grouping(x) => match b {
            Expr::Grouping(y) => expr_eq(&x.expr, &y.expr),
            _ => false,
        },
        Expr::Variable(x) => match b {
            Expr::Variable(y) => token_eq(&x.name, &y.name),
            _ => false,
        },
        Expr::Assign(i1, e1) => match b {
            Expr::Assign(i2, e2) => token_eq(&i1.name, &i2.name) && expr_eq(&**e1, &**e2),
            _ => false,
        },
    }
}

/// Structural equality of expression vectors, by their models.
pub fn exprs_eq(a: &Vec<Expr>, b: &Vec<Expr>) -> (r: bool)
    ensures
        r == (exprs_view(a@) == exprs_view(b@)),
    decreases a,
{
    proof {
        lemma_exprs_view_index(a@);
        lemma_exprs_view_index(b@);
    }
    if a.len() != b.len() {
        return false;
    }
    let mut i: usize = 0;
    while i < a.len()
        invariant
            a@.len() == b@.len(),
            i <= a@.len(),
            exprs_view(a@).len() == a@.len(),
            exprs_view(b@).len() == b@.len(),
            forall|j: int| 0 <= j < a@.len() ==> #[trigger] exprs_view(a@)[j] == expr_view(a@[j]),
            forall|j: int| 0 <= j < b@.len() ==> #[trigger] exprs_view(b@)[j] == expr_view(b@[j]),
            forall|j: int| 0 <= j < i ==> expr_view(#[trigger] a@[j]) == expr_view(b@[j]),
        decreases a@.len() - i,
    {
        proof {
            assert(decreases_to!(a => a@[i as int]));
        }
        if !expr_eq(&a[i], &b[i]) {
            proof {
                assert(exprs_view(a@)[i as int] != exprs_view(b@)[i as int]);
            }
            return false;
        }
        i = i + 1;
    }
    proof {
        assert(exprs_view(a@) =~= exprs_view(b@));
    }
    true
}

/// Structural equality of statements, by their models.
pub fn stmt_eq(a: &Stmt, b: &Stmt) -> (r: bool)
    ensures
        r == (stmt_view(*a) == stmt_view(*b)),
    decreases a,
{
    match a {
        Stmt::Expr(x) => match b {
            Stmt::Expr(y) => expr_eq(x, y),
            _ => false,
        },
        Stmt::Print(x) => match b {
            Stmt::Print(y) => expr_eq(x, y),
            _ => false,
        },
        Stmt::Decl(i1, e1) => match b {
            Stmt::Decl(i2, e2) => token_eq(&i1.name, &i2.name) && expr_eq(e1, e2),
            _ => false,
        },
        Stmt::Block(x) => match b {
            Stmt::Block(y) => stmts_eq(x, y),
            _ => false,
        },
        Stmt::Return(x) => match b {
            Stmt::Return(y) => expr_eq(x, y),
            _ => false,
        },
        Stmt::If(c1, t1, e1) => match b {
            Stmt::If(c2, t2, e2) => expr_eq(c1, c2) && stmt_eq(&**t1, &**t2) && match (e1, e2) {
                (Some(x), Some(y)) => stmt_eq(&**x, &**y),
                (None, None) => true,
                _ => false,
            },
            _ => false,
        },
        Stmt::While(c1, b1) => match b {
            Stmt::While(c2, b2) => expr_eq(c1, c2) && stmt_eq(&**b1, &**b2),
            _ => false,
        },
        Stmt::Func(n1, p1, b1) => match b {
            Stmt::Func(n2, p2, b2) => token_eq(n1, n2) && tokens_eq(p1, p2) && stmt_eq(
                &**b1,
                &**b2,
            ),
            _ => false,
        },
    }
}

/// Structural equality of statement vectors, by their models.
pub fn stmts_eq(a: &Vec<Stmt>, b: &Vec<Stmt>) -> (r: bool)
    ensures
        r == (stmts_view(a@) == stmts_view(b@)),
    decreases a,
{
    proof {
        lemma_stmts_view_index(a@);
        lemma_stmts_view_index(b@);
    }
    if a.len() != b.len() {
        return false;
    }
    let mut i: usize = 0;
    while i < a.len()
        invariant
            a@.len() == b@.len(),
            i <= a@.len(),
            stmts_view(a@).len() == a@.len(),
            stmts_view(b@).len() == b@.len(),
            forall|j: int| 0 <= j < a@.len() ==> #[trigger] stmts_view(a@)[j] == stmt_view(a@[j]),
            forall|j: int| 0 <= j < b@.len() ==> #[trigger] stmts_view(b@)[j] == stmt_view(b@[j]),
            forall|j: int| 0 <= j < i ==> stmt_view(#[trigger] a@[j]) == stmt_view(b@[j]),
        decreases a@.len() - i,
    {
        proof {
            assert(decreases_to!(a => a@[i as int]));
        }
        if !stmt_eq(&a[i], &b[i]) {
            proof {
                assert(stmts_view(a@)[i as int] != stmts_view(b@)[i as int]);
            }
            return false;
        }
        i = i + 1;
    }
    proof {
        assert(stmts_view(a@) =~= stmts_view(b@));
    }
    true
}


// ---------------------------------------------------------------------
// Constructor views.  One rewrite per constructor, so that proofs about
// freshly built nodes unfold without manual steps.

pub broadcast proof fn lemma_expr_view_literal(v: Value)
    ensures
        #[trigger] expr_view(Expr::Literal(v)) == ExprV::Literal(value_view(v)),
{
}

pub broadcast proof fn lemma_expr_view_unary(u: Box<UnaryExpr>)
    ensures
        #[trigger] expr_view(Expr::Unary(u)) == ExprV::Unary(
            Box::new(UnaryExprV { op: u.op, expr: expr_view(u.expr) }),
        ),
{
}

pub broadcast proof fn lemma_expr_view_binary(b: Box<BinaryExpr>)
    ensures
        #[trigger] expr_view(Expr::Binary(b)) == ExprV::Binary(
            Box::new(BinaryExprV { left: expr_view(b.left), op: b.op, right: expr_view(b.right) }),
        ),
{
}

pub broadcast proof fn lemma_expr_view_logical(l: Box<LogicalExpr>)
    ensures
        #[trigger] expr_view(Expr::Logical(l)) == ExprV::Logical(
            Box::new(LogicalExprV { left: expr_view(l.left), op: l.op, right: expr_view(l.right) }),
        ),
{
}

pub broadcast proof fn lemma_expr_view_call(c: Box<Expr>, args: Vec<Expr>)
    ensures
        #[trigger] expr_view(Expr::Call(c, args)) == ExprV::Call(
            Box::new(expr_view(*c)),
            exprs_view(args@),
        ),
{
}

pub broadcast proof fn lemma_expr_view_grouping(g: Box<Grouping>)
    ensures
        #[trigger] expr_view(Expr::Grouping(g)) == ExprV::Grouping(
            Box::new(GroupingV { expr: expr_view(g.expr) }),
        ),
{
}

pub broadcast proof fn lemma_expr_view_variable(id: Identifier)
    ensures
        #[trigger] expr_view(Expr::Variable(id)) == ExprV::Variable(ident_view(id)),
{
}

pub broadcast proof fn lemma_expr_view_assign(id: Identifier, b: Box<Expr>)
    ensures
        #[trigger] expr_view(Expr::Assign(id, b)) == ExprV::Assign(
            ident_view(id),
            Box::new(expr_view(*b)),
        ),
{
}

pub broadcast proof fn lemma_stmt_view_expr(e: Expr)
    ensures
        #[trigger] stmt_view(Stmt::Expr(e)) == StmtV::Expr(expr_view(e)),
{
}

pub broadcast proof fn lemma_stmt_view_print(e: Expr)
    ensures
        #[trigger] stmt_view(Stmt::Print(e)) == StmtV::Print(expr_view(e)),
{
}

pub broadcast proof fn lemma_stmt_view_decl(id: Identifier, e: Expr)
    ensures
        #[trigger] stmt_view(Stmt::Decl(id, e)) == StmtV::Decl(ident_view(id), expr_view(e)),
{
}

pub broadcast proof fn lemma_stmt_view_block(ss: Vec<Stmt>)
    ensures
        #[trigger] stmt_view(Stmt::Block(ss)) == StmtV::Block(stmts_view(ss@)),
{
}

pub broadcast proof fn lemma_stmt_view_return(e: Expr)
    ensures
        #[trigger] stmt_view(Stmt::Return(e)) == StmtV::Return(expr_view(e)),
{
}

pub broadcast proof fn lemma_stmt_view_if(c: Expr, t: Box<Stmt>, e: Option<Box<Stmt>>)
    ensures
        #[trigger] stmt_view(Stmt::If(c, t, e)) == StmtV::If(
            expr_view(c),
            Box::new(stmt_view(*t)),
            match e {
                Some(b) => Some(Box::new(stmt_view(*b))),
                None => None,
            },
        ),
{
}

pub broadcast proof fn lemma_stmt_view_while(c: Expr, b: Box<Stmt>)
    ensures
        #[trigger] stmt_view(Stmt::While(c, b)) == StmtV::While(
            expr_view(c),
            Box::new(stmt_view(*b)),
        ),
{
}

pub broadcast proof fn lemma_stmt_view_func(name: Token, params: Vec<Token>, body: Box<Stmt>)
    ensures
        #[trigger] stmt_view(Stmt::Func(name, params, body)) == StmtV::Func(
            token_view(name),
            tokens_view(params@),
            Box::new(stmt_view(*body)),
        ),
{
}

pub broadcast proof fn lemma_value_view_nil()
    ensures
        #[trigger] value_view(Value::Nil) == ValueV::Nil,
{
}

pub broadcast proof fn lemma_value_view_bool(b: bool)
    ensures
        #[trigger] value_view(Value::Bool(b)) == ValueV::Bool(b),
{
}

pub broadcast proof fn lemma_value_view_number(n: i64)
    ensures
        #[trigger] value_view(Value::Number(n)) == ValueV::Number(n),
{
}

pub broadcast proof fn lemma_value_view_string(s: String)
    ensures
        #[trigger] value_view(Value::String(s)) == ValueV::String(s@),
{
}

pub broadcast group group_ast_views {
    lemma_expr_view_literal,
    lemma_expr_view_unary,
    lemma_expr_view_binary,
    lemma_expr_view_logical,
    lemma_expr_view_call,
    lemma_expr_view_grouping,
    lemma_expr_view_variable,
    lemma_expr_view_assign,
    lemma_stmt_view_expr,
    lemma_stmt_view_print,
    lemma_stmt_view_decl,
    lemma_stmt_view_block,
    lemma_stmt_view_return,
    lemma_stmt_view_if,
    lemma_stmt_view_while,
    lemma_stmt_view_func,
    lemma_value_view_nil,
    lemma_value_view_bool,
    lemma_value_view_number,
    lemma_value_view_string,
}

} // verus!
