//! Display forms of runtime values: the decimal form of numbers, the
//! display form of every value, and the text that `print` emits.

use vstd::prelude::*;
use crate::ast::{
    Value, ValueV, Expr, ExprV, UnaryOperator, LogicalOperator, BinaryOperator, value_view,
    expr_view, exprs_view, lemma_exprs_view_index,
};
use crate::text::push_char;

verus! {

/// The character for one decimal digit.
pub open spec fn digit_char(d: nat) -> char {
    if d == 0 {
        '0'
    } else if d == 1 {
        '1'
    } else if d == 2 {
        '2'
    } else if d == 3 {
        '3'
    } else if d == 4 {
        '4'
    } else if d == 5 {
        '5'
    } else if d == 6 {
        '6'
    } else if d == 7 {
        '7'
    } else if d == 8 {
        '8'
    } else {
        '9'
    }
}

/// The decimal digits of a natural number, most significant first.
pub open spec fn dec_digits(n: nat) -> Seq<char>
    decreases n,
{
    if n < 10 {
        seq![digit_char(n)]
    } else {
        dec_digits(n / 10).push(digit_char(n % 10))
    }
}

/// The decimal form of a signed number: a minus sign for negatives,
/// then the digits of the magnitude.
pub open spec fn dec_str_int(n: int) -> Seq<char> {
    if n < 0 {
        seq!['-'] + dec_digits((-n) as nat)
    } else {
        dec_digits(n as nat)
    }
}

/// The display form of a value: `nil`, `true`/`false`, decimal numbers,
/// strings in their quotes, and function markers.
pub open spec fn val_display(v: ValueV) -> Seq<char>
    decreases v,
{
    match v {
        ValueV::Nil => "nil"@,
        ValueV::Bool(b) => if b {
            "true"@
        } else {
            "false"@
        },
        ValueV::Number(n) => dec_str_int(n as int),
        ValueV::String(s) => seq!['"'] + s + seq!['"'],
        ValueV::BuiltinFunc(name, _, _) => "<built-in function "@ + name + ">"@,
        ValueV::Func(tok, _, _, _) => "<function "@ + tok.lexeme + ">"@,
        ValueV::Return(b) => "return "@ + val_display(*b) + ";"@,
    }
}

/// What `print` writes for a value: strings lose their quotes, every
/// other value prints its display form.
pub open spec fn print_view(v: ValueV) -> Seq<char> {
    match v {
        ValueV::String(s) => s,
        _ => val_display(v),
    }
}

fn digit_of(d: u64) -> (c: char)
    requires
        d < 10,
    ensures
        c == digit_char(d as nat),
{
    if d == 0 {
        '0'
    } else if d == 1 {
        '1'
    } else if d == 2 {
        '2'
    } else if d == 3 {
        '3'
    } else if d == 4 {
        '4'
    } else if d == 5 {
        '5'
    } else if d == 6 {
        '6'
    } else if d == 7 {
        '7'
    } else if d == 8 {
        '8'
    } else {
        '9'
    }
}

/// Appends the decimal digits of `n`.
fn push_dec(out: &mut String, n: u64)
    ensures
        final(out)@ == old(out)@ + dec_digits(n as nat),
    decreases n,
{
    if n < 10 {
        push_char(out, digit_of(n));
        proof {
            assert(out@ =~= old(out)@ + dec_digits(n as nat));
        }
    } else {
        proof {
            assert(n / 10 < n) by (nonlinear_arith)
                requires
                    n >= 10,
            ;
        }
        push_dec(out, n / 10);
        push_char(out, digit_of(n % 10));
        proof {
            assert(out@ =~= old(out)@ + dec_digits(n as nat));
        }
    }
}

/// The decimal form of a 64-bit unsigned number.
pub fn u64_to_string(n: u64) -> (r: String)
    ensures
        r@ == dec_digits(n as nat),
{
    let mut r = String::new();
    push_dec(&mut r, n);
    proof {
        assert(r@ =~= dec_digits(n as nat));
    }
    r
}

/// The decimal form of a 64-bit signed number.
pub fn num_to_string(n: i64) -> (r: String)
    ensures
        r@ == dec_str_int(n as int),
{
    let mut r = String::new();
    if n < 0 {
        push_char(&mut r, '-');
        let wide: i128 = n as i128;
        let mag: u64 = (-wide) as u64;
        proof {
            assert(mag == (-(n as int)) as nat);
        }
        push_dec(&mut r, mag);
        proof {
            assert(r@ =~= dec_str_int(n as int));
        }
    } else {
        push_dec(&mut r, n as u64);
        proof {
            assert(r@ =~= dec_str_int(n as int));
        }
    }
    r
}

/// The display form of a value.
pub fn display_value(v: &Value) -> (r: String)
    ensures
        r@ == val_display(value_view(*v)),
    decreases v,
{
    match v {
        Value::Nil => {
            let r = String::from_str("nil");
            r
        },
        Value::Bool(b) => {
            let r = if *b {
                String::from_str("true")
            } else {
                String::from_str("false")
            };
            r
        },
        Value::Number(n) => num_to_string(*n),
        Value::String(s) => {
            let mut r = String::new();
            push_char(&mut r, '"');
            r.append(s.as_str());
            push_char(&mut r, '"');
            proof {
                assert(r@ =~= val_display(value_view(*v)));
            }
            r
        },
        Value::BuiltinFunc(name, _, _) => {
            let mut r = String::from_str("<built-in function ");
            r.append(name.as_str());
            r.append(">");
            proof {
                assert(r@ =~= val_display(value_view(*v)));
            }
            r
        },
        Value::Func(tok, _, _, _) => {
            let mut r = String::from_str("<function ");
            r.append(tok.lexeme.as_str());
            r.append(">");
            proof {
                assert(r@ =~= val_display(value_view(*v)));
            }
            r
        },
        Value::Return(b) => {
            let mut r = String::from_str("return ");
            let inner = display_value(&**b);
            r.append(inner.as_str());
            r.append(";");
            proof {
                assert(r@ =~= val_display(value_view(*v)));
            }
            r
        },
    }
}

/// The text `print` emits for a value.
pub fn print_text(v: &Value) -> (r: String)
    ensures
        r@ == print_view(value_view(*v)),
{
    match v {
        Value::String(s) => s.clone(),
        _ => display_value(v),
    }
}

// ---------------------------------------------------------------------
// Rendering operators and expression trees: prefix form for binary and
// logical nodes, exactly one space between the pieces.

pub open spec fn uo_display(op: UnaryOperator) -> Seq<char> {
    match op {
        UnaryOperator::Bang => "!"@,
        UnaryOperator::Minus => "-"@,
    }
}

pub open spec fn lo_display(op: LogicalOperator) -> Seq<char> {
    match op {
        LogicalOperator::Or => "or"@,
        LogicalOperator::And => "and"@,
    }
}

pub open spec fn bo_display(op: BinaryOperator) -> Seq<char> {
    match op {
        BinaryOperator::Equal => "="@,
        BinaryOperator::EqualEqual => "=="@,
        BinaryOperator::BangEqual => "!="@,
        BinaryOperator::Less => "<"@,
        BinaryOperator::LessEqual => "<="@,
        BinaryOperator::Greater => ">"@,
        BinaryOperator::GreaterEqual => ">="@,
        BinaryOperator::Minus => "-"@,
        BinaryOperator::Plus => "+"@,
        BinaryOperator::Slash => "/"@,
        BinaryOperator::Star => "*"@,
    }
}

/// The text of an expression tree.
pub open spec fn expr_display(e: ExprV) -> Seq<char>
    decreases e,
{
    match e {
        ExprV::Literal(v) => val_display(v),
        ExprV::Unary(u) => uo_display(u.op) + expr_display(u.expr),
        ExprV::Binary(b) => seq!['('] + bo_display(b.op) + seq![' '] + expr_display(b.left)
            + seq![' '] + expr_display(b.right) + seq![')'],
        ExprV::Logical(l) => seq!['('] + lo_display(l.op) + seq![' '] + expr_display(l.left)
            + seq![' '] + expr_display(l.right) + seq![')'],
        ExprV::Call(callee, args) => expr_display(*callee) + seq!['('] + args_display(args)
            + seq![')'],
        ExprV::Grouping(g) => expr_display(g.expr),
        ExprV::Variable(id) => id.name.lexeme,
        ExprV::Assign(id, b) => id.name.lexeme + " = "@ + expr_display(*b),
    }
}

/// Argument texts joined with a comma and a space.
pub open spec fn args_display(es: Seq<ExprV>) -> Seq<char>
    decreases es,
{
    if es.len() == 0 {
        Seq::empty()
    } else if es.len() == 1 {
        expr_display(es[0])
    } else {
        expr_display(es[0]) + ", "@ + args_display(es.drop_first())
    }
}

/// Appending one more argument extends the joined text by a separator
/// and its display.
proof fn lemma_args_display_push(es: Seq<ExprV>, x: ExprV)
    requires
        es.len() >= 1,
    ensures
        args_display(es.push(x)) == args_display(es) + ", "@ + expr_display(x),
    decreases es.len(),
{
    if es.len() == 1 {
        assert(es.push(x)[0] == es[0]);
        assert(es.push(x).drop_first() =~= seq![x]);
        assert(args_display(seq![x]) == expr_display(x));
        assert(expr_display(es[0]) + ", "@ + expr_display(x) == args_display(es) + ", "@
            + expr_display(x));
    } else {
        assert(es.push(x)[0] == es[0]);
        assert(es.push(x).drop_first() =~= es.drop_first().push(x));
        lemma_args_display_push(es.drop_first(), x);
        assert(expr_display(es[0]) + ", "@ + (args_display(es.drop_first()) + ", "@
            + expr_display(x)) =~= (expr_display(es[0]) + ", "@ + args_display(es.drop_first()))
            + ", "@ + expr_display(x));
    }
}

fn render_uo(op: UnaryOperator) -> (r: String)
    ensures
        r@ == uo_display(op),
{
    match op {
        UnaryOperator::Bang => String::from_str("!"),
        UnaryOperator::Minus => String::from_str("-"),
    }
}

fn render_lo(op: LogicalOperator) -> (r: String)
    ensures
        r@ == lo_display(op),
{
    match op {
        LogicalOperator::Or => String::from_str("or"),
        LogicalOperator::And => String::from_str("and"),
    }
}

fn render_bo(op: BinaryOperator) -> (r: String)
    ensures
        r@ == bo_display(op),
{
    match op {
        BinaryOperator::Equal => String::from_str("="),
        BinaryOperator::EqualEqual => String::from_str("=="),
        BinaryOperator::BangEqual => String::from_str("!="),
        BinaryOperator::Less => String::from_str("<"),
        BinaryOperator::LessEqual => String::from_str("<="),
        BinaryOperator::Greater => String::from_str(">"),
        BinaryOperator::GreaterEqual => String::from_str(">="),
        BinaryOperator::Minus => String::from_str("-"),
        BinaryOperator::Plus => String::from_str("+"),
        BinaryOperator::Slash => String::from_str("/"),
        BinaryOperator::Star => String::from_str("*"),
    }
}

/// The text of an expression.
pub fn render_expr(e: &Expr) -> (r: String)
    ensures
        r@ == expr_display(expr_view(*e)),
    decreases e,
{
    match e {
        Expr::Literal(v) => display_value(v),
        Expr::Unary(u) => {
            let mut r = render_uo(u.op);
            let inner = render_expr(&u.expr);
            r.append(inner.as_str());
            r
        },
        Expr::Binary(b) => {
            let mut r = String::new();
            push_char(&mut r, '(');
            let ops = render_bo(b.op);
            r.append(ops.as_str());
            push_char(&mut r, ' ');
            let ls = render_expr(&b.left);
            r.append(ls.as_str());
            push_char(&mut r, ' ');
            let rs = render_expr(&b.right);
            r.append(rs.as_str());
            push_char(&mut r, ')');
            proof {
                assert(r@ =~= expr_display(expr_view(*e)));
            }
            r
        },
        Expr::Logical(l) => {
            let mut r = String::new();
            push_char(&mut r, '(');
            let ops = render_lo(l.op);
            r.append(ops.as_str());
            push_char(&mut r, ' ');
            let ls = render_expr(&l.left);
            r.append(ls.as_str());
            push_char(&mut r, ' ');
            let rs = render_expr(&l.right);
            r.append(rs.as_str());
            push_char(&mut r, ')');
            proof {
                assert(r@ =~= expr_display(expr_view(*e)));
            }
            r
        },
        Expr::Call(callee, args) => {
            let mut r = render_expr(&**callee);
            push_char(&mut r, '(');
            let argtext = render_args(args);
            r.append(argtext.as_str());
            push_char(&mut r, ')');
            proof {
                assert(r@ =~= expr_display(expr_view(*e)));
            }
            r
        },
        Expr::Grouping(g) => render_expr(&g.expr),
        Expr::Variable(id) => id.name.lexeme.clone(),
        Expr::Assign(id, b) => {
            let mut r = id.name.lexeme.clone();
            r.append(" = ");
            let inner = render_expr(&**b);
            r.append(inner.as_str());
            proof {
                assert(r@ =~= expr_display(expr_view(*e)));
            }
            r
        },
    }
}

/// The comma-joined text of an argument list.
#[verifier::loop_isolation(false)]
fn render_args(args: &Vec<Expr>) -> (r: String)
    ensures
        r@ == args_display(exprs_view(args@)),
    decreases args,
{
    let ghost esv = exprs_view(args@);
    proof {
        lemma_exprs_view_index(args@);
    }
    let mut r = String::new();
    let mut i: usize = 0;
    while i < args.len()
        invariant
            i <= args@.len(),
            esv == exprs_view(args@),
            esv.len() == args@.len(),
            r@ == args_display(esv.take(i as int)),
        decreases args@.len() - i,
    {
        proof {
            assert(decreases_to!(args => args@[i as int]));
            assert(esv.take(i + 1).drop_last() =~= esv.take(i as int));
            assert(esv.take(i + 1).last() == esv[i as int]);
        }
        if i > 0 {
            r.append(", ");
        }
        let one = render_expr(&args[i]);
        r.append(one.as_str());
        proof {
            if i == 0 {
                assert(esv.take(1) =~= seq![esv[0]]);
                assert(r@ =~= args_display(esv.take(1)));
            } else {
                lemma_args_display_push(esv.take(i as int), esv[i as int]);
                assert(esv.take(i as int).push(esv[i as int]) =~= esv.take(i + 1));
                assert(r@ =~= args_display(esv.take(i + 1)));
            }
        }
        i = i + 1;
    }
    proof {
        assert(esv.take(args@.len() as int) =~= esv);
    }
    r
}

} // verus!
