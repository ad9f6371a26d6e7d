//! Evaluates an expression tree against a variable environment.
use vstd::math::abs;
use vstd::prelude::*;

use crate::context::Context;
use crate::lexer::{digit_value, digits_value, is_ascii_digit, lemma_decimal_literal, lex, LexError, Token, TokenView};
use crate::parser::{fold_level, parse_level, parse_tokens, Expr, ParseError};
use vstd::string::*;

verus! {

/// The result of an evaluation.
#[derive(Debug, Clone, Copy, PartialEq, Eq, Structural)]
pub enum Value {
    Number(i64),
}

/// The character of the decimal digit `d`.
pub open spec fn digit_char(d: nat) -> char {
    (d + '0' as nat) as char
}

/// The decimal digits of `n`, most significant first, without leading zeros.
pub open spec fn decimal_digits(n: nat) -> Seq<char>
    decreases n,
{
    if n < 10 {
        seq![digit_char(n)]
    } else {
        decimal_digits(n / 10).push(digit_char(n % 10))
    }
}

/// `n` written in decimal, with a leading `-` when it is negative.
pub open spec fn decimal_text(n: int) -> Seq<char> {
    if n < 0 {
        seq!['-'] + decimal_digits((-n) as nat)
    } else {
        decimal_digits(n as nat)
    }
}

/// `t` with spaces in front up to `width` characters.
pub open spec fn padded(t: Seq<char>, width: nat) -> Seq<char> {
    if t.len() < width {
        Seq::new((width - t.len()) as nat, |_i: int| ' ') + t
    } else {
        t
    }
}

/// Relies on `ToString` for `i64` (its `Display`): the decimal digits, with
/// a leading `-` when negative.
#[verifier::external_body]
fn decimal_string(n: i64) -> (r: String)
    ensures
        r@ == decimal_text(n as int),
{
    n.to_string()
}

impl Value {
    /// The value in decimal, right-aligned in a field of `width` characters.
    pub fn to_decimal(&self, width: usize) -> (r: String)
        ensures
            r@ == padded(decimal_text(self->Number_0 as int), width as nat),
    {
        let Value::Number(n) = *self;
        let digits = decimal_string(n);
        let len = digits.as_str().unicode_len();
        let mut out = String::new();
        let mut k: usize = len;
        proof {
            reveal_strlit(" ");
        }
        while k < width
            invariant
                len == digits@.len(),
                len <= k <= width || (k == len && len >= width),
                out@ =~= Seq::new((k - len) as nat, |_i: int| ' '),
            decreases width - k,
        {
            proof {
                reveal_strlit(" ");
            }
            out.append(" ");
            k = k + 1;
        }
        out.append(digits.as_str());
        out
    }
}

/// Why an expression has no value.
#[derive(Debug, Clone, PartialEq, Eq)]
pub enum EvalError {
    /// A variable that the environment does not bind.
    UnboundVariable(String),
    /// A division whose divisor is zero.
    DivisionByZero,
    /// An assignment whose left side is not a bare identifier.
    InvalidAssignmentTarget,
    /// An addition, subtraction, multiplication or division whose result
    /// does not fit in an `i64`.
    Overflow,
    /// A shift amount or bit index outside `0..64`.
    ShiftOutOfRange,
}

/// `x` as an `i64`, or `Overflow` where it does not fit.
pub open spec fn fitted(x: int) -> Result<i64, EvalError> {
    if i64::MIN <= x <= i64::MAX {
        Ok(x as i64)
    } else {
        Err(EvalError::Overflow)
    }
}

/// Division that rounds toward zero.
pub open spec fn quotient(a: int, b: int) -> int {
    let q: int = abs(a) as int / abs(b) as int;
    if (a < 0) == (b < 0) {
        q
    } else {
        -q
    }
}

/// What the operator of node `e` makes of its operands' values `a` and `b`.
/// Shift amounts and bit indices must lie in `0..64`.
pub open spec fn apply_op(e: Expr, a: i64, b: i64) -> Result<i64, EvalError> {
    let shift_ok = 0 <= b < 64;
    match e {
        Expr::Add(..) => fitted(a + b),
        Expr::Sub(..) => fitted(a - b),
        Expr::Mul(..) => fitted(a * b),
        Expr::Div(..) => if b == 0 {
            Err(EvalError::DivisionByZero)
        } else {
            fitted(quotient(a as int, b as int))
        },
        Expr::BitwiseAnd(..) => Ok(a & b),
        Expr::BitwiseXor(..) => Ok(a ^ b),
        Expr::BitwiseOr(..) => Ok(a | b),
        Expr::BitwiseShl(..) => if shift_ok {
            Ok(a << b)
        } else {
            Err(EvalError::ShiftOutOfRange)
        },
        Expr::BitwiseShr(..) => if shift_ok {
            Ok(a >> b)
        } else {
            Err(EvalError::ShiftOutOfRange)
        },
        Expr::BitwiseSetBit(..) => if shift_ok {
            Ok(a | (1i64 << b))
        } else {
            Err(EvalError::ShiftOutOfRange)
        },
        Expr::BitwiseUnsetBit(..) => if shift_ok {
            Ok(a & !(1i64 << b))
        } else {
            Err(EvalError::ShiftOutOfRange)
        },
        _ => Err(EvalError::InvalidAssignmentTarget),
    }
}

/// Evaluates `e` in `env`: the environment afterwards and the value or error.
/// Operands are evaluated left to right, and an assignment evaluates its
/// right side first; the first error ends the evaluation, and assignments
/// made before it stay.
pub open spec fn eval(env: Map<Seq<char>, Value>, e: Expr) -> (Map<Seq<char>, Value>, Result<Value, EvalError>)
    decreases e,
{
    match e {
        Expr::Number(n) => (env, Ok(Value::Number(n))),
        Expr::Ident(name) => if env.contains_key(name@) {
            (env, Ok(env[name@]))
        } else {
            (env, Err(EvalError::UnboundVariable(name)))
        },
        Expr::Assign(l, r) => {
            let (env1, rv) = eval(env, *r);
            match rv {
                Err(err) => (env1, Err(err)),
                Ok(v) => match *l {
                    Expr::Ident(name) => (env1.insert(name@, v), Ok(v)),
                    _ => (env1, Err(EvalError::InvalidAssignmentTarget)),
                },
            }
        },
        Expr::Add(l, r) | Expr::Sub(l, r) | Expr::Mul(l, r) | Expr::Div(l, r)
        | Expr::BitwiseAnd(l, r) | Expr::BitwiseXor(l, r) | Expr::BitwiseOr(l, r)
        | Expr::BitwiseShl(l, r) | Expr::BitwiseShr(l, r) | Expr::BitwiseSetBit(l, r)
        | Expr::BitwiseUnsetBit(l, r) => {
            let (env1, lv) = eval(env, *l);
            match lv {
                Err(err) => (env1, Err(err)),
                Ok(a) => {
                    let (env2, rv) = eval(env1, *r);
                    match rv {
                        Err(err) => (env2, Err(err)),
                        Ok(b) => match apply_op(e, a->Number_0, b->Number_0) {
                            Ok(x) => (env2, Ok(Value::Number(x))),
                            Err(err) => (env2, Err(err)),
                        },
                    }
                },
            }
        },
    }
}

/// Combines the operands' values for the binary node `e`.
fn apply(e: &Expr, a: i64, b: i64) -> (r: Result<i64, EvalError>)
    ensures
        r == apply_op(*e, a, b),
{
    let shift_ok = 0 <= b && b < 64;
    match e {
        Expr::Add(..) => match a.checked_add(b) {
            Some(x) => Ok(x),
            None => Err(EvalError::Overflow),
        },
        Expr::Sub(..) => match a.checked_sub(b) {
            Some(x) => Ok(x),
            None => Err(EvalError::Overflow),
        },
        Expr::Mul(..) => match a.checked_mul(b) {
            Some(x) => Ok(x),
            None => Err(EvalError::Overflow),
        },
        Expr::Div(..) => {
            if b == 0 {
                Err(EvalError::DivisionByZero)
            } else {
                let ua: i128 = if a < 0 { -(a as i128) } else { a as i128 };
                let ub: i128 = if b < 0 { -(b as i128) } else { b as i128 };
                let uq: i128 = ua / ub;
                let q: i128 = if (a < 0) == (b < 0) { uq } else { -uq };
                if i64::MIN as i128 <= q && q <= i64::MAX as i128 {
                    Ok(q as i64)
                } else {
                    Err(EvalError::Overflow)
                }
            }
        },
        Expr::BitwiseAnd(..) => Ok(a & b),
        Expr::BitwiseXor(..) => Ok(a ^ b),
        Expr::BitwiseOr(..) => Ok(a | b),
        Expr::BitwiseShl(..) => if shift_ok {
            Ok(a << b)
        } else {
            Err(EvalError::ShiftOutOfRange)
        },
        Expr::BitwiseShr(..) => if shift_ok {
            Ok(a >> b)
        } else {
            Err(EvalError::ShiftOutOfRange)
        },
        Expr::BitwiseSetBit(..) => if shift_ok {
            Ok(a | (1i64 << b))
        } else {
            Err(EvalError::ShiftOutOfRange)
        },
        Expr::BitwiseUnsetBit(..) => if shift_ok {
            Ok(a & !(1i64 << b))
        } else {
            Err(EvalError::ShiftOutOfRange)
        },
        _ => Err(EvalError::InvalidAssignmentTarget),
    }
}

/// Evaluates `expr` against `ctx`, binding variables on assignment.
pub fn execute(ctx: &mut Context, expr: &Expr) -> (r: Result<Value, EvalError>)
    requires
        old(ctx).wf(),
    ensures
        final(ctx).wf(),
        (final(ctx)@, r) == eval(old(ctx)@, *expr),
    decreases expr,
{
    match expr {
        Expr::Number(n) => Ok(Value::Number(*n)),
        Expr::Ident(name) => match ctx.lookup_variable(name.clone()) {
            Some(v) => Ok(v),
            None => Err(EvalError::UnboundVariable(name.clone())),
        },
        Expr::Assign(l, r) => {
            let v = match execute(ctx, r) {
                Ok(v) => v,
                Err(err) => return Err(err),
            };
            match &**l {
                Expr::Ident(name) => {
                    ctx.add_variable(name.clone(), v);
                    Ok(v)
                },
                _ => Err(EvalError::InvalidAssignmentTarget),
            }
        },
        Expr::Add(l, r) | Expr::Sub(l, r) | Expr::Mul(l, r) | Expr::Div(l, r)
        | Expr::BitwiseAnd(l, r) | Expr::BitwiseXor(l, r) | Expr::BitwiseOr(l, r)
        | Expr::BitwiseShl(l, r) | Expr::BitwiseShr(l, r) | Expr::BitwiseSetBit(l, r)
        | Expr::BitwiseUnsetBit(l, r) => {
            let a = match execute(ctx, l) {
                Ok(Value::Number(a)) => a,
                Err(err) => return Err(err),
            };
            let b = match execute(ctx, r) {
                Ok(Value::Number(b)) => b,
                Err(err) => return Err(err),
            };
            match apply(expr, a, b) {
                Ok(x) => Ok(Value::Number(x)),
                Err(err) => Err(err),
            }
        },
    }
}

proof fn lemma_decimal_digits(n: nat)
    ensures
        decimal_digits(n).len() > 0,
        forall|k: int| 0 <= k < decimal_digits(n).len() ==> is_ascii_digit(#[trigger] decimal_digits(n)[k]),
        digits_value(decimal_digits(n), 10) == n,
    decreases n,
{
    if n >= 10 {
        lemma_decimal_digits(n / 10);
        let d = decimal_digits(n);
        assert(d.drop_last() =~= decimal_digits(n / 10));
        assert(forall|k: int| 0 <= k < d.len() - 1 ==> d[k] == decimal_digits(n / 10)[k]);
        assert((n / 10) * 10 + n % 10 == n);
        let c = digit_char(n % 10);
        assert(c as int == n % 10 + 48);
        assert(digit_value(c, 10) == Some((n % 10) as u32));
        assert(d.last() == c);
        assert(digits_value(d, 10) == digits_value(d.drop_last(), 10) * 10 + (n % 10));
    } else {
        let c = digit_char(n);
        assert(c as int == n + 48);
        assert(decimal_digits(n).drop_last() =~= Seq::<char>::empty());
        assert(digits_value(Seq::<char>::empty(), 10) == 0);
        assert(digit_value(c, 10) == Some(n as u32));
    }
}

proof fn lemma_single_literal(ts: Seq<Token>, level: nat)
    requires
        ts.len() == 1,
        ts[0] is Integer,
    ensures
        parse_level(ts, 0, level) == Some((Expr::Number(ts[0]->Integer_0), 1int)),
    decreases level,
{
    let e = Expr::Number(ts[0]->Integer_0);
    if level > 0 {
        lemma_single_literal(ts, (level - 1) as nat);
        assert(fold_level(ts, level, e, 1) == Some((e, 1int)));
    } else {
        assert(parse_level(ts, 0, 0) == Some((e, 1int)));
    }
}

/// A non-negative value written in decimal reads back as itself: the text
/// is one integer token, that token sequence parses as the number, and the
/// number evaluates to the value in any environment, which it leaves as it
/// was.
pub proof fn lemma_decimal_round_trip(v: Value, toks: Seq<Token>, env: Map<Seq<char>, Value>)
    requires
        v->Number_0 >= 0,
        lex(decimal_text(v->Number_0 as int)) == Ok::<Seq<TokenView>, LexError>(
            toks.map_values(|t: Token| t@),
        ),
    ensures
        lex(decimal_text(v->Number_0 as int)) == Ok::<Seq<TokenView>, LexError>(
            seq![TokenView::Integer(v->Number_0)],
        ),
        parse_tokens(toks) == Ok::<Expr, ParseError>(Expr::Number(v->Number_0)),
        eval(env, Expr::Number(v->Number_0)) == (env, Ok::<Value, EvalError>(v)),
{
    let n = v->Number_0;
    lemma_decimal_digits(n as nat);
    lemma_decimal_literal(decimal_digits(n as nat));
    let views = toks.map_values(|t: Token| t@);
    assert(views =~= seq![TokenView::Integer(n)]);
    assert(views.len() == 1);
    assert(views[0] == toks[0]@);
    assert(toks[0]@ == TokenView::Integer(n));
    assert(toks[0] == Token::Integer(n));
    lemma_single_literal(toks, 8);
}

} // verus!
