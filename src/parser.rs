//! Builds an expression tree from a token sequence by precedence climbing.
use vstd::prelude::*;

use crate::lexer::Token;

verus! {

/// An expression tree. Each binary node owns its two operands.
#[derive(Debug, PartialEq)]
pub enum Expr {
    Add(Box<Expr>, Box<Expr>),
    Sub(Box<Expr>, Box<Expr>),
    Mul(Box<Expr>, Box<Expr>),
    Div(Box<Expr>, Box<Expr>),
    BitwiseAnd(Box<Expr>, Box<Expr>),
    BitwiseXor(Box<Expr>, Box<Expr>),
    BitwiseOr(Box<Expr>, Box<Expr>),
    BitwiseShl(Box<Expr>, Box<Expr>),
    BitwiseShr(Box<Expr>, Box<Expr>),
    BitwiseSetBit(Box<Expr>, Box<Expr>),
    BitwiseUnsetBit(Box<Expr>, Box<Expr>),
    Assign(Box<Expr>, Box<Expr>),
    Ident(String),
    Number(i64),
}

/// Why a token sequence is not an expression.
#[derive(Debug, Clone, Copy, PartialEq, Eq, Structural)]
pub enum ParseError {
    /// An operand or a closing parenthesis is missing, or tokens are left over.
    Malformed,
}

/// The loosest level of the ladder: assignment.
pub const ASSIGN_LEVEL: u8 = 8;

/// The precedence level of a binary operator token, from 1 (binds tightest)
/// to `ASSIGN_LEVEL` (binds loosest); 0 for a token that is no binary operator.
///
/// 1: `'` set bit, `.` unset bit; 2: `*` `/`; 3: `+` `-`; 4: `<<` `>>`;
/// 5: `&`; 6: `^`; 7: `|`; 8: `=`.
pub open spec fn op_level(t: Token) -> nat {
    match t {
        Token::Apostrophe | Token::Dot => 1,
        Token::Star | Token::Slash => 2,
        Token::Plus | Token::Minus => 3,
        Token::DoubleLt | Token::DoubleGt => 4,
        Token::And => 5,
        Token::Caret => 6,
        Token::Pipe => 7,
        Token::Eq => 8,
        _ => 0,
    }
}

/// The node that operator `t` makes of two operands.
pub open spec fn combine(t: Token, l: Expr, r: Expr) -> Expr {
    match t {
        Token::Apostrophe => Expr::BitwiseSetBit(Box::new(l), Box::new(r)),
        Token::Dot => Expr::BitwiseUnsetBit(Box::new(l), Box::new(r)),
        Token::Star => Expr::Mul(Box::new(l), Box::new(r)),
        Token::Slash => Expr::Div(Box::new(l), Box::new(r)),
        Token::Plus => Expr::Add(Box::new(l), Box::new(r)),
        Token::Minus => Expr::Sub(Box::new(l), Box::new(r)),
        Token::DoubleLt => Expr::BitwiseShl(Box::new(l), Box::new(r)),
        Token::DoubleGt => Expr::BitwiseShr(Box::new(l), Box::new(r)),
        Token::And => Expr::BitwiseAnd(Box::new(l), Box::new(r)),
        Token::Caret => Expr::BitwiseXor(Box::new(l), Box::new(r)),
        Token::Pipe => Expr::BitwiseOr(Box::new(l), Box::new(r)),
        _ => Expr::Assign(Box::new(l), Box::new(r)),
    }
}

/// The expression of precedence `level` that starts at `pos`, with the
/// position after it. Level 0 is a primary: an integer, an identifier, or a
/// parenthesised expression. Every parse consumes at least one token, which
/// the position checks below make explicit for the termination argument.
pub open spec fn parse_level(ts: Seq<Token>, pos: int, level: nat) -> Option<(Expr, int)>
    decreases ts.len() - pos, level, 1nat,
{
    if level == 0 {
        if pos < 0 || pos >= ts.len() {
            None
        } else {
            match ts[pos] {
                Token::Integer(n) => Some((Expr::Number(n), pos + 1)),
                Token::Ident(name) => Some((Expr::Ident(name), pos + 1)),
                Token::LeftParen => match parse_level(ts, pos + 1, ASSIGN_LEVEL as nat) {
                    Some((e, p)) => if 0 <= p < ts.len() && ts[p] is RightParen {
                        Some((e, p + 1))
                    } else {
                        None
                    },
                    None => None,
                },
                _ => None,
            }
        }
    } else {
        match parse_level(ts, pos, (level - 1) as nat) {
            Some((lhs, p)) => if pos < p <= ts.len() {
                fold_level(ts, level, lhs, p)
            } else {
                None
            },
            None => None,
        }
    }
}

/// Folds operators of `level` and their right operands onto `lhs`, left to
/// right, starting at `pos`.
pub open spec fn fold_level(ts: Seq<Token>, level: nat, lhs: Expr, pos: int) -> Option<(Expr, int)>
    decreases ts.len() - pos, level, 0nat,
{
    if 0 <= pos < ts.len() && level > 0 && op_level(ts[pos]) == level {
        match parse_level(ts, pos + 1, (level - 1) as nat) {
            Some((rhs, p)) => if pos + 1 < p <= ts.len() {
                fold_level(ts, level, combine(ts[pos], lhs, rhs), p)
            } else {
                None
            },
            None => None,
        }
    } else {
        Some((lhs, pos))
    }
}

/// The expression that the whole token sequence forms.
pub open spec fn parse_tokens(ts: Seq<Token>) -> Result<Expr, ParseError> {
    match parse_level(ts, 0, ASSIGN_LEVEL as nat) {
        Some((e, p)) => if p == ts.len() {
            Ok(e)
        } else {
            Err(ParseError::Malformed)
        },
        None => Err(ParseError::Malformed),
    }
}

fn level_of(t: &Token) -> (r: u8)
    ensures
        r as nat == op_level(*t),
{
    match t {
        Token::Apostrophe | Token::Dot => 1,
        Token::Star | Token::Slash => 2,
        Token::Plus | Token::Minus => 3,
        Token::DoubleLt | Token::DoubleGt => 4,
        Token::And => 5,
        Token::Caret => 6,
        Token::Pipe => 7,
        Token::Eq => 8,
        _ => 0,
    }
}

fn node(t: &Token, l: Expr, r: Expr) -> (e: Expr)
    ensures
        e == combine(*t, l, r),
{
    match t {
        Token::Apostrophe => Expr::BitwiseSetBit(Box::new(l), Box::new(r)),
        Token::Dot => Expr::BitwiseUnsetBit(Box::new(l), Box::new(r)),
        Token::Star => Expr::Mul(Box::new(l), Box::new(r)),
        Token::Slash => Expr::Div(Box::new(l), Box::new(r)),
        Token::Plus => Expr::Add(Box::new(l), Box::new(r)),
        Token::Minus => Expr::Sub(Box::new(l), Box::new(r)),
        Token::DoubleLt => Expr::BitwiseShl(Box::new(l), Box::new(r)),
        Token::DoubleGt => Expr::BitwiseShr(Box::new(l), Box::new(r)),
        Token::And => Expr::BitwiseAnd(Box::new(l), Box::new(r)),
        Token::Caret => Expr::BitwiseXor(Box::new(l), Box::new(r)),
        Token::Pipe => Expr::BitwiseOr(Box::new(l), Box::new(r)),
        _ => Expr::Assign(Box::new(l), Box::new(r)),
    }
}

/// What a parse at `pos` gave, with the position seen as an integer.
pub open spec fn parsed_at(r: Option<(Expr, usize)>) -> Option<(Expr, int)> {
    match r {
        Some((e, p)) => Some((e, p as int)),
        None => None,
    }
}

/// An integer, an identifier, or a parenthesised expression at `pos`.
fn primary(ts: &Vec<Token>, pos: usize) -> (r: Option<(Expr, usize)>)
    requires
        pos <= ts@.len(),
    ensures
        parsed_at(r) == parse_level(ts@, pos as int, 0),
        r matches Some((_, p)) ==> pos < p <= ts@.len(),
    decreases ts@.len() - pos, 0nat, 0nat,
{
    if pos >= ts.len() {
        return None;
    }
    match &ts[pos] {
        Token::Integer(n) => Some((Expr::Number(*n), pos + 1)),
        Token::Ident(name) => Some((Expr::Ident(name.clone()), pos + 1)),
        Token::LeftParen => match expr(ts, pos + 1) {
            Some((e, p)) => {
                if p < ts.len() {
                    match &ts[p] {
                        Token::RightParen => Some((e, p + 1)),
                        _ => None,
                    }
                } else {
                    None
                }
            },
            None => None,
        },
        _ => None,
    }
}

/// The expression of precedence `level` at `pos`: one operand of the level
/// below, then each operator of this level with its right operand, folded to
/// the left.
fn binary(ts: &Vec<Token>, pos: usize, level: u8) -> (r: Option<(Expr, usize)>)
    requires
        pos <= ts@.len(),
        level <= ASSIGN_LEVEL,
    ensures
        parsed_at(r) == parse_level(ts@, pos as int, level as nat),
        r matches Some((_, p)) ==> pos < p <= ts@.len(),
    decreases ts@.len() - pos, level as nat, 1nat,
{
    if level == 0 {
        return primary(ts, pos);
    }
    let (mut lhs, mut p) = match binary(ts, pos, level - 1) {
        Some(first) => first,
        None => return None,
    };
    while p < ts.len() && level_of(&ts[p]) == level
        invariant
            1 <= level <= ASSIGN_LEVEL,
            pos < p <= ts@.len(),
            parse_level(ts@, pos as int, level as nat) == fold_level(ts@, level as nat, lhs, p as int),
        decreases ts@.len() - p,
    {
        match binary(ts, p + 1, level - 1) {
            Some((rhs, q)) => {
                lhs = node(&ts[p], lhs, rhs);
                p = q;
            },
            None => {
                return None;
            },
        }
    }
    Some((lhs, p))
}

/// A whole expression at `pos`: the loosest level of the ladder.
fn expr(ts: &Vec<Token>, pos: usize) -> (r: Option<(Expr, usize)>)
    requires
        pos <= ts@.len(),
    ensures
        parsed_at(r) == parse_level(ts@, pos as int, ASSIGN_LEVEL as nat),
        r matches Some((_, p)) ==> pos < p <= ts@.len(),
    decreases ts@.len() - pos, ASSIGN_LEVEL as nat + 1, 1nat,
{
    binary(ts, pos, ASSIGN_LEVEL)
}

/// Parses a whole token sequence into one expression.
///
/// Precedence, from tightest to loosest: primaries, `'` and `.`, `*` and
/// `/`, `+` and `-`, `<<` and `>>`, `&`, `^`, `|`, `=`. Every level is left
/// associative. The sequence must form exactly one expression: an empty
/// sequence, a missing operand or parenthesis, and tokens left over after
/// the expression are all `Malformed`.
pub fn parse(tokens: &Vec<Token>) -> (r: Result<Expr, ParseError>)
    ensures
        r == parse_tokens(tokens@),
{
    match expr(tokens, 0) {
        Some((e, p)) => {
            if p == tokens.len() {
                Ok(e)
            } else {
                Err(ParseError::Malformed)
            }
        },
        None => Err(ParseError::Malformed),
    }
}

} // verus!
