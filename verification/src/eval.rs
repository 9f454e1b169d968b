//! Evaluation of an expression tree.

use vstd::prelude::*;
use crate::tree::{BinOp, Expr, Number, Op};

verus! {

/// Why a tree has no value.
#[derive(Debug, Clone, Copy, PartialEq, Eq, Structural)]
pub enum EvaluationError {
    /// The right operand of a division is zero.
    DivisionByZero,
    /// The exact result of an operation does not fit in an `i64`.
    Overflow,
}

/// The quotient of `l` by `r`, rounded toward zero: the quotient of their
/// magnitudes, negated where the signs differ.
pub open spec fn quotient(l: int, r: int) -> int
    recommends
        r != 0,
{
    let magnitude = vstd::math::abs(l) / vstd::math::abs(r);
    if (l < 0) == (r < 0) {
        magnitude as int
    } else {
        -magnitude
    }
}

/// An exact result, if it is an `i64`.
pub open spec fn fitted(v: int) -> Result<i64, EvaluationError> {
    if i64::MIN <= v <= i64::MAX {
        Ok(v as i64)
    } else {
        Err(EvaluationError::Overflow)
    }
}

/// What `op` makes of the operand values `l` and `r`.
pub open spec fn applied(op: Op, l: i64, r: i64) -> Result<i64, EvaluationError> {
    match op {
        Op::Add => fitted(l + r),
        Op::Sub => fitted(l - r),
        Op::Mul => fitted(l * r),
        Op::Div => if r == 0 {
            Err(EvaluationError::DivisionByZero)
        } else {
            fitted(quotient(l as int, r as int))
        },
    }
}

/// The value of a tree: a literal is its own value; a node has the value of
/// its left operand combined with that of its right operand, and the error of
/// the left operand, else of the right, where one of them has none.
pub open spec fn value(e: Expr) -> Result<i64, EvaluationError>
    decreases e,
{
    match e {
        Expr::Number(Number(n)) => Ok(n),
        Expr::BinOp(b) => match value(*b.l) {
            Err(why) => Err(why),
            Ok(l) => match value(*b.r) {
                Err(why) => Err(why),
                Ok(r) => applied(b.op, l, r),
            },
        },
    }
}

/// Applies one operator to two values.
pub fn apply(op: Op, l: i64, r: i64) -> (out: Result<i64, EvaluationError>)
    ensures
        out == applied(op, l, r),
{
    match op {
        Op::Add => match l.checked_add(r) {
            Some(v) => Ok(v),
            None => Err(EvaluationError::Overflow),
        },
        Op::Sub => match l.checked_sub(r) {
            Some(v) => Ok(v),
            None => Err(EvaluationError::Overflow),
        },
        Op::Mul => match l.checked_mul(r) {
            Some(v) => Ok(v),
            None => Err(EvaluationError::Overflow),
        },
        Op::Div => if r == 0 {
            Err(EvaluationError::DivisionByZero)
        } else {
            match l.checked_div(r) {
                Some(v) => Ok(v),
                None => Err(EvaluationError::Overflow),
            }
        },
    }
}

/// Evaluates a tree, left operand before right.
pub fn calc(e: Expr) -> (out: Result<i64, EvaluationError>)
    ensures
        out == value(e),
    decreases e,
{
    match e {
        Expr::Number(Number(n)) => Ok(n),
        Expr::BinOp(BinOp { l, op, r }) => {
            let l = calc(*l)?;
            let r = calc(*r)?;
            apply(op, l, r)
        },
    }
}

} // verus!
