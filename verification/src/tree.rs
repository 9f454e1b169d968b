//! The expression tree.

use vstd::prelude::*;

verus! {

/// A binary operator.
#[derive(Debug, Clone, Copy, PartialEq, Eq, Structural)]
pub enum Op {
    Add,
    Sub,
    Mul,
    Div,
}

/// An integer literal, the only kind of leaf.
#[derive(Debug, Clone, Copy, PartialEq, Eq, Structural)]
pub struct Number(pub i64);

/// An inner node: an operator with its two operands, each owned by the node.
#[derive(Debug)]
pub struct BinOp {
    pub l: Box<Expr>,
    pub op: Op,
    pub r: Box<Expr>,
}

/// An expression: a literal, or an operator applied to two expressions.
#[derive(Debug)]
pub enum Expr {
    BinOp(BinOp),
    Number(Number),
}

/// The node that applies `op` to `l` and `r`.
pub open spec fn node(l: Expr, op: Op, r: Expr) -> Expr {
    Expr::BinOp(BinOp { l: Box::new(l), op, r: Box::new(r) })
}

/// The leaf that holds `n`.
pub open spec fn leaf(n: i64) -> Expr {
    Expr::Number(Number(n))
}

impl BinOp {
    /// Joins two inner nodes under a new operator.
    pub fn new(l: BinOp, op: Op, r: BinOp) -> (joined: BinOp)
        ensures
            Expr::BinOp(joined) == node(Expr::BinOp(l), op, Expr::BinOp(r)),
    {
        BinOp { l: Box::new(Expr::BinOp(l)), op: op, r: Box::new(Expr::BinOp(r)) }
    }
}

impl Clone for Expr {
    /// A copy of the whole tree.
    fn clone(&self) -> (copy: Self)
        ensures
            copy == *self,
        decreases self,
    {
        match self {
            Expr::Number(n) => Expr::Number(*n),
            Expr::BinOp(b) => Expr::BinOp(
                BinOp { l: Box::new((&*b.l).clone()), op: b.op, r: Box::new((&*b.r).clone()) },
            ),
        }
    }
}

impl Clone for BinOp {
    /// A copy of the node and of both operands.
    fn clone(&self) -> (copy: Self)
        ensures
            copy == *self,
    {
        BinOp { l: Box::new((&*self.l).clone()), op: self.op, r: Box::new((&*self.r).clone()) }
    }
}

impl PartialEq for Expr {
    /// Structural equality: the same variant, the same operator, and equal
    /// operands on both sides.
    fn eq(&self, other: &Self) -> (same: bool)
        decreases self,
    {
        match (self, other) {
            (Expr::Number(a), Expr::Number(b)) => a.0 == b.0,
            (Expr::BinOp(a), Expr::BinOp(b)) => a.op == b.op && (&*a.l).eq(&*b.l) && (&*a.r).eq(
                &*b.r,
            ),
            _ => false,
        }
    }
}

impl vstd::std_specs::cmp::PartialEqSpecImpl for Expr {
    open spec fn obeys_eq_spec() -> bool {
        true
    }

    open spec fn eq_spec(&self, other: &Self) -> bool {
        *self == *other
    }
}

impl PartialEq for BinOp {
    /// Structural equality of two inner nodes.
    fn eq(&self, other: &Self) -> (same: bool) {
        self.op == other.op && (&*self.l).eq(&*other.l) && (&*self.r).eq(&*other.r)
    }
}

impl vstd::std_specs::cmp::PartialEqSpecImpl for BinOp {
    open spec fn obeys_eq_spec() -> bool {
        true
    }

    open spec fn eq_spec(&self, other: &Self) -> bool {
        *self == *other
    }
}

} // verus!
