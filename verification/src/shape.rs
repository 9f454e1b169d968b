//! The shape of the trees that the grammar reads: precedence and
//! associativity, said of the tree.

use vstd::prelude::*;
use crate::grammar::{
    atom, lemma_product_link_tail, lemma_sum_link_tail, parsed, product, product_chain,
    product_link, sum_chain, sum_link, Link,
};
use crate::text::blanks;
use crate::tree::{node, Expr, Op};

verus! {

/// A tree of the multiplicative level: a leaf, or `*` or `/` applied to such
/// a tree on the left and a leaf on the right.
pub open spec fn is_product_tree(e: Expr) -> bool
    decreases e,
{
    match e {
        Expr::Number(_) => true,
        Expr::BinOp(b) => {
            &&& b.op == Op::Mul || b.op == Op::Div
            &&& *b.r is Number
            &&& is_product_tree(*b.l)
        },
    }
}

/// A tree of the additive level: a tree of the multiplicative level, or `+`
/// or `-` applied to a tree of the additive level on the left and one of the
/// multiplicative level on the right.
pub open spec fn is_sum_tree(e: Expr) -> bool
    decreases e,
{
    match e {
        Expr::Number(_) => true,
        Expr::BinOp(b) => is_product_tree(e) || {
            &&& b.op == Op::Add || b.op == Op::Sub
            &&& is_product_tree(*b.r)
            &&& is_sum_tree(*b.l)
        },
    }
}

/// A multiplicative chain behind a tree of its level gives a tree of its
/// level.
pub proof fn lemma_product_chain_shape(left: Expr, s: Seq<char>)
    requires
        is_product_tree(left),
    ensures
        product_chain(left, s) matches Ok((_, e)) ==> is_product_tree(e),
    decreases s.len(),
{
    match product_link(s) {
        Link::Present(rest, op, right) => {
            lemma_product_link_tail(s);
            lemma_product_chain_shape(node(left, op, right), rest);
        },
        _ => {},
    }
}

/// What the multiplicative level reads is a tree of that level.
pub proof fn lemma_product_shape(s: Seq<char>)
    ensures
        product(s) matches Ok((_, e)) ==> is_product_tree(e),
{
    match atom(s) {
        Ok((rest, first)) => {
            lemma_product_chain_shape(first, rest);
        },
        _ => {},
    }
}

/// An additive chain behind a tree of its level gives a tree of its level.
pub proof fn lemma_sum_chain_shape(left: Expr, s: Seq<char>)
    requires
        is_sum_tree(left),
    ensures
        sum_chain(left, s) matches Ok((_, e)) ==> is_sum_tree(e),
    decreases s.len(),
{
    match sum_link(s) {
        Link::Present(rest, op, right) => {
            lemma_sum_link_tail(s);
            let sign = s.skip(blanks(s) as int);
            let after = sign.skip(1);
            lemma_product_shape(after.skip(blanks(after) as int));
            lemma_sum_chain_shape(node(left, op, right), rest);
        },
        _ => {},
    }
}

/// Precedence and associativity, as the shape of every tree that is read:
/// the right operand of `+` or `-` holds no `+` or `-` at its root, so a
/// chain of them groups from the left; the right operand of `*` or `/` is a
/// number, and below `*` or `/` there is no `+` or `-` at all, so the
/// multiplicative operators bind tighter.
pub proof fn lemma_shape(s: Seq<char>)
    ensures
        parsed(s) matches Ok((_, e)) ==> is_sum_tree(e),
{
    lemma_product_shape(s);
    match product(s) {
        Ok((rest, first)) => {
            lemma_product_is_sum(first);
            lemma_sum_chain_shape(first, rest);
        },
        _ => {},
    }
}

/// A tree of the multiplicative level is one of the additive level too.
pub proof fn lemma_product_is_sum(e: Expr)
    requires
        is_product_tree(e),
    ensures
        is_sum_tree(e),
{
}

} // verus!
