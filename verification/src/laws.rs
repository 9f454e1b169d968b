//! Laws of the reader and the evaluator, proved of the grammar and of the
//! value of a tree.

use vstd::prelude::*;
use vstd::std_specs::cmp::PartialEqSpec;
use crate::eval::{quotient, value, EvaluationError};
use crate::grammar::{
    atom, is_tail_of, lemma_literal_tail, lemma_product_link_tail, lemma_product_tail,
    lemma_sum_chain_tail, lemma_sum_link_tail, lemma_tail_of_tail, literal, parsed, product,
    product_chain, product_joined, product_link, product_op, sum, sum_chain, sum_joined,
    sum_link, sum_op, ChainFault, Link,
};
use crate::parser::{seen, ParseFailure};
use crate::shape::is_sum_tree;
use crate::text::{
    all_blank, blanks, is_blank, is_digit, lemma_blanks_are, lemma_blanks_join,
};
use crate::tree::{leaf, node, Expr, Op};
use crate::writing::{
    digits_of, lemma_digits_of, lemma_number_then, lemma_written_sum,
    lemma_written_then_dangling, signed_text, signed_value, text_of, written,
};

verus! {

/// A text that is nothing but a number within the range of an `i64` (digits,
/// with or without a minus sign before them, leading zeros allowed) is read
/// to its end as the leaf of that number, and the leaf evaluates to the
/// number.
pub proof fn lemma_bare_number(negative: bool, ds: Seq<char>)
    requires
        ds.len() > 0,
        forall|i: int| 0 <= i < ds.len() ==> is_digit(#[trigger] ds[i]),
        i64::MIN <= signed_value(negative, ds) <= i64::MAX,
    ensures
        parsed(signed_text(negative, ds)) == Ok::<_, Seq<char>>(
            (Seq::<char>::empty(), leaf(signed_value(negative, ds) as i64)),
        ),
        value(leaf(signed_value(negative, ds) as i64)) == Ok::<_, EvaluationError>(
            signed_value(negative, ds) as i64,
        ),
{
    let none = Seq::<char>::empty();
    lemma_number_then(negative, ds, none);
    assert(signed_text(negative, ds) + none =~= signed_text(negative, ds));
    lemma_blanks_are(none, 0);
    assert(none.skip(0) =~= none);
    assert(product_link(none) is Absent);
    assert(sum_link(none) is Absent);
}

/// Every `i64`, written as usual, is read to the end of its text as the leaf
/// of that number, and the leaf evaluates to the number.
pub proof fn lemma_number_round_trip(v: i64)
    ensures
        parsed(text_of(v as int)) == Ok::<_, Seq<char>>((Seq::<char>::empty(), leaf(v))),
        value(leaf(v)) == Ok::<_, EvaluationError>(v),
{
    lemma_digits_of(vstd::math::abs(v as int));
    lemma_bare_number(v < 0, digits_of(vstd::math::abs(v as int)));
}

/// Reading is a function of the characters of the text. Two results that
/// meet the contract of the reader, on texts of the same characters, say the
/// same: both hold the same tree, variant for variant, operator for operator
/// and operand for operand, with the same text left, or both are failures at
/// the same text.
pub proof fn lemma_reading_repeats<'a, 'b>(
    a: &'a str,
    b: &'b str,
    first: Result<(&'a str, Expr), ParseFailure<'a>>,
    second: Result<(&'b str, Expr), ParseFailure<'b>>,
)
    requires
        a@ == b@,
        seen(first) == parsed(a@),
        seen(second) == parsed(b@),
    ensures
        seen(first) == seen(second),
        first is Ok <==> second is Ok,
        first is Ok ==> first->Ok_0.1 == second->Ok_0.1,
        first is Ok ==> first->Ok_0.1.eq_spec(&second->Ok_0.1),
{
}

/// Nothing is made up and nothing is skipped: the text that a reading hands
/// back is what is left of the input after the characters that were read, at
/// least one; and a failure holds what is left of the input at the place
/// where the number was required.
pub proof fn lemma_rest_is_tail(s: Seq<char>)
    ensures
        parsed(s) matches Ok((rest, _)) ==> is_tail_of(rest, s) && rest.len() < s.len(),
        parsed(s) matches Err(at) ==> is_tail_of(at, s),
{
    lemma_product_tail(s);
    match product(s) {
        Ok((rest, first)) => {
            lemma_sum_chain_tail(first, rest);
            match sum_chain(first, rest) {
                Ok((end, _)) => {
                    lemma_tail_of_tail(end, rest, s);
                },
                Err(at) => {
                    lemma_tail_of_tail(at, rest, s);
                },
            }
        },
        Err(_) => {},
    }
}

/// A text that does not begin with a number is not read, and fails where it
/// begins.
pub proof fn lemma_no_number_first(s: Seq<char>)
    requires
        literal(s) is Err,
    ensures
        parsed(s) == Err::<(Seq<char>, Expr), _>(s),
{
    lemma_literal_tail(s);
}

/// An operator needs a number behind it. Where a tree has been written, an
/// operator follows behind blanks or none, and behind the operator and its
/// blanks no number begins, the reading fails, and it fails at the place
/// where the number is missing.
pub proof fn lemma_dangling_operator(
    e: Expr,
    before: Seq<char>,
    behind: Seq<char>,
    pad: Seq<char>,
    c: char,
    t: Seq<char>,
)
    requires
        is_sum_tree(e),
        all_blank(before),
        all_blank(behind),
        all_blank(pad),
        product_op(c) is Some || sum_op(c) is Some,
        literal(t.skip(blanks(t) as int)) is Err,
    ensures
        parsed(written(e, before, behind) + (pad + seq![c] + t)) == Err::<(Seq<char>, Expr), _>(
            t.skip(blanks(t) as int),
        ),
{
    let rest = pad + seq![c] + t;
    let sign = seq![c] + t;
    let missing = t.skip(blanks(t) as int);
    assert(rest =~= pad + sign);
    lemma_blanks_join(pad, sign);
    lemma_blanks_are(sign, 0);
    assert(sign.skip(0) =~= sign);
    assert(sign.skip(1) =~= t);
    assert(sign[0] == c);
    lemma_literal_tail(missing);
    if pad.len() > 0 {
        assert(rest[0] == pad[0]);
    } else {
        assert(rest[0] == c);
    }
    if product_op(c) is Some {
        assert(product_link(rest) == Link::Dangling(missing));
        lemma_written_then_dangling(e, before, behind, rest);
    } else {
        assert(product_link(rest) is Absent);
        lemma_written_sum(e, before, behind, rest);
        assert(sum_link(rest) == Link::Dangling(missing));
    }
}

/// A chain of the multiplicative level is read exactly where an atom, an
/// operator of the level and an atom follow one another, and no later
/// operator of the level lacks its atom. An atom with no such operator behind
/// it is no chain, and the level falls back on the atom alone; a missing atom
/// is the failure of the level too.
pub proof fn lemma_product_chain_or_atom(s: Seq<char>)
    ensures
        product_joined(s) is Ok <==> (atom(s) matches Ok((rest, first)) && product_link(rest)
            is Present && product_chain(first, rest) is Ok),
        product_joined(s) == Err::<(Seq<char>, Expr), _>(ChainFault::NoOperator) <==> (atom(
            s,
        ) matches Ok((rest, _)) && product_link(rest) is Absent),
        product(s) == match product_joined(s) {
            Ok(read) => Ok(read),
            Err(ChainFault::NoOperator) => atom(s),
            Err(ChainFault::Missing(at)) => Err(at),
        },
{
}

/// A chain of the additive level is read exactly where a multiplicative
/// operand, an operator of the level and a multiplicative operand follow one
/// another, and no later operator of the level lacks its operand. An operand
/// with no such operator behind it is no chain, and the level falls back on
/// the operand alone; a missing operand is the failure of the level too.
pub proof fn lemma_sum_chain_or_operand(s: Seq<char>)
    ensures
        sum_joined(s) is Ok <==> (product(s) matches Ok((rest, first)) && sum_link(rest)
            is Present && sum_chain(first, rest) is Ok),
        sum_joined(s) == Err::<(Seq<char>, Expr), _>(ChainFault::NoOperator) <==> (product(
            s,
        ) matches Ok((rest, _)) && sum_link(rest) is Absent),
        sum(s) == match sum_joined(s) {
            Ok(read) => Ok(read),
            Err(ChainFault::NoOperator) => product(s),
            Err(ChainFault::Missing(at)) => Err(at),
        },
{
}

/// A multiplicative chain behind a node, or of at least one link, gives a
/// node.
proof fn lemma_product_chain_keeps_node(left: Expr, s: Seq<char>)
    requires
        left is BinOp || product_link(s) is Present,
    ensures
        product_chain(left, s) matches Ok((_, tree)) ==> tree is BinOp,
    decreases s.len(),
{
    match product_link(s) {
        Link::Present(rest, op, right) => {
            lemma_product_link_tail(s);
            lemma_product_chain_keeps_node(node(left, op, right), rest);
        },
        _ => {},
    }
}

/// An additive chain behind a node, or of at least one link, gives a node.
proof fn lemma_sum_chain_keeps_node(left: Expr, s: Seq<char>)
    requires
        left is BinOp || sum_link(s) is Present,
    ensures
        sum_chain(left, s) matches Ok((_, tree)) ==> tree is BinOp,
    decreases s.len(),
{
    match sum_link(s) {
        Link::Present(rest, op, right) => {
            lemma_sum_link_tail(s);
            lemma_sum_chain_keeps_node(node(left, op, right), rest);
        },
        _ => {},
    }
}

/// What a chain reader gives is a node, never a bare number.
pub proof fn lemma_chain_is_a_node(s: Seq<char>)
    ensures
        product_joined(s) matches Ok((_, tree)) ==> tree is BinOp,
        sum_joined(s) matches Ok((_, tree)) ==> tree is BinOp,
{
    match atom(s) {
        Ok((rest, first)) => {
            if product_link(rest) is Present {
                lemma_product_chain_keeps_node(first, rest);
            }
        },
        Err(_) => {},
    }
    match product(s) {
        Ok((rest, first)) => {
            if sum_link(rest) is Present {
                lemma_sum_chain_keeps_node(first, rest);
            }
        },
        Err(_) => {},
    }
}

/// Blanks around an operator change nothing: with any blanks before the
/// operator and any behind it, the same operator and the same operand are
/// read, the same text is left, and a missing operand is missing at the same
/// text, as with none. So is the whole chain that begins with the operator.
pub proof fn lemma_blanks_around_operator(
    left: Expr,
    before: Seq<char>,
    c: char,
    behind: Seq<char>,
    t: Seq<char>,
)
    requires
        all_blank(before),
        all_blank(behind),
        product_op(c) is Some || sum_op(c) is Some,
    ensures
        product_link(before + seq![c] + behind + t) == product_link(seq![c] + t),
        sum_link(before + seq![c] + behind + t) == sum_link(seq![c] + t),
        product_op(c) is Some ==> product_chain(left, before + seq![c] + behind + t)
            == product_chain(left, seq![c] + t),
        sum_op(c) is Some ==> sum_chain(left, before + seq![c] + behind + t) == sum_chain(
            left,
            seq![c] + t,
        ),
{
    let tight = seq![c] + t;
    let wide = seq![c] + behind + t;
    let padded = before + seq![c] + behind + t;
    assert(padded =~= before + wide);
    lemma_blanks_join(before, wide);
    lemma_blanks_are(wide, 0);
    lemma_blanks_are(tight, 0);
    assert(wide.skip(0) =~= wide);
    assert(tight.skip(0) =~= tight);
    assert(wide.skip(1) =~= behind + t);
    assert(tight.skip(1) =~= t);
    lemma_blanks_join(behind, t);
    assert(wide[0] == c && tight[0] == c);
}

/// Blanks between a minus sign and the digits, or before the digits of a
/// number without a sign, do not change the number that is read nor the text
/// that is left.
pub proof fn lemma_blanks_in_number(negative: bool, w: Seq<char>, t: Seq<char>)
    requires
        all_blank(w),
        literal(signed_text(negative, t)) is Ok,
        t.len() > 0 && is_digit(t[0]),
    ensures
        literal(signed_text(negative, w + t)) == literal(signed_text(negative, t)),
{
    let tight = signed_text(negative, t);
    let wide = signed_text(negative, w + t);
    lemma_blanks_join(w, t);
    if negative {
        assert(wide.skip(1) =~= w + t);
        assert(tight.skip(1) =~= t);
        assert(wide[0] == '-' && tight[0] == '-');
    } else {
        assert(tight[0] != '-');
        if w.len() > 0 {
            assert(is_blank(w[0]));
            assert(wide[0] == w[0]);
        }
    }
}

/// Division rounds toward zero: what is left of the dividend beyond the
/// quotient times the divisor is smaller in magnitude than the divisor, and
/// is zero or has the sign of the dividend. No other quotient leaves such a
/// remainder.
pub proof fn lemma_quotient_rounds_toward_zero(l: int, r: int, q: int)
    requires
        r != 0,
    ensures
        vstd::math::abs(l - quotient(l, r) * r) < vstd::math::abs(r),
        l >= 0 ==> l - quotient(l, r) * r >= 0,
        l <= 0 ==> l - quotient(l, r) * r <= 0,
        ({
            &&& vstd::math::abs(l - q * r) < vstd::math::abs(r)
            &&& l >= 0 ==> l - q * r >= 0
            &&& l <= 0 ==> l - q * r <= 0
        }) ==> q == quotient(l, r),
{
    let a = vstd::math::abs(l) as int;
    let b = vstd::math::abs(r) as int;
    let m = a / b;
    vstd::arithmetic::div_mod::lemma_fundamental_div_mod(a, b);
    vstd::arithmetic::div_mod::lemma_mod_bound(a, b);
    assert(a == b * m + a % b);
    assert(quotient(l, r) * r == if l < 0 {
        -(b * m)
    } else {
        b * m
    }) by (nonlinear_arith)
        requires
            b == vstd::math::abs(r),
            r != 0,
            quotient(l, r) == if (l < 0) == (r < 0) {
                m
            } else {
                -m
            },
    ;
    if vstd::math::abs(l - q * r) < b && (l >= 0 ==> l - q * r >= 0) && (l <= 0 ==> l - q * r
        <= 0) {
        let k = if (l < 0) == (r < 0) {
            q
        } else {
            -q
        };
        assert(q * r == if l < 0 {
            -(b * k)
        } else {
            b * k
        }) by (nonlinear_arith)
            requires
                b == vstd::math::abs(r),
                r != 0,
                k == if (l < 0) == (r < 0) {
                    q
                } else {
                    -q
                },
        ;
        let rem = a - b * k;
        assert(0 <= rem < b);
        assert(a == k * b + rem) by (nonlinear_arith)
            requires
                rem == a - b * k,
        ;
        vstd::arithmetic::div_mod::lemma_fundamental_div_mod_converse(a, b, k, rem);
    }
}

/// A division whose right operand evaluates to zero has no value, whatever
/// the left operand evaluates to.
pub proof fn lemma_division_by_zero(l: Expr, r: Expr)
    requires
        value(l) is Ok,
        value(r) == Ok::<i64, EvaluationError>(0),
    ensures
        value(node(l, Op::Div, r)) == Err::<i64, EvaluationError>(
            EvaluationError::DivisionByZero,
        ),
{
}

} // verus!
