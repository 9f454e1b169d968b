//! Trees written out as text, and read back.

use vstd::prelude::*;
use crate::grammar::{
    atom, decimal, digit_value, literal, parsed, product, product_chain, product_link, sum, sum_chain,
    sum_link, Link,
};
use crate::shape::{is_product_tree, is_sum_tree};
use crate::text::{
    all_blank, blanks, is_blank, is_digit, lemma_blanks_are, lemma_blanks_join, lemma_digits_are,
};
use crate::tree::{leaf, node, Expr, Op};

verus! {

/// The text of a number: a minus sign where it is negative, then its digits.
pub open spec fn signed_text(negative: bool, ds: Seq<char>) -> Seq<char> {
    if negative {
        seq!['-'] + ds
    } else {
        ds
    }
}

/// The number that a signed text denotes.
pub open spec fn signed_value(negative: bool, ds: Seq<char>) -> int {
    if negative {
        -(decimal(ds) as int)
    } else {
        decimal(ds) as int
    }
}

/// A number is read from the front of any text that goes on, behind its
/// digits, with something that is no digit, and that text is left.
pub proof fn lemma_number_then(negative: bool, ds: Seq<char>, t: Seq<char>)
    requires
        ds.len() > 0,
        forall|i: int| 0 <= i < ds.len() ==> is_digit(#[trigger] ds[i]),
        i64::MIN <= signed_value(negative, ds) <= i64::MAX,
        t.len() > 0 ==> !is_digit(t[0]),
    ensures
        literal(signed_text(negative, ds) + t) == Ok::<_, Seq<char>>(
            (t, signed_value(negative, ds) as i64),
        ),
{
    let s = signed_text(negative, ds) + t;
    let unsigned = if negative {
        s.skip(1)
    } else {
        s
    };
    let body = ds + t;
    assert(unsigned =~= body);
    assert(is_digit(ds[0]));
    assert(s.len() > 0 && (s[0] == '-') == negative);
    assert(body[0] == ds[0]);
    lemma_blanks_are(body, 0);
    assert(body.skip(0) =~= body);
    assert forall|i: int| 0 <= i < ds.len() implies is_digit(#[trigger] body[i]) by {
        assert(body[i] == ds[i]);
    }
    if ds.len() < body.len() {
        assert(body[ds.len() as int] == t[0]);
    }
    lemma_digits_are(body, ds.len());
    assert(body.take(ds.len() as int) =~= ds);
    assert(body.skip(ds.len() as int) =~= t);
}

/// The digit that stands for a number below ten.
pub open spec fn digit_char(d: nat) -> char
    recommends
        d <= 9,
{
    if d == 0 {
        '0'
    } else if d == 1 {
        '1'
    } else if d == 2 {
        '2'
    } else if d == 3 {
        '3'
    } else if d == 4 {
        '4'
    } else if d == 5 {
        '5'
    } else if d == 6 {
        '6'
    } else if d == 7 {
        '7'
    } else if d == 8 {
        '8'
    } else {
        '9'
    }
}

/// The digits of a natural number in base ten, without leading zeros.
pub open spec fn digits_of(n: nat) -> Seq<char>
    decreases n,
{
    if n < 10 {
        seq![digit_char(n)]
    } else {
        digits_of(n / 10).push(digit_char(n % 10))
    }
}

/// The usual text of an integer: a minus sign where it is negative, then the
/// digits of its magnitude.
pub open spec fn text_of(v: int) -> Seq<char> {
    signed_text(v < 0, digits_of(vstd::math::abs(v)))
}

/// The digits of a number are digits, at least one, and denote the number.
pub proof fn lemma_digits_of(n: nat)
    ensures
        digits_of(n).len() > 0,
        forall|i: int| 0 <= i < digits_of(n).len() ==> is_digit(#[trigger] digits_of(n)[i]),
        decimal(digits_of(n)) == n,
    decreases n,
{
    reveal_with_fuel(decimal, 2);
    if n < 10 {
        assert(digits_of(n).drop_last() =~= Seq::<char>::empty());
        assert(digit_value(digit_char(n)) == n);
    } else {
        lemma_digits_of(n / 10);
        let front = digits_of(n / 10);
        let last = digit_char(n % 10);
        assert(front.push(last).drop_last() =~= front);
        assert(digit_value(last) == n % 10);
        assert(is_digit(last));
    }
}

/// The character that denotes an operator.
pub open spec fn op_char(op: Op) -> char {
    match op {
        Op::Add => '+',
        Op::Sub => '-',
        Op::Mul => '*',
        Op::Div => '/',
    }
}

/// A tree written out: a number as usual; a node as its left operand, the
/// blanks `before`, its operator, the blanks `behind`, and its right
/// operand.
pub open spec fn written(e: Expr, before: Seq<char>, behind: Seq<char>) -> Seq<char>
    decreases e,
{
    match e {
        Expr::Number(n) => text_of(n.0 as int),
        Expr::BinOp(b) => written(*b.l, before, behind) + before + seq![op_char(b.op)] + behind
            + written(*b.r, before, behind),
    }
}

/// A text does not go on with a digit.
pub open spec fn no_digit_first(t: Seq<char>) -> bool {
    t.len() > 0 ==> !is_digit(t[0])
}

/// A written tree begins with a minus sign or a digit, so with no blank.
pub proof fn lemma_written_first(e: Expr, before: Seq<char>, behind: Seq<char>)
    ensures
        written(e, before, behind).len() > 0,
        written(e, before, behind)[0] == '-' || is_digit(written(e, before, behind)[0]),
    decreases e,
{
    match e {
        Expr::Number(n) => {
            lemma_digits_of(vstd::math::abs(n.0 as int));
        },
        Expr::BinOp(b) => {
            lemma_written_first(*b.l, before, behind);
            assert(written(e, before, behind)[0] == written(*b.l, before, behind)[0]);
        },
    }
}

/// A written number is read as an atom from the front of any text that does
/// not go on with a digit.
pub proof fn lemma_written_leaf(n: i64, t: Seq<char>)
    requires
        no_digit_first(t),
    ensures
        atom(text_of(n as int) + t) == Ok::<_, Seq<char>>((t, leaf(n))),
{
    lemma_digits_of(vstd::math::abs(n as int));
    lemma_number_then(n < 0, digits_of(vstd::math::abs(n as int)), t);
}

/// What stands behind the left operand of a written node: the operator
/// between its blanks, the right operand, and the text `t`.
pub open spec fn written_behind(
    op: Op,
    right: Seq<char>,
    before: Seq<char>,
    behind: Seq<char>,
    t: Seq<char>,
) -> Seq<char> {
    before + seq![op_char(op)] + behind + (right + t)
}

/// Behind the left operand of a written node, the blanks are skipped, the
/// operator stands, the blanks behind it are skipped, and the right operand
/// begins.
proof fn lemma_written_behind(
    op: Op,
    right: Seq<char>,
    before: Seq<char>,
    behind: Seq<char>,
    t: Seq<char>,
)
    requires
        all_blank(before),
        all_blank(behind),
        right.len() > 0,
        !is_blank(right[0]),
    ensures
        ({
            let s = written_behind(op, right, before, behind, t);
            let sign = s.skip(blanks(s) as int);
            let after = sign.skip(1);
            &&& no_digit_first(s)
            &&& sign.len() > 0
            &&& sign[0] == op_char(op)
            &&& after.skip(blanks(after) as int) == right + t
        }),
{
    let c = op_char(op);
    let s = written_behind(op, right, before, behind, t);
    let wide = seq![c] + behind + (right + t);
    assert(s =~= before + wide);
    lemma_blanks_join(before, wide);
    lemma_blanks_are(wide, 0);
    assert(wide.skip(0) =~= wide);
    assert(wide.skip(1) =~= behind + (right + t));
    lemma_blanks_join(behind, right + t);
    assert((right + t)[0] == right[0]);
    lemma_blanks_are(right + t, 0);
    assert((right + t).skip(0) =~= right + t);
    if before.len() > 0 {
        assert(s[0] == before[0]);
    } else {
        assert(s[0] == c);
    }
}

/// A written tree of the multiplicative level, before a text that does not
/// go on with a digit, is read as that tree, and the chain goes on from it
/// into the text behind.
pub proof fn lemma_written_product(e: Expr, before: Seq<char>, behind: Seq<char>, t: Seq<char>)
    requires
        is_product_tree(e),
        all_blank(before),
        all_blank(behind),
        no_digit_first(t),
    ensures
        product(written(e, before, behind) + t) == product_chain(e, t),
    decreases e,
{
    match e {
        Expr::Number(n) => {
            lemma_written_leaf(n.0, t);
        },
        Expr::BinOp(b) => {
            let right = written(*b.r, before, behind);
            let rest = written_behind(b.op, right, before, behind, t);
            assert(written(e, before, behind) + t =~= written(*b.l, before, behind) + rest);
            lemma_written_first(*b.r, before, behind);
            lemma_written_behind(b.op, right, before, behind, t);
            lemma_written_product(*b.l, before, behind, rest);
            lemma_written_leaf((*b.r)->Number_0.0, t);
            assert(product_link(rest) == Link::Present(t, b.op, *b.r));
            assert(node(*b.l, b.op, *b.r) == e);
        },
    }
}

/// A written tree of the additive level, before a text that goes on with
/// neither a digit nor an operator of the multiplicative level, is read as
/// that tree, and the chain goes on from it into the text behind.
pub proof fn lemma_written_sum(e: Expr, before: Seq<char>, behind: Seq<char>, t: Seq<char>)
    requires
        is_sum_tree(e),
        all_blank(before),
        all_blank(behind),
        no_digit_first(t),
        product_link(t) is Absent,
    ensures
        sum(written(e, before, behind) + t) == sum_chain(e, t),
    decreases e,
{
    if is_product_tree(e) {
        lemma_written_product(e, before, behind, t);
    } else {
        match e {
            Expr::Number(_) => {},
            Expr::BinOp(b) => {
                let right = written(*b.r, before, behind);
                let rest = written_behind(b.op, right, before, behind, t);
                assert(written(e, before, behind) + t =~= written(*b.l, before, behind) + rest);
                lemma_written_first(*b.r, before, behind);
                lemma_written_behind(b.op, right, before, behind, t);
                assert(product_link(rest) is Absent);
                lemma_written_sum(*b.l, before, behind, rest);
                lemma_written_product(*b.r, before, behind, t);
                assert(sum_link(rest) == Link::Present(t, b.op, *b.r));
                assert(node(*b.l, b.op, *b.r) == e);
            },
        }
    }
}

/// A written tree of the additive level, before a text in which an operator
/// of the multiplicative level has no operand behind it, is not read: the
/// reading fails where that operand is missing.
pub proof fn lemma_written_then_dangling(
    e: Expr,
    before: Seq<char>,
    behind: Seq<char>,
    t: Seq<char>,
)
    requires
        is_sum_tree(e),
        all_blank(before),
        all_blank(behind),
        no_digit_first(t),
        product_link(t) is Dangling,
    ensures
        sum(written(e, before, behind) + t) == Err::<(Seq<char>, Expr), _>(
            product_link(t)->Dangling_0,
        ),
{
    if is_product_tree(e) {
        lemma_written_product(e, before, behind, t);
    } else {
        match e {
            Expr::Number(_) => {},
            Expr::BinOp(b) => {
                let right = written(*b.r, before, behind);
                let rest = written_behind(b.op, right, before, behind, t);
                assert(written(e, before, behind) + t =~= written(*b.l, before, behind) + rest);
                lemma_written_first(*b.r, before, behind);
                lemma_written_behind(b.op, right, before, behind, t);
                assert(product_link(rest) is Absent);
                lemma_written_sum(*b.l, before, behind, rest);
                lemma_written_product(*b.r, before, behind, t);
                assert(sum_link(rest) == Link::Dangling(product_link(t)->Dangling_0));
            },
        }
    }
}

/// Every tree of the additive level is read back from its written form,
/// whatever blanks stand before and behind the operators, and whatever text
/// follows that does not go on with a digit or, behind blanks or none, with
/// an operator: the tree is read and that text is left. So a chain of `+` and
/// `-` is read as a tree that leans to the left, with each run of `*` and `/`
/// as one operand, leaning to the left itself. With
/// [`lemma_shape`](crate::shape::lemma_shape), the trees that can be read are
/// exactly the trees of the additive level.
pub proof fn lemma_written_is_read(e: Expr, before: Seq<char>, behind: Seq<char>, t: Seq<char>)
    requires
        is_sum_tree(e),
        all_blank(before),
        all_blank(behind),
        no_digit_first(t),
        product_link(t) is Absent,
        sum_link(t) is Absent,
    ensures
        parsed(written(e, before, behind) + t) == Ok::<_, Seq<char>>((t, e)),
{
    lemma_written_sum(e, before, behind, t);
}

/// The text of a tree that is read to the last character: an empty text
/// follows it.
pub proof fn lemma_written_alone_is_read(e: Expr, before: Seq<char>, behind: Seq<char>)
    requires
        is_sum_tree(e),
        all_blank(before),
        all_blank(behind),
    ensures
        parsed(written(e, before, behind)) == Ok::<_, Seq<char>>((Seq::<char>::empty(), e)),
{
    let none = Seq::<char>::empty();
    lemma_blanks_are(none, 0);
    assert(none.skip(0) =~= none);
    lemma_written_is_read(e, before, behind, none);
    assert(written(e, before, behind) + none =~= written(e, before, behind));
}

} // verus!
