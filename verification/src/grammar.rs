//! What a text means: the grammar, as functions on sequences of characters.
//!
//! ```text
//! expr           := additive
//! additive       := multiplicative ( ws ('+'|'-') ws multiplicative )*
//! multiplicative := atom ( ws ('*'|'/') ws atom )*
//! atom           := number
//! number         := '-'? ws digit+
//! ws             := blank*
//! ```
//!
//! Every function here takes the text that is still to be read and gives
//! either what it read together with the text behind it, or the text at which
//! a number was required and not found.

use vstd::prelude::*;
use crate::text::{blanks, digits, is_digit, lemma_blanks, lemma_digits};
use crate::tree::{leaf, node, Expr, Op};

verus! {

/// The outcome of reading a `T` from the front of a text: the text that is
/// left and the `T`, or the text at which reading failed.
pub type Read<T> = Result<(Seq<char>, T), Seq<char>>;

/// The number that a digit stands for.
pub open spec fn digit_value(c: char) -> nat
    recommends
        is_digit(c),
{
    (c as u32 - '0' as u32) as nat
}

/// The number that a sequence of digits denotes in base ten; the empty
/// sequence denotes zero.
pub open spec fn decimal(s: Seq<char>) -> nat
    decreases s.len(),
{
    if s.len() == 0 {
        0
    } else {
        10 * decimal(s.drop_last()) + digit_value(s.last())
    }
}

/// `number`: an optional minus sign, optional blanks, and one or more
/// digits. Its value is the number that the digits denote, negated after a
/// minus sign. A text that does not begin so, or whose value is no `i64`,
/// fails where it begins.
pub open spec fn literal(s: Seq<char>) -> Read<i64> {
    let negative = s.len() > 0 && s[0] == '-';
    let unsigned = if negative {
        s.skip(1)
    } else {
        s
    };
    let body = unsigned.skip(blanks(unsigned) as int);
    let n = digits(body) as int;
    let magnitude = decimal(body.take(n)) as int;
    let v = if negative {
        -magnitude
    } else {
        magnitude
    };
    if n > 0 && i64::MIN <= v <= i64::MAX {
        Ok((body.skip(n), v as i64))
    } else {
        Err(s)
    }
}

/// `atom`: a number, as a leaf.
pub open spec fn atom(s: Seq<char>) -> Read<Expr> {
    match literal(s) {
        Ok((rest, n)) => Ok((rest, leaf(n))),
        Err(at) => Err(at),
    }
}

/// What follows an operand in a chain of operators of one level.
pub enum Link {
    /// No operator of the level follows, with or without blanks before it:
    /// the chain ends at the operand.
    Absent,
    /// An operator follows, and after it no operand: the text at which the
    /// operand was required.
    Dangling(Seq<char>),
    /// An operator and an operand follow: the text behind them, the operator
    /// and the operand.
    Present(Seq<char>, Op, Expr),
}

/// The operator of the multiplicative level that a character denotes.
pub open spec fn product_op(c: char) -> Option<Op> {
    if c == '*' {
        Some(Op::Mul)
    } else if c == '/' {
        Some(Op::Div)
    } else {
        None
    }
}

/// The operator of the additive level that a character denotes.
pub open spec fn sum_op(c: char) -> Option<Op> {
    if c == '+' {
        Some(Op::Add)
    } else if c == '-' {
        Some(Op::Sub)
    } else {
        None
    }
}

/// `ws ('*'|'/') ws atom`, as far as it is there.
pub open spec fn product_link(s: Seq<char>) -> Link {
    let sign = s.skip(blanks(s) as int);
    if sign.len() > 0 && product_op(sign[0]) is Some {
        let after = sign.skip(1);
        match atom(after.skip(blanks(after) as int)) {
            Ok((rest, right)) => Link::Present(rest, product_op(sign[0])->0, right),
            Err(at) => Link::Dangling(at),
        }
    } else {
        Link::Absent
    }
}

/// `( ws ('*'|'/') ws atom )*` behind the operand `left`: each link makes
/// the tree read so far the left operand of a new node, so the chain leans
/// to the left. The chain ends where no operator follows, and the blanks
/// behind the last operand are left unread. It fails where an operator has no
/// operand behind it.
pub open spec fn product_chain(left: Expr, s: Seq<char>) -> Read<Expr>
    decreases s.len(),
{
    match product_link(s) {
        Link::Absent => Ok((s, left)),
        Link::Dangling(at) => Err(at),
        Link::Present(rest, op, right) => {
            proof {
                lemma_product_link_tail(s);
            }
            product_chain(node(left, op, right), rest)
        },
    }
}

/// `multiplicative`: an atom and the chain behind it.
pub open spec fn product(s: Seq<char>) -> Read<Expr> {
    match atom(s) {
        Ok((rest, first)) => product_chain(first, rest),
        Err(at) => Err(at),
    }
}

/// `ws ('+'|'-') ws multiplicative`, as far as it is there.
pub open spec fn sum_link(s: Seq<char>) -> Link {
    let sign = s.skip(blanks(s) as int);
    if sign.len() > 0 && sum_op(sign[0]) is Some {
        let after = sign.skip(1);
        match product(after.skip(blanks(after) as int)) {
            Ok((rest, right)) => Link::Present(rest, sum_op(sign[0])->0, right),
            Err(at) => Link::Dangling(at),
        }
    } else {
        Link::Absent
    }
}

/// `( ws ('+'|'-') ws multiplicative )*` behind the operand `left`, leaning
/// to the left as [`product_chain`] does.
pub open spec fn sum_chain(left: Expr, s: Seq<char>) -> Read<Expr>
    decreases s.len(),
{
    match sum_link(s) {
        Link::Absent => Ok((s, left)),
        Link::Dangling(at) => Err(at),
        Link::Present(rest, op, right) => {
            proof {
                lemma_sum_link_tail(s);
            }
            sum_chain(node(left, op, right), rest)
        },
    }
}

/// `additive`: a multiplicative operand and the chain behind it.
pub open spec fn sum(s: Seq<char>) -> Read<Expr> {
    match product(s) {
        Ok((rest, first)) => sum_chain(first, rest),
        Err(at) => Err(at),
    }
}

/// `expr`: what the whole grammar reads from the front of a text.
pub open spec fn parsed(s: Seq<char>) -> Read<Expr> {
    sum(s)
}

/// Why a chain of at least one operator is not read.
pub enum ChainFault {
    /// An operand is there, and no operator of the level follows it, with or
    /// without blanks before it.
    NoOperator,
    /// A number was required, as the first operand or behind an operator, and
    /// not found: the text at which it was required.
    Missing(Seq<char>),
}

/// A multiplicative chain of at least one operator: an atom, an operator of
/// the level and an atom, and further operators with their atoms as long as
/// they follow. An atom with no operator of the level behind it is no chain.
pub open spec fn product_joined(s: Seq<char>) -> Result<(Seq<char>, Expr), ChainFault> {
    match atom(s) {
        Err(at) => Err(ChainFault::Missing(at)),
        Ok((rest, first)) => if product_link(rest) is Absent {
            Err(ChainFault::NoOperator)
        } else {
            match product_chain(first, rest) {
                Ok(read) => Ok(read),
                Err(at) => Err(ChainFault::Missing(at)),
            }
        },
    }
}

/// An additive chain of at least one operator: a multiplicative operand, an
/// operator of the level and a multiplicative operand, and further operators
/// with their operands as long as they follow. An operand with no operator of
/// the level behind it is no chain.
pub open spec fn sum_joined(s: Seq<char>) -> Result<(Seq<char>, Expr), ChainFault> {
    match product(s) {
        Err(at) => Err(ChainFault::Missing(at)),
        Ok((rest, first)) => if sum_link(rest) is Absent {
            Err(ChainFault::NoOperator)
        } else {
            match sum_chain(first, rest) {
                Ok(read) => Ok(read),
                Err(at) => Err(ChainFault::Missing(at)),
            }
        },
    }
}

/// The digits read so far never denote more than all of them.
pub proof fn lemma_decimal_grows(s: Seq<char>, k: int)
    requires
        0 <= k <= s.len(),
    ensures
        decimal(s.take(k)) <= decimal(s),
    decreases s.len() - k,
{
    if k < s.len() {
        lemma_decimal_grows(s, k + 1);
        assert(s.take(k + 1).drop_last() =~= s.take(k));
    } else {
        assert(s.take(k) =~= s);
    }
}

/// `t` is what is left of `s` after some of its characters, from the front.
pub open spec fn is_tail_of(t: Seq<char>, s: Seq<char>) -> bool {
    t.len() <= s.len() && t =~= s.skip(s.len() - t.len())
}

/// A tail of a tail is a tail.
pub proof fn lemma_tail_of_tail(u: Seq<char>, t: Seq<char>, s: Seq<char>)
    requires
        is_tail_of(u, t),
        is_tail_of(t, s),
    ensures
        is_tail_of(u, s),
{
    assert(s.skip(s.len() - t.len()).skip(t.len() - u.len()) =~= s.skip(s.len() - u.len()));
}

/// What is left behind the blanks at the front is a tail.
pub proof fn lemma_after_blanks_is_tail(s: Seq<char>)
    ensures
        is_tail_of(s.skip(blanks(s) as int), s),
{
    lemma_blanks(s);
}

/// A number leaves a tail of the text, shorter than the text.
pub proof fn lemma_literal_tail(s: Seq<char>)
    ensures
        literal(s) matches Ok((rest, _)) ==> is_tail_of(rest, s) && rest.len() < s.len(),
        literal(s) matches Err(at) ==> at == s,
{
    let negative = s.len() > 0 && s[0] == '-';
    let unsigned = if negative {
        s.skip(1)
    } else {
        s
    };
    lemma_after_blanks_is_tail(unsigned);
    let body = unsigned.skip(blanks(unsigned) as int);
    lemma_digits(body);
    let rest = body.skip(digits(body) as int);
    lemma_tail_of_tail(rest, body, unsigned);
    lemma_tail_of_tail(rest, unsigned, s);
}

/// A link of the multiplicative level leaves a tail of the text, and where
/// the operand is missing, it is missing at a tail of the text.
pub proof fn lemma_product_link_tail(s: Seq<char>)
    ensures
        product_link(s) matches Link::Present(rest, _, _) ==> is_tail_of(rest, s) && rest.len()
            < s.len(),
        product_link(s) matches Link::Dangling(at) ==> is_tail_of(at, s),
{
    lemma_after_blanks_is_tail(s);
    let sign = s.skip(blanks(s) as int);
    if sign.len() > 0 {
        let after = sign.skip(1);
        lemma_after_blanks_is_tail(after);
        let operand = after.skip(blanks(after) as int);
        lemma_tail_of_tail(operand, after, sign);
        lemma_tail_of_tail(operand, sign, s);
        lemma_literal_tail(operand);
        match literal(operand) {
            Ok((rest, _)) => {
                lemma_tail_of_tail(rest, operand, s);
            },
            Err(_) => {},
        }
    }
}

/// A multiplicative chain leaves a tail of the text or fails at one.
pub proof fn lemma_product_chain_tail(left: Expr, s: Seq<char>)
    ensures
        product_chain(left, s) matches Ok((rest, _)) ==> is_tail_of(rest, s),
        product_chain(left, s) matches Err(at) ==> is_tail_of(at, s),
    decreases s.len(),
{
    lemma_product_link_tail(s);
    match product_link(s) {
        Link::Present(rest, op, right) => {
            lemma_product_chain_tail(node(left, op, right), rest);
            match product_chain(left, s) {
                Ok((end, _)) => {
                    lemma_tail_of_tail(end, rest, s);
                },
                Err(at) => {
                    lemma_tail_of_tail(at, rest, s);
                },
            }
        },
        _ => {},
    }
}

/// The multiplicative level leaves a tail of the text, shorter than the
/// text, or fails at a tail of the text.
pub proof fn lemma_product_tail(s: Seq<char>)
    ensures
        product(s) matches Ok((rest, _)) ==> is_tail_of(rest, s) && rest.len() < s.len(),
        product(s) matches Err(at) ==> is_tail_of(at, s),
{
    lemma_literal_tail(s);
    match atom(s) {
        Ok((rest, first)) => {
            lemma_product_chain_tail(first, rest);
            match product_chain(first, rest) {
                Ok((end, _)) => {
                    lemma_tail_of_tail(end, rest, s);
                },
                Err(at) => {
                    lemma_tail_of_tail(at, rest, s);
                },
            }
        },
        Err(_) => {},
    }
}

/// A link of the additive level leaves a tail of the text, and where the
/// operand is missing, it is missing at a tail of the text.
pub proof fn lemma_sum_link_tail(s: Seq<char>)
    ensures
        sum_link(s) matches Link::Present(rest, _, _) ==> is_tail_of(rest, s) && rest.len()
            < s.len(),
        sum_link(s) matches Link::Dangling(at) ==> is_tail_of(at, s),
{
    lemma_after_blanks_is_tail(s);
    let sign = s.skip(blanks(s) as int);
    if sign.len() > 0 {
        let after = sign.skip(1);
        lemma_after_blanks_is_tail(after);
        let operand = after.skip(blanks(after) as int);
        lemma_tail_of_tail(operand, after, sign);
        lemma_tail_of_tail(operand, sign, s);
        lemma_product_tail(operand);
        match product(operand) {
            Ok((rest, _)) => {
                lemma_tail_of_tail(rest, operand, s);
            },
            Err(at) => {
                lemma_tail_of_tail(at, operand, s);
            },
        }
    }
}

/// An additive chain leaves a tail of the text or fails at one.
pub proof fn lemma_sum_chain_tail(left: Expr, s: Seq<char>)
    ensures
        sum_chain(left, s) matches Ok((rest, _)) ==> is_tail_of(rest, s),
        sum_chain(left, s) matches Err(at) ==> is_tail_of(at, s),
    decreases s.len(),
{
    lemma_sum_link_tail(s);
    match sum_link(s) {
        Link::Present(rest, op, right) => {
            lemma_sum_chain_tail(node(left, op, right), rest);
            match sum_chain(left, s) {
                Ok((end, _)) => {
                    lemma_tail_of_tail(end, rest, s);
                },
                Err(at) => {
                    lemma_tail_of_tail(at, rest, s);
                },
            }
        },
        _ => {},
    }
}

} // verus!
