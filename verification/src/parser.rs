//! The reader: executable functions that follow the grammar.

use vstd::prelude::*;
use vstd::string::*;
use vstd::utf8::*;
use crate::grammar::{
    atom, decimal, digit_value, is_tail_of, lemma_decimal_grows, lemma_product_link_tail,
    lemma_sum_link_tail, literal, parsed, product, product_chain, product_joined,
    product_link, product_op, sum, sum_chain, sum_joined, sum_link, sum_op, ChainFault, Read,
};
use crate::laws::lemma_rest_is_tail;
use crate::shape::{is_sum_tree, lemma_shape};
use crate::text::{after_mark, is_digit, lemma_digits, skip_blanks, take_digits};
use crate::tree::{BinOp, Expr, Number, Op};

verus! {

/// A text could not be read: `remaining` is the text at which a number was
/// required and not found.
#[derive(Debug, Clone, Copy, PartialEq, Eq)]
pub struct ParseFailure<'a> {
    pub remaining: &'a str,
}

/// What a result of the reader says, as the grammar would say it.
pub open spec fn seen<T>(out: Result<(&str, T), ParseFailure>) -> Read<T> {
    match out {
        Ok((rest, v)) => Ok((rest@, v)),
        Err(failure) => Err(failure.remaining@),
    }
}

/// The largest magnitude of an `i64`, that of `i64::MIN`.
pub const MAGNITUDE_LIMIT: u64 = 0x8000_0000_0000_0000;

/// A digit is the byte of its own code, 48 more than its value.
proof fn lemma_digit_byte(c: char)
    requires
        is_digit(c),
    ensures
        c as u32 <= 0x7f,
        c as u8 == digit_value(c) + 48,
        digit_value(c) <= 9,
{
}

/// The number that a run of digits denotes, unless it is larger than
/// [`MAGNITUDE_LIMIT`].
fn magnitude(taken: &str) -> (out: Option<u64>)
    requires
        forall|i: int| 0 <= i < taken@.len() ==> is_digit(#[trigger] taken@[i]),
    ensures
        out == if decimal(taken@) <= MAGNITUDE_LIMIT {
            Some(decimal(taken@) as u64)
        } else {
            None
        },
{
    let bytes = taken.as_bytes();
    proof {
        assert forall|i: int| 0 <= i < taken@.len() implies '\0' <= #[trigger] taken@[i]
            <= '\u{7f}' by {
            lemma_digit_byte(taken@[i]);
        }
        is_ascii_chars_encode_utf8(taken@);
        assert(taken@.take(0) =~= Seq::<char>::empty());
    }
    let mut acc: u64 = 0;
    let mut i: usize = 0;
    while i < bytes.len()
        invariant
            i <= bytes.len(),
            bytes@ == taken.spec_bytes(),
            bytes@.len() == taken@.len(),
            forall|j: int| 0 <= j < taken@.len() ==> is_digit(#[trigger] taken@[j]),
            forall|j: int| 0 <= j < taken@.len() ==> taken@[j] as u8 == #[trigger] bytes@[j],
            acc == decimal(taken@.take(i as int)),
            acc <= MAGNITUDE_LIMIT,
        decreases bytes.len() - i,
    {
        proof {
            lemma_digit_byte(taken@[i as int]);
            assert(taken@.take(i + 1).drop_last() =~= taken@.take(i as int));
            lemma_decimal_grows(taken@, i + 1);
        }
        let d: u64 = (bytes[i] - 48) as u64;
        let next = match acc.checked_mul(10) {
            Some(tens) => tens.checked_add(d),
            None => None,
        };
        match next {
            Some(v) if v <= MAGNITUDE_LIMIT => {
                acc = v;
            },
            _ => {
                return None;
            },
        }
        i += 1;
    }
    proof {
        assert(taken@.take(i as int) =~= taken@);
    }
    Some(acc)
}

/// Reads a number: an optional minus sign, optional blanks, and digits.
pub fn atom_number<'a>(input: &'a str) -> (out: Result<(&'a str, i64), ParseFailure<'a>>)
    ensures
        seen(out) == literal(input@),
{
    let (negative, unsigned) = match after_mark(input, '-') {
        Some(rest) => (true, rest),
        None => (false, input),
    };
    let body = skip_blanks(unsigned);
    let (rest, taken) = match take_digits(body) {
        Some(found) => found,
        None => {
            return Err(ParseFailure { remaining: input });
        },
    };
    proof {
        lemma_digits(body@);
    }
    let m = match magnitude(taken) {
        Some(m) => m,
        None => {
            return Err(ParseFailure { remaining: input });
        },
    };
    if negative {
        if m == MAGNITUDE_LIMIT {
            Ok((rest, i64::MIN))
        } else {
            Ok((rest, -(m as i64)))
        }
    } else if m == MAGNITUDE_LIMIT {
        Err(ParseFailure { remaining: input })
    } else {
        Ok((rest, m as i64))
    }
}

/// Reads a number as a literal.
pub fn number<'a>(input: &'a str) -> (out: Result<(&'a str, Number), ParseFailure<'a>>)
    ensures
        seen(out) == match literal(input@) {
            Ok((rest, n)) => Ok((rest, Number(n))),
            Err(at) => Err(at),
        },
{
    match atom_number(input) {
        Ok((rest, n)) => Ok((rest, Number(n))),
        Err(failure) => Err(failure),
    }
}

/// Reads an atom: a number, as a leaf of the tree.
pub fn expr3<'a>(input: &'a str) -> (out: Result<(&'a str, Expr), ParseFailure<'a>>)
    ensures
        seen(out) == atom(input@),
{
    match number(input) {
        Ok((rest, n)) => Ok((rest, Expr::Number(n))),
        Err(failure) => Err(failure),
    }
}

/// Why a chain reader did not read a chain.
#[derive(Debug, Clone, Copy, PartialEq, Eq)]
pub enum ChainFailure<'a> {
    /// An operand is there, and no operator of the level follows it: the
    /// operand alone is what the level reads.
    NoOperator,
    /// A number was required, as the first operand or behind an operator, and
    /// not found.
    Missing(ParseFailure<'a>),
}

/// What a result of a chain reader says, as the grammar would say it.
pub open spec fn seen_joined(out: Result<(&str, BinOp), ChainFailure>) -> Result<
    (Seq<char>, Expr),
    ChainFault,
> {
    match out {
        Ok((rest, joined)) => Ok((rest@, Expr::BinOp(joined))),
        Err(ChainFailure::NoOperator) => Err(ChainFault::NoOperator),
        Err(ChainFailure::Missing(failure)) => Err(ChainFault::Missing(failure.remaining@)),
    }
}

/// Reads `*` or `/` at the very front of a text.
fn product_sign<'a>(input: &'a str) -> (out: Option<(&'a str, Op)>)
    ensures
        match out {
            Some((rest, op)) => {
                &&& input@.len() > 0
                &&& product_op(input@[0]) == Some(op)
                &&& rest@ == input@.skip(1)
            },
            None => input@.len() == 0 || product_op(input@[0]) is None,
        },
{
    match after_mark(input, '*') {
        Some(rest) => Some((rest, Op::Mul)),
        None => match after_mark(input, '/') {
            Some(rest) => Some((rest, Op::Div)),
            None => None,
        },
    }
}

/// Reads `+` or `-` at the very front of a text.
fn sum_sign<'a>(input: &'a str) -> (out: Option<(&'a str, Op)>)
    ensures
        match out {
            Some((rest, op)) => {
                &&& input@.len() > 0
                &&& sum_op(input@[0]) == Some(op)
                &&& rest@ == input@.skip(1)
            },
            None => input@.len() == 0 || sum_op(input@[0]) is None,
        },
{
    match after_mark(input, '+') {
        Some(rest) => Some((rest, Op::Add)),
        None => match after_mark(input, '-') {
            Some(rest) => Some((rest, Op::Sub)),
            None => None,
        },
    }
}

/// Reads a multiplicative chain of at least one operator: an atom, then
/// `*` or `/` and an atom as often as they follow, folded to the left.
///
/// It fails with [`ChainFailure::NoOperator`] where an atom is there and no
/// `*` or `/` follows it, and with [`ChainFailure::Missing`] where the first
/// atom, or the atom behind an operator, is missing.
pub fn binop2<'a>(input: &'a str) -> (out: Result<(&'a str, BinOp), ChainFailure<'a>>)
    ensures
        seen_joined(out) == product_joined(input@),
{
    let (after, l) = match expr3(input) {
        Ok(read) => read,
        Err(failure) => {
            return Err(ChainFailure::Missing(failure));
        },
    };
    let ghost first = l;
    let (signed, op) = match product_sign(skip_blanks(after)) {
        Some(read) => read,
        None => {
            return Err(ChainFailure::NoOperator);
        },
    };
    let (rest, r) = match expr3(skip_blanks(signed)) {
        Ok(read) => read,
        Err(failure) => {
            return Err(ChainFailure::Missing(failure));
        },
    };
    let mut ret = BinOp { l: Box::new(l), op: op, r: Box::new(r) };
    let mut input_mut = rest;
    loop
        invariant
            product_link(after@) !is Absent,
            atom(input@) == Ok::<_, Seq<char>>((after@, first)),
            product_chain(Expr::BinOp(ret), input_mut@) == product_chain(first, after@),
        decreases input_mut@.len(),
    {
        let (signed, op) = match product_sign(skip_blanks(input_mut)) {
            Some(read) => read,
            None => {
                return Ok((input_mut, ret));
            },
        };
        let (rest, r) = match expr3(skip_blanks(signed)) {
            Ok(read) => read,
            Err(failure) => {
                return Err(ChainFailure::Missing(failure));
            },
        };
        proof {
            lemma_product_link_tail(input_mut@);
        }
        ret = BinOp { l: Box::new(Expr::BinOp(ret)), op: op, r: Box::new(r) };
        input_mut = rest;
    }
}

/// Reads the multiplicative level: a chain where there is one; where the
/// chain reader finds no operator behind the first atom, the atom alone.
pub fn expr2<'a>(input: &'a str) -> (out: Result<(&'a str, Expr), ParseFailure<'a>>)
    ensures
        seen(out) == product(input@),
{
    match binop2(input) {
        Ok((rest, joined)) => Ok((rest, Expr::BinOp(joined))),
        Err(ChainFailure::NoOperator) => expr3(input),
        Err(ChainFailure::Missing(failure)) => Err(failure),
    }
}

/// Reads an additive chain of at least one operator: a multiplicative
/// operand, then `+` or `-` and a multiplicative operand as often as they
/// follow, folded to the left.
///
/// It fails with [`ChainFailure::NoOperator`] where an operand is there and
/// no `+` or `-` follows it, and with [`ChainFailure::Missing`] where the
/// first operand, or the operand behind an operator, is missing.
pub fn binop1<'a>(input: &'a str) -> (out: Result<(&'a str, BinOp), ChainFailure<'a>>)
    ensures
        seen_joined(out) == sum_joined(input@),
{
    let (after, l) = match expr2(input) {
        Ok(read) => read,
        Err(failure) => {
            return Err(ChainFailure::Missing(failure));
        },
    };
    let ghost first = l;
    let (signed, op) = match sum_sign(skip_blanks(after)) {
        Some(read) => read,
        None => {
            return Err(ChainFailure::NoOperator);
        },
    };
    let (rest, r) = match expr2(skip_blanks(signed)) {
        Ok(read) => read,
        Err(failure) => {
            return Err(ChainFailure::Missing(failure));
        },
    };
    let mut ret = BinOp { l: Box::new(l), op: op, r: Box::new(r) };
    let mut input_mut = rest;
    loop
        invariant
            sum_link(after@) !is Absent,
            product(input@) == Ok::<_, Seq<char>>((after@, first)),
            sum_chain(Expr::BinOp(ret), input_mut@) == sum_chain(first, after@),
        decreases input_mut@.len(),
    {
        let (signed, op) = match sum_sign(skip_blanks(input_mut)) {
            Some(read) => read,
            None => {
                return Ok((input_mut, ret));
            },
        };
        let (rest, r) = match expr2(skip_blanks(signed)) {
            Ok(read) => read,
            Err(failure) => {
                return Err(ChainFailure::Missing(failure));
            },
        };
        proof {
            lemma_sum_link_tail(input_mut@);
        }
        ret = BinOp { l: Box::new(Expr::BinOp(ret)), op: op, r: Box::new(r) };
        input_mut = rest;
    }
}

/// Reads the additive level: a chain where there is one; where the chain
/// reader finds no operator behind the first operand, the operand alone.
pub fn expr1<'a>(input: &'a str) -> (out: Result<(&'a str, Expr), ParseFailure<'a>>)
    ensures
        seen(out) == sum(input@),
{
    match binop1(input) {
        Ok((rest, joined)) => Ok((rest, Expr::BinOp(joined))),
        Err(ChainFailure::NoOperator) => expr2(input),
        Err(ChainFailure::Missing(failure)) => Err(failure),
    }
}

/// Reads an expression from the front of a text and hands back the tree with
/// the text that it did not use, blanks behind the last operand included.
///
/// It fails where the text does not begin with a number, where an operator
/// has no number behind it, and where a number is no `i64`; the failure holds
/// the text at which the number was required.
pub fn expr<'a>(input: &'a str) -> (out: Result<(&'a str, Expr), ParseFailure<'a>>)
    ensures
        seen(out) == parsed(input@),
        out matches Ok((rest, tree)) ==> {
            &&& is_tail_of(rest@, input@)
            &&& rest@.len() < input@.len()
            &&& is_sum_tree(tree)
        },
        out matches Err(failure) ==> is_tail_of(failure.remaining@, input@),
{
    proof {
        lemma_rest_is_tail(input@);
        lemma_shape(input@);
    }
    expr1(input)
}

} // verus!
