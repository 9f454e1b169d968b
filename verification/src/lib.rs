//! A reader and evaluator for infix arithmetic over signed 64-bit integers.
//!
//! [`expr`] reads a tree from the front of a text and hands back the text it
//! did not use; [`eval::calc`] folds a tree into an integer. Both are total: a
//! malformed text, a division by zero and a result that does not fit in an
//! `i64` are reported, never trapped.
//!
//! - [`tree`]: the expression tree, with its equality and its copy.
//! - [`eval`]: the value of a tree, and the function that computes it.
//! - [`text`]: blanks, digits and single marks at the front of a text.
//! - [`grammar`]: what a text means, as functions on sequences of
//!   characters.
//! - [`parser`]: the functions that read a text, each held to the grammar.
//! - [`shape`]: precedence and associativity, as the shape of what is read.
//! - [`writing`]: trees written out as text, and read back.
//! - [`laws`]: what holds of every text and every tree.

pub mod tree;
pub mod eval;
pub mod text;
pub mod grammar;
pub mod parser;
pub mod shape;
pub mod writing;
pub mod laws;

pub use eval::EvaluationError;
pub use parser::{
    atom_number, binop1, binop2, expr, expr1, expr2, expr3, number, ChainFailure, ParseFailure,
};
pub use tree::{BinOp, Expr, Number, Op};
