//! A small expression language: a tokenizer, a precedence-climbing
//! evaluator over three scopes (variables, call arguments, functions), and
//! single-expression user functions. Numbers are kept as exact arithmetic
//! terms over their decimal literals; folding a term with double-precision
//! arithmetic is left to the caller.
use vstd::prelude::*;

pub mod literal;
pub mod token;
pub mod scope;
pub mod expression;
pub mod theorems;

verus! {

} // verus!
