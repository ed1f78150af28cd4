//! A verified postfix (reverse Polish) expression calculator.
//!
//! The crate is split in two layers: a scanner that turns a byte source into
//! a stream of tokens, and an evaluator that drives a stack of 64-bit signed
//! integers over that stream, emitting one result per reducible input line.

pub mod arith;
pub mod eval;
pub mod scanner;
