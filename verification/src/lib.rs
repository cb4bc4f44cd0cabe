//! A command-line calculator core: tokenizer, infix-to-postfix converter
//! (Shunting Yard), postfix evaluator and a small stateful variable store.
//!
//! Numbers are IEEE-754 double-precision values, carried throughout as their
//! 64-bit patterns. Every decision of the pipeline — scanning, precedence,
//! stack discipline, domain checks, error taxonomy, store updates — is made
//! here, on those bit patterns. The floating-point arithmetic itself (adding
//! two doubles, a square root, parsing a literal) is delegated to the caller:
//! the postfix evaluator is a step machine that hands out one arithmetic
//! request at a time and integrates the answer, whatever it is.

pub mod calculator;
pub mod cli;
pub mod errors;
pub mod evaluator;
pub mod numeric;
pub mod operators;
pub mod parser;
pub mod strutil;
pub mod suggest;
pub mod tokens;
pub mod varstore;
