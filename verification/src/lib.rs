//! Front end for a small Pascal-like language: a lexer that turns source
//! text into tokens, a recursive-descent parser that builds an abstract
//! syntax tree, and a tree-walking evaluator over a mutable variable scope.
//!
//! Every stage is specified against a functional model: the lexer against
//! `spec_next_token` over character sequences, the parser against grammar
//! functions over token streams, and the evaluator against `spec_eval`.
//!
//! Behavioural decisions, applied uniformly and pinned by the contracts:
//!
//! - Integer literals accumulate digit by digit with unsigned 32-bit
//!   wrap-around; nothing is rejected as too large.
//! - Evaluation uses two's-complement 32-bit arithmetic with wrap-around
//!   on overflow; division truncates, and the one overflowing quotient
//!   wraps.
//! - A read of a never-assigned variable and a division by zero are typed,
//!   recoverable faults, never crashes, alongside the typed lexical and
//!   syntax errors.
//! - An empty `BEGIN END` block evaluates to zero.
//! - A scope lives for one evaluation session; the interactive shell
//!   around the library creates a fresh one per line, since every line is
//!   a whole program.

pub mod ast;
pub mod interpreter;
pub mod lexer;
pub mod parser;
pub mod render;
