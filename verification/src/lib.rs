//! A small interpreted language: source text is read into a syntax tree, and
//! the tree is evaluated directly.
//!
//! - [`grammar`]: the grammar, which reads a text into a parse tree.
//! - [`parser`]: builds the syntax tree from the parse tree; `parse` does
//!   both.
//! - [`builds`]: every parse tree that the grammar reads has a syntax tree.
//! - [`depths`]: the bound under which a text is read is no bound.
//! - [`ast`]: the syntax tree.
//! - [`value`]: the values of the language.
//! - [`environment`]: the chain of frames in which names are bound.
//! - [`builtins`]: the functions that the language provides, and the
//!   console they read from and write to.
//! - [`semantics`]: what evaluation means, as a function from state and
//!   tree to outcome.
//! - [`interpreter`]: the evaluator, which computes that function.
//! - [`laws`]: what holds of every evaluation.
//! - [`session`]: runs a program step by step for someone who serves its
//!   console.
//! - [`replays`]: what a second run of a program has in common with the
//!   first, where it is given more lines or a larger bound.
//! - [`text`]: numerals and white space.
//!
//! Every executable function states in its contract what it returns and
//! changes, over the mathematical models of its arguments.

pub mod ast;
pub mod builds;
pub mod builtins;
pub mod depths;
pub mod environment;
pub mod grammar;
pub mod interpreter;
pub mod laws;
pub mod parser;
pub mod replays;
pub mod semantics;
pub mod session;
pub mod text;
pub mod value;
