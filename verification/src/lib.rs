//! A PromQL-style query language front end, verified with Verus.
//!
//! The crate turns a query string into (a) a rule-labelled parse tree,
//! (b) a flat sequence of classified tokens for syntax highlighting, and
//! (c) a typed abstract syntax tree, with operator precedence and
//! associativity resolved.

pub mod ast;
pub mod builder;
pub mod grammar;
pub mod render;
pub mod tokenizer;
pub mod tree;
