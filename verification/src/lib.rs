//! Teci: a small dynamically typed scripting language.
//!
//! The pipeline runs front to back: the scanner turns source text into a
//! token stream, the recursive-descent parser turns tokens into statements,
//! and the tree-walking interpreter executes statements against a chain of
//! lexical scopes.  Every stage carries machine-checked contracts: the
//! scanner is proved equal to a mathematical scanning function over the
//! character sequence, evaluation is proved equal to a mathematical
//! semantics of expressions and statements, and diagnostics are returned as
//! data so that callers decide how to surface them.
//!
//! Numbers are exact rationals rather than floating point: every decimal
//! literal is represented exactly, arithmetic is exact, and an operation
//! whose result does not fit the representation is a runtime arithmetic
//! error rather than a silent rounding.

pub mod envirnoment;
pub mod error;
pub mod expr;
pub mod interpreter;
pub mod object;
pub mod parser;
pub mod pretty_printer;
pub mod scanner;
pub mod stmt;
pub mod teci;
pub mod text;
pub mod token;
pub mod token_type;
