//! Core of an interactive arithmetic-expression calculator: a lexical
//! scanner, a precedence-climbing parser and a tree-walking evaluator with
//! a chain of variable scopes.
//!
//! Numeric values are IEEE-754 double-precision numbers, carried everywhere
//! as their 64-bit representation so that the surrounding code decides how
//! to display them.

pub mod ast;
pub mod diag;
pub mod buffered_iterator;
pub mod numeric;
pub mod parsing;
pub mod running;
pub mod scanning;
