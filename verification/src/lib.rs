//! A small interpreted language with an English-like surface syntax
//! ("set x to 5", "if the count is greater than 3 then show it").
//!
//! The pipeline runs one source line at a time: the lexer turns text into
//! tokens, the recursive-descent parser turns tokens into a single statement
//! tree, and the evaluator walks that tree against a mutable variable
//! environment, collecting printed lines in an output buffer.

pub mod ast;
pub mod lexer;
pub mod parser;
pub mod runtime;
pub mod numerals;
pub mod props;
