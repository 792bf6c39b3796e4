//! Front end of a compiler for a small, dynamically-typed scripting language:
//! a pull-based tokenizer and a recursive-descent, lookahead-buffered parser
//! that turn source text into an abstract syntax tree.
//!
//! The token grammar and the parse are stated as spec functions over the
//! character stream, every executable routine is proved against them, and a
//! canonical printer closes the print/parse cycle.

pub mod ast;
pub mod cli;
pub mod file_pos;
pub mod lexer;
pub mod parser;
pub mod printer;
