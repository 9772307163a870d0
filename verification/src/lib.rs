//! A front end for a small line-oriented imperative language: a lexer, a
//! grouping of tokens into logical lines, and a recursive-descent parser
//! that assembles nested blocks into a syntax tree.

pub mod ast;
pub mod grammar;
pub mod lexer;
pub mod lines;
pub mod parser;
pub mod text;
pub mod types;
