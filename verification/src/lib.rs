//! A small language front end: a lexer that classifies source text into
//! tokens and a recursive-descent parser that builds a syntax tree.

pub mod token;
pub mod lexer;
pub mod ast;
pub mod diagnostic;
pub mod grammar;
pub mod parser;
pub mod laws;
