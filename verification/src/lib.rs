//! A small language front end: a byte-level lexer, a recursive-descent parser
//! for programs built from its tokens, and a Go code generator for the
//! syntax tree.
pub mod token;
pub mod text;
pub mod lexer;
pub mod ast;
pub mod grammar;
pub mod parser;
pub mod codegen;
pub mod repl;
pub mod laws;
pub mod grammar_laws;
