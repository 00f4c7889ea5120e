//! Translator from a small directive-based markup language to HTML.
//!
//! The front end is a single pass: a pull-based lexer, a recursive-descent
//! parser and a scope-aware emitter. Every stage is specified by spec
//! functions and the executable code is proved against them.
pub mod chars;
pub mod compiler;
pub mod error;
pub mod grammar;
pub mod keyword;
pub mod laws;
pub mod lexer;
pub mod parser;
pub mod semantic;
