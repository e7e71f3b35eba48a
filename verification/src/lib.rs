//! A tree-walking interpreter for a small dynamically typed scripting
//! language: lexical scanning, recursive-descent parsing with error
//! recovery, a dynamic value model, lexically scoped environments with
//! closures, and a tree-walking evaluator.
//!
//! Every stage is specified against a mathematical model and verified:
//! the scanner, the parser and the evaluator are each proved to return
//! exactly what a specification-level counterpart over sequences, maps
//! and integers says, diagnostics and state included, and the value
//! operators carry exact case-by-case contracts.

pub mod ast;
pub mod basic_function;
pub mod environment;
pub mod interpreter;
pub mod lox_error;
pub mod lox_object;
pub mod lox_runner;
pub mod number;
pub mod parser;
pub mod scanner;
pub mod token;
