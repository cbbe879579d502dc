//! A verified tree-walking interpreter for a small, dynamically typed
//! scripting language with C-style syntax, first-class functions and
//! lexical closures.
//!
//! The pipeline is: scanner (source text to tokens), parser (tokens to a
//! statement tree), evaluator (statement tree to values and printed
//! output, against a chained-scope environment).  Each stage is specified
//! against a mathematical model and verified.

pub mod scanner;
pub mod ast;
pub mod text;
pub mod interpreter;
pub mod render;
pub mod errors;
pub mod eval;
pub mod parser;
pub mod builtins;
pub mod laws;
