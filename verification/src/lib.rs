//! A small dynamically typed scripting language: scanner, recursive-descent
//! parser and tree-walking interpreter over a chain of lexical scopes.
//!
//! The functions of this crate carry contracts that Verus proves. Numbers
//! are IEEE 754 binary64 values held by their bit pattern; the operations that
//! need a floating-point unit (the four arithmetic operators, reading a
//! literal, printing a number) are supplied by the caller as functions over bit
//! patterns, and the contracts say how each of their results is used.
//!
//! The modules `lexical`, `grammar` and `semantics` say what a text means: its
//! lexemes, its syntax tree, and what its statements do. The modules `scanner`,
//! `parser` and `interpreter` hold the code that is proved against them, and
//! `program` runs the three in turn.
pub mod text;
pub mod number;
pub mod value;
pub mod error;
pub mod lexical;
pub mod scanner;
pub mod grammar;
pub mod parser;
pub mod environment;
pub mod semantics;
pub mod interpreter;
pub mod program;
