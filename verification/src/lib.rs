//! A small regular-expression engine.
//!
//! A pattern string is scanned into tokens, parsed into an expression tree,
//! and matched against input text by walking that tree.  Every stage carries
//! a specification: the scanner and parser are proved equal to spec-level
//! definitions of the lexical grammar and the surface grammar, and the
//! matcher is proved equal to a spec-level evaluator over the tree.

pub mod laws;
pub mod parser;
pub mod regex;
pub mod scanner;
