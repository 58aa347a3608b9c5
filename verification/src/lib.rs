//! An evaluator for a small calculus of booleans and natural numbers: text is
//! scanned into tokens, tokens are parsed into terms, and each term is reduced
//! step by step until no rule applies.

pub mod lexer;
pub mod parser;
pub mod interpretator;
pub mod render;
pub mod numerals;
pub mod repl;
