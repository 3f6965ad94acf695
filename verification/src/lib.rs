//! A small language of expressions and statements: a lexer over the bytes
//! of a text, a parser that builds a syntax tree for each statement, and an
//! evaluator of trees over integers and named variables.
//!
//! Each of the three has its rules written down as functions on plain
//! values (`scan`, `grammar`, and `eval` of the evaluator), which the code
//! is proved to follow, and laws that are proved of the rules.

pub mod chars;
pub mod evaluator;
pub mod evaluator_laws;
pub mod grammar;
pub mod grammar_laws;
pub mod lexer;
pub mod numeral;
pub mod parser;
pub mod scan;
pub mod scan_laws;
pub mod source;
