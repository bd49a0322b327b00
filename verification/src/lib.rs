//! Front end of a small expression-oriented language: a character scanner, a
//! token stream that merges composite operators, and a precedence-climbing
//! parser with local error recovery.
pub mod ast;
pub mod lex;
pub mod parse;
