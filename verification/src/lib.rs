//! Front end of a small expression language: numbers, variables, binary
//! operators with a table of precedences, calls, and the definitions and
//! declarations of functions.
//!
//! The lexer turns the bytes of a source into tokens, one at a time. The
//! parser turns the tokens into syntax trees by recursive descent with one
//! token of look-ahead, and by precedence climbing for binary operators.
//!
//! - `chars`, `numeral`: the character classes and the grammar of numerals;
//! - `token`, `lexer`: the tokens and the lexer, with what it yields on each
//!   input as the function `scan`;
//! - `ast`: the syntax tree;
//! - `grammar`: what the parser owes on each sequence of lexemes;
//! - `parser`: the parser;
//! - `lexer_laws`, `grammar_laws`: what holds of them on every input.
pub mod ast;
pub mod chars;
pub mod grammar;
pub mod grammar_laws;
pub mod lexer;
pub mod lexer_laws;
pub mod numeral;
pub mod parser;
pub mod token;
