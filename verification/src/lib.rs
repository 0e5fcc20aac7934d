//! A lexical analyzer for arithmetic expressions.
//!
//! The lexer turns a raw text string into a stream of tokens: decimal
//! integer literals, the seven single-character operators and
//! parentheses `+ - * / ^ ( )`, and a terminal end-of-input marker.
//! Whitespace separates tokens and is never tokenized itself; any other
//! character is reported as a lexical error.

pub mod lexical_analyzer;
pub mod token;
