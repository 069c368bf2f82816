//! Front end of a small toy language: a lexer that turns source text into
//! located tokens, and a parser-combinator engine that composes token-level
//! rules into a syntax tree.

pub mod combinators;
pub mod lexer;
pub mod lexing;
pub mod line_lexer;
pub mod parse;
pub mod syn;
pub mod token;
