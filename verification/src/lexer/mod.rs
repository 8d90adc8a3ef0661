//! Lexical analysis: from characters to classified, positioned tokens.

pub mod laws;
pub mod lexer;
pub mod scan;
pub mod token;
