//! Syntactic analysis: from tokens to an expression tree.

pub mod grammar;
pub mod laws;
pub mod node;
pub mod parser;
