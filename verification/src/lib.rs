//! A lexer and a precedence-climbing parser for one-line arithmetic
//! expressions, with position-tagged diagnostics.
//!
//! Text goes through [`lexer::lexer::Lexer`], which hands out
//! [`lexer::token::Token`]s one at a time; the materialised tokens go through
//! [`parser::parser::Parser`], which builds a [`parser::node::Node`] tree.
//! Neither stage ever aborts: problems are appended to a
//! [`diags::diagbag::DiagBag`] owned by the stage that found them.

pub mod diags;
pub mod lexer;
pub mod parser;
pub mod text;
