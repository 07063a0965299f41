//! A small dynamically typed scripting language: a lexer, a precedence-climbing
//! parser and a tree-walking evaluator, each with a machine-checked contract.

pub mod evaluator;
pub mod parser;
pub mod text;
