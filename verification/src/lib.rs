//! A small dynamically-typed, expression-oriented scripting language:
//! tokenizer, operator-precedence parser, syntax tree and a tree-walking
//! evaluator with lexical closures.
//!
//! Data flows one way, from text to tokens to syntax tree to value. Every
//! stage is given a mathematical model (a `spec` function over sequences and
//! maps) and the executable code is proved to compute exactly that model.

pub mod text;
pub mod token;
pub mod lex;
pub mod ast;
pub mod parse;
pub mod eval;
