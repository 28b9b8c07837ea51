//! Bracket-notation trees: a tokenizer over a character cursor, a recursive
//! tree builder, structural equality and canonical serialization, each with
//! a machine-checked contract.

pub mod eq;
pub mod laws;
pub mod lexer;
pub mod lines;
pub mod model;
pub mod tree;
