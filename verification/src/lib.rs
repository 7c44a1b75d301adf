//! Tibanna: a small compiler for a Rust-like language, from source text to x86_64 assembly.
pub mod common;
pub mod analyze;
pub mod assembly;
pub mod backend;
pub mod compile;
pub mod ir;
pub mod lexer;
pub mod parser;
pub mod resolver;
pub mod types;
