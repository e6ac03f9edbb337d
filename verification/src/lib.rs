//! A front-to-back compiler for a small imperative language, lowering to
//! textual x86-64 assembly in NASM syntax (Unix calling convention with
//! underscore-prefixed external symbols).
//!
//! The pipeline has three stages: the lexer turns source text into tokens,
//! the parser turns tokens into a statement tree, and the code generator
//! walks the tree and emits assembly lines.  Each stage's result is pinned
//! by its contract to a specification-level function of its input, so the
//! whole pipeline is deterministic by construction.

pub mod compiler;
pub mod emit;
pub mod ast;
pub mod laws;
pub mod lexer;
pub mod machine;
pub mod parser;
pub mod tokens;
