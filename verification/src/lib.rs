//! A verified compiler core for a small imperative language.
//!
//! The pipeline runs in four stages, each a module of its own:
//! source text is tokenized (`lexer`), the token stream is reduced by a
//! table-driven shift-reduce engine (`parser`), statements are lowered into a
//! dense virtual-register op sequence (`ir`), and the op sequence is mapped
//! onto a fixed set of physical registers with spill code (`code_gen`).
//! Every stage is total: it either produces its output or reports a
//! `CompileError`, never panics.

pub mod code_gen;
pub mod error;
pub mod ir;
pub mod lexer;
pub mod parser;
