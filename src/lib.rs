//! A compiler for a small imperative language that produces WebAssembly text.
//!
//! The pipeline: lexer, parser, module loader, type checker, lowering to a
//! linear stack IR, IR optimizer, and WAT emitter.
pub mod text;
pub mod token;
pub mod types;
pub mod error;
pub mod ast;
pub mod ir;
pub mod opt;
pub mod stdlib;
pub mod lexer;
pub mod parser;
pub mod typechecker;
pub mod loader;
pub mod lowering;
pub mod bytecode;
pub mod gas;
pub mod codegen;
