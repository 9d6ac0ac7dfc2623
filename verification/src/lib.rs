//! WALC: compiles WebAssembly modules into pure closed untyped lambda expressions.

pub mod analyzer;
pub mod codegen;
