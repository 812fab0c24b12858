//! A small Scheme-like compiler core with a companion runtime library.
//!
//! The crate lowers a parsed expression tree into a flat intermediate
//! representation (IR) with explicit value slots and lexical scope
//! resolution, maps that IR to an abstract native instruction stream,
//! and supplies the runtime support (scope stack, argument stack,
//! builtin procedure table) that compiled programs call into.

pub mod abi;
pub mod ast;
pub mod codegen;
pub mod compilisp_ir;
pub mod error;
pub mod eval;
pub mod runtime;
pub mod text;
