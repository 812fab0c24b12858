//! Compile-time diagnostics reported by the lowering passes.

use vstd::prelude::*;

verus! {

/// A compile-time, module-fatal condition.
#[derive(Clone, Debug)]
pub enum CompilispError {
    /// An expression reached lowering with a shape the generator does not
    /// recognize (for example an `if` without a then branch, or a boolean
    /// literal, which no IR instruction can materialize).
    IllFormedSyntax,
    /// A symbol had no binding in any enclosing scope; carries the name.
    UnboundVariable(String),
}

pub type CompilispResult<T> = Result<T, CompilispError>;

} // verus!
