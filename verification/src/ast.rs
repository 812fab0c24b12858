//! The expression tree consumed by the IR generator.
//!
//! Expressions are produced by an external parser, constructed once and
//! read-only afterwards: the lowering pass never mutates them.

use vstd::prelude::*;

verus! {

/// One parsed expression.
#[derive(Debug)]
pub enum Expr {
    /// A 32-bit integer literal.
    Number(i32),
    /// A boolean literal.
    Boolean(bool),
    /// A symbol reference, resolved against the lexical scope stack.
    Symbol(String),
    /// A string literal.
    String(String),
    /// A procedure call: name plus ordered argument expressions.
    Procedure(String, Vec<Expr>),
    /// A `let` form: ordered (name, binding expression) pairs plus a body.
    LetProcedure(Vec<(String, Expr)>, Box<Expr>),
}

/// One module handed to the compiler: a source name plus its ordered
/// top-level expressions.
#[derive(Debug)]
pub struct ModuleAst {
    pub source: String,
    pub expr_vec: Vec<Expr>,
}

} // verus!
