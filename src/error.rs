use vstd::prelude::*;

verus! {

/// Errors raised while building or rewriting plans and expressions.
#[derive(Debug, Clone, PartialEq, Eq)]
pub enum DaftError {
    /// Structural misuse, such as an empty input list.
    ValueError(String),
    /// An operator rejected the children or columns it was built from.
    SchemaMismatch(String),
    /// A rewrite would produce an ill-typed expression.
    TypeError(String),
    /// A node was given a number of children other than the one it takes.
    WrongChildCount { expected: usize, found: usize },
}

pub type DaftResult<T> = Result<T, DaftError>;

} // verus!
