use vstd::prelude::*;

use crate::span::Span;

verus! {

/// The error of a parse that could not go on.
#[derive(Debug)]
pub struct DummyError;

/// The result of a parsing step.
pub type PResult<T> = Result<T, DummyError>;

/// A parse error that cannot be recovered from.
#[derive(Debug)]
pub enum ParseError {
    Unrecoverable,
}

/// A syntax node that was either parsed, or is missing at the given location.
#[derive(Debug)]
pub enum Parsed<T> {
    Present(T),
    Missing(Span),
}

impl<T> Parsed<T> {
    /// Whether the node is missing.
    pub fn is_missing(&self) -> (r: bool)
        ensures
            r == (self is Missing),
    {
        matches!(self, Parsed::Missing(_))
    }

    /// The parsed node, or `value` when it is missing.
    pub fn unwrap_or(self, value: T) -> (r: T)
        ensures
            r == match self {
                Parsed::Present(p) => p,
                Parsed::Missing(_) => value,
            },
    {
        match self {
            Parsed::Present(p) => p,
            Parsed::Missing(_) => value,
        }
    }
}

} // verus!
