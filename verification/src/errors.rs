//! Error values of the library.

use vstd::prelude::*;

verus! {

#[derive(Debug, Clone, Copy, PartialEq, Eq)]
pub enum DpfError {
    /// Length mismatch: expected `expected`, got `got`.
    LengthMismatch { expected: usize, got: usize },
    /// Invalid domain depth: n must be >= 1.
    InvalidDomainDepth(usize),
    /// Malformed correction word.
    MalformedCorrectionWord,
    /// Oracle failure, with a description.
    OracleFailure(&'static str),
}

pub type Result<T> = core::result::Result<T, DpfError>;

} // verus!
