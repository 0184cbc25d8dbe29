//! F_OLE — Oblivious Linear Evaluation ideal functionality.
//!
//! Two parties receive additive shares of x₀ ⊙ x₁ (component-wise
//! product). Only the general-ring path of the generation protocol would
//! need it; the binary-field path does not.

use vstd::prelude::*;
use crate::field::DpfRange;

verus! {

/// An OLE oracle over the range R.
///
/// `multiply` is meant to return (share_for_p0, share_for_p1) summing to
/// a·b; `DpfRange` has no product, so no contract states that here.
pub trait OleOracle<R: DpfRange> {
    /// Returns (share_for_p0, share_for_p1) such that both sum to a·b.
    fn multiply(&mut self, a: R, b: R) -> (R, R);
}

} // verus!
