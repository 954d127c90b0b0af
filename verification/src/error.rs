//! The ways in which an SCF calculation can fail.

use vstd::prelude::*;

verus! {

/// Why an SCF calculation stopped without a converged result. Every error
/// ends the calculation in which it arises.
#[derive(Debug, Clone, Copy, PartialEq, Eq, Structural)]
pub enum ScfError {
    /// The input matrices disagree on the basis size, or an integral index
    /// lies outside the basis.
    DimensionMismatch,
    /// The overlap matrix has an eigenvalue below the linear-dependency
    /// threshold.
    IllConditioned,
    /// The eigensolver reported that it did not converge.
    DiagonalizationFailed,
    /// The electron count is odd, zero, or more than two per basis function.
    InvalidElectronCount,
    /// The iteration cap was reached before both thresholds were met.
    DidNotConverge,
}

} // verus!
