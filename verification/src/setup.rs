//! Validation of the sizes that define an SCF problem.

use vstd::prelude::*;
use crate::error::ScfError;

verus! {

/// The numbers of rows and columns of a matrix.
#[derive(Debug, Clone, Copy, PartialEq, Eq, Structural)]
pub struct Shape {
    pub rows: usize,
    pub cols: usize,
}

/// The overlap, kinetic and nuclear-attraction matrices are square and of
/// one size, and the integral store was made for a basis of that size.
pub open spec fn shapes_agree(
    overlap: Shape,
    kinetic: Shape,
    attraction: Shape,
    eri_basis: usize,
) -> bool {
    &&& overlap.cols == overlap.rows
    &&& kinetic.rows == overlap.rows
    &&& kinetic.cols == overlap.rows
    &&& attraction.rows == overlap.rows
    &&& attraction.cols == overlap.rows
    &&& eri_basis == overlap.rows
}

/// A closed-shell electron count for a basis of `basis_size` functions:
/// even, positive, and at most two electrons per function.
pub open spec fn valid_electron_count(n_elec: nat, basis_size: nat) -> bool {
    &&& n_elec % 2 == 0
    &&& 0 < n_elec
    &&& n_elec <= 2 * basis_size
}

/// The basis size on which all inputs agree, or `DimensionMismatch` if they
/// do not agree on one.
pub fn common_basis_size(
    overlap: Shape,
    kinetic: Shape,
    attraction: Shape,
    eri_basis: usize,
) -> (r: Result<usize, ScfError>)
    ensures
        r == (if shapes_agree(overlap, kinetic, attraction, eri_basis) {
            Ok::<usize, ScfError>(overlap.rows)
        } else {
            Err(ScfError::DimensionMismatch)
        }),
{
    let n: usize = overlap.rows;
    if overlap.cols == n && kinetic.rows == n && kinetic.cols == n && attraction.rows == n
        && attraction.cols == n && eri_basis == n {
        Ok(n)
    } else {
        Err(ScfError::DimensionMismatch)
    }
}

/// The number of doubly occupied orbitals, half the electron count, or
/// `InvalidElectronCount` if the count is odd, zero, or more than twice the
/// basis size.
pub fn occupied_orbitals(n_elec: usize, basis_size: usize) -> (r: Result<usize, ScfError>)
    ensures
        r == (if valid_electron_count(n_elec as nat, basis_size as nat) {
            Ok::<usize, ScfError>((n_elec / 2) as usize)
        } else {
            Err(ScfError::InvalidElectronCount)
        }),
        r matches Ok(n_occ) ==> 1 <= n_occ <= basis_size && 2 * n_occ == n_elec,
{
    let half: usize = n_elec / 2;
    if n_elec % 2 == 0 && n_elec > 0 && half <= basis_size {
        Ok(half)
    } else {
        Err(ScfError::InvalidElectronCount)
    }
}

} // verus!
