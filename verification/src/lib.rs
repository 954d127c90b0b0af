//! Verified core of a restricted (closed-shell) Hartree-Fock SCF solver.
//!
//! The crate holds the parts of the solver that are exact: the packed
//! addressing of two-electron integrals under their eight-fold permutational
//! symmetry, the packed integral store, the validation of problem sizes and
//! electron counts, and the control logic of the SCF iteration. The numerical
//! linear algebra works on floating-point matrices and lives with the caller.

pub mod driver;
pub mod eri;
pub mod error;
pub mod index;
pub mod records;
pub mod setup;
