use hartree_fock::error::ScfError;
use hartree_fock::setup::{common_basis_size, occupied_orbitals, Shape};

fn square(n: usize) -> Shape {
    Shape { rows: n, cols: n }
}

#[test]
fn occupied_orbitals_is_half_the_electron_count() {
    assert_eq!(occupied_orbitals(10, 7), Ok(5));
    assert_eq!(occupied_orbitals(2, 2), Ok(1));
    assert_eq!(occupied_orbitals(2, 1), Ok(1));
    assert_eq!(occupied_orbitals(14, 7), Ok(7));
}

#[test]
fn occupied_orbitals_rejects_odd_counts() {
    assert_eq!(occupied_orbitals(1, 7), Err(ScfError::InvalidElectronCount));
    assert_eq!(occupied_orbitals(9, 7), Err(ScfError::InvalidElectronCount));
    assert_eq!(occupied_orbitals(usize::MAX, usize::MAX), Err(ScfError::InvalidElectronCount));
}

#[test]
fn occupied_orbitals_rejects_an_empty_shell() {
    assert_eq!(occupied_orbitals(0, 7), Err(ScfError::InvalidElectronCount));
    assert_eq!(occupied_orbitals(0, 0), Err(ScfError::InvalidElectronCount));
}

#[test]
fn occupied_orbitals_rejects_more_than_two_per_function() {
    assert_eq!(occupied_orbitals(16, 7), Err(ScfError::InvalidElectronCount));
    assert_eq!(occupied_orbitals(4, 1), Err(ScfError::InvalidElectronCount));
    assert_eq!(occupied_orbitals(2, 0), Err(ScfError::InvalidElectronCount));
    assert_eq!(occupied_orbitals(usize::MAX - 1, usize::MAX / 2), Ok(usize::MAX / 2));
    assert_eq!(
        occupied_orbitals(usize::MAX - 1, usize::MAX / 2 - 1),
        Err(ScfError::InvalidElectronCount)
    );
}

#[test]
fn common_basis_size_of_agreeing_inputs() {
    assert_eq!(common_basis_size(square(7), square(7), square(7), 7), Ok(7));
    assert_eq!(common_basis_size(square(1), square(1), square(1), 1), Ok(1));
    assert_eq!(common_basis_size(square(0), square(0), square(0), 0), Ok(0));
}

#[test]
fn common_basis_size_rejects_each_disagreement() {
    let wide = Shape { rows: 7, cols: 8 };
    let tall = Shape { rows: 8, cols: 7 };
    let e = Err(ScfError::DimensionMismatch);
    assert_eq!(common_basis_size(wide, square(7), square(7), 7), e);
    assert_eq!(common_basis_size(tall, square(7), square(7), 7), e);
    assert_eq!(common_basis_size(square(7), wide, square(7), 7), e);
    assert_eq!(common_basis_size(square(7), tall, square(7), 7), e);
    assert_eq!(common_basis_size(square(7), square(7), wide, 7), e);
    assert_eq!(common_basis_size(square(7), square(7), tall, 7), e);
    assert_eq!(common_basis_size(square(7), square(7), square(7), 6), e);
    assert_eq!(common_basis_size(square(7), square(6), square(7), 7), e);
    assert_eq!(common_basis_size(square(6), square(7), square(7), 7), e);
}
