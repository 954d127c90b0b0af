//! The packed store of two-electron repulsion integrals.
//!
//! The store keeps one entry for each distinct integral over a basis of `n`
//! functions, at the offset given by the compound index of its four orbital
//! indices. It is generic in the entry type and never looks inside an entry.

use vstd::prelude::*;
use crate::error::ScfError;
use crate::index::{
    compound, compound_index, lemma_compound_bound, lemma_compound_same_orbit,
    lemma_compound_symmetric, packed_len, packed_length, same_orbit,
};

verus! {

/// One entry per distinct two-electron integral over a fixed basis.
#[derive(Debug)]
pub struct EriStore<T> {
    basis_size: usize,
    entries: Vec<T>,
}

impl<T> View for EriStore<T> {
    type V = Seq<T>;

    /// The entries in packed order.
    closed spec fn view(&self) -> Seq<T> {
        self.entries@
    }
}

impl<T> EriStore<T> {
    #[verifier::type_invariant]
    spec fn well_formed(self) -> bool {
        self.entries@.len() == packed_len(self.basis_size as nat)
    }

    /// The number of basis functions that the store was made for.
    pub closed spec fn spec_basis_size(&self) -> usize {
        self.basis_size
    }

    /// All four indices lie within the basis.
    pub open spec fn in_basis(&self, mu: nat, nu: nat, lambda: nat, sigma: nat) -> bool {
        &&& mu < self.spec_basis_size()
        &&& nu < self.spec_basis_size()
        &&& lambda < self.spec_basis_size()
        &&& sigma < self.spec_basis_size()
    }

    /// The stored value of the integral `(mu nu | lambda sigma)`.
    pub open spec fn entry(&self, mu: nat, nu: nat, lambda: nat, sigma: nat) -> T {
        self@[compound(mu, nu, lambda, sigma) as int]
    }

    /// Wraps entries that are already in packed order. Fails with
    /// `DimensionMismatch` unless there are exactly `packed_len(basis_size)`
    /// of them.
    pub fn from_packed(basis_size: usize, entries: Vec<T>) -> (r: Result<EriStore<T>, ScfError>)
        ensures
            match r {
                Ok(store) => {
                    &&& entries@.len() == packed_len(basis_size as nat)
                    &&& store.spec_basis_size() == basis_size
                    &&& store@ == entries@
                },
                Err(e) => {
                    &&& entries@.len() != packed_len(basis_size as nat)
                    &&& e == ScfError::DimensionMismatch
                },
            },
    {
        let count: usize = entries.len();
        match packed_length(basis_size) {
            Some(len) => {
                if count == len {
                    Ok(EriStore { basis_size, entries })
                } else {
                    Err(ScfError::DimensionMismatch)
                }
            },
            None => Err(ScfError::DimensionMismatch),
        }
    }

    /// The number of basis functions that the store was made for.
    #[verifier::when_used_as_spec(spec_basis_size)]
    pub fn basis_size(&self) -> (n: usize)
        ensures
            n == self.spec_basis_size(),
    {
        self.basis_size
    }

    /// The number of entries, one per distinct integral.
    pub fn len(&self) -> (l: usize)
        ensures
            l == self@.len(),
            l == packed_len(self.spec_basis_size() as nat),
    {
        proof {
            use_type_invariant(self);
        }
        self.entries.len()
    }

    /// The value of the integral `(mu nu | lambda sigma)`, or
    /// `DimensionMismatch` if an index lies outside the basis. All eight
    /// symmetric arrangements of the indices give the same entry.
    pub fn eri(&self, mu: usize, nu: usize, lambda: usize, sigma: usize) -> (r: Result<
        &T,
        ScfError,
    >)
        ensures
            match r {
                Ok(value) => {
                    &&& self.in_basis(mu as nat, nu as nat, lambda as nat, sigma as nat)
                    &&& compound(mu as nat, nu as nat, lambda as nat, sigma as nat) < self@.len()
                    &&& *value == self.entry(mu as nat, nu as nat, lambda as nat, sigma as nat)
                },
                Err(e) => {
                    &&& !self.in_basis(mu as nat, nu as nat, lambda as nat, sigma as nat)
                    &&& e == ScfError::DimensionMismatch
                },
            },
    {
        proof {
            use_type_invariant(self);
            assert(self.entries.len() == self.entries@.len());
        }
        let n: usize = self.basis_size;
        if mu < n && nu < n && lambda < n && sigma < n {
            let offset: usize = compound_index(mu, nu, lambda, sigma, n);
            Ok(&self.entries[offset])
        } else {
            Err(ScfError::DimensionMismatch)
        }
    }

    /// Stores `value` as the integral `(mu nu | lambda sigma)`, and so as
    /// each of its symmetric arrangements. Fails with `DimensionMismatch`,
    /// and changes nothing, if an index lies outside the basis.
    pub fn set(&mut self, mu: usize, nu: usize, lambda: usize, sigma: usize, value: T) -> (r:
        Result<(), ScfError>)
        ensures
            final(self).spec_basis_size() == old(self).spec_basis_size(),
            match r {
                Ok(()) => {
                    &&& old(self).in_basis(mu as nat, nu as nat, lambda as nat, sigma as nat)
                    &&& compound(mu as nat, nu as nat, lambda as nat, sigma as nat) < old(
                        self,
                    )@.len()
                    &&& final(self)@ == old(self)@.update(
                        compound(mu as nat, nu as nat, lambda as nat, sigma as nat) as int,
                        value,
                    )
                },
                Err(e) => {
                    &&& !old(self).in_basis(mu as nat, nu as nat, lambda as nat, sigma as nat)
                    &&& e == ScfError::DimensionMismatch
                    &&& final(self)@ == old(self)@
                },
            },
    {
        proof {
            use_type_invariant(&*self);
            assert(self.entries.len() == self.entries@.len());
        }
        let n: usize = self.basis_size;
        if mu < n && nu < n && lambda < n && sigma < n {
            let offset: usize = compound_index(mu, nu, lambda, sigma, n);
            self.entries[offset] = value;
            Ok(())
        } else {
            Err(ScfError::DimensionMismatch)
        }
    }
}

impl<T: Copy> EriStore<T> {
    /// A store for `basis_size` functions in which every integral has the
    /// value `value`; `None` if the number of entries does not fit in a
    /// `usize`.
    pub fn filled(basis_size: usize, value: T) -> (r: Option<EriStore<T>>)
        ensures
            match r {
                Some(store) => {
                    &&& store.spec_basis_size() == basis_size
                    &&& store@.len() == packed_len(basis_size as nat)
                    &&& forall|i: int| 0 <= i < store@.len() ==> store@[i] == value
                },
                None => packed_len(basis_size as nat) > usize::MAX,
            },
    {
        match packed_length(basis_size) {
            Some(len) => {
                let mut entries: Vec<T> = Vec::new();
                let mut i: usize = 0;
                while i < len
                    invariant
                        i <= len,
                        entries@.len() == i,
                        forall|j: int| 0 <= j < i ==> entries@[j] == value,
                    decreases len - i,
                {
                    entries.push(value);
                    i += 1;
                }
                Some(EriStore { basis_size, entries })
            },
            None => None,
        }
    }
}

/// The stored value of an integral is the same for all eight symmetric
/// arrangements of its indices.
pub proof fn lemma_entry_symmetric<T>(
    store: EriStore<T>,
    mu: nat,
    nu: nat,
    lambda: nat,
    sigma: nat,
)
    ensures
        store.entry(nu, mu, lambda, sigma) == store.entry(mu, nu, lambda, sigma),
        store.entry(mu, nu, sigma, lambda) == store.entry(mu, nu, lambda, sigma),
        store.entry(nu, mu, sigma, lambda) == store.entry(mu, nu, lambda, sigma),
        store.entry(lambda, sigma, mu, nu) == store.entry(mu, nu, lambda, sigma),
        store.entry(sigma, lambda, mu, nu) == store.entry(mu, nu, lambda, sigma),
        store.entry(lambda, sigma, nu, mu) == store.entry(mu, nu, lambda, sigma),
        store.entry(sigma, lambda, nu, mu) == store.entry(mu, nu, lambda, sigma),
{
    lemma_compound_symmetric(mu, nu, lambda, sigma);
}

/// Writing one integral changes the integrals that are symmetric
/// arrangements of it, and no others: if `after` is `before` with the entry
/// of `(mu nu | lambda sigma)` replaced by `value`, then any integral within
/// the basis reads as `value` if it is in the orbit of the one written, and
/// as before otherwise.
pub proof fn lemma_update_touches_one_orbit<T>(
    before: EriStore<T>,
    after: EriStore<T>,
    value: T,
    mu: nat,
    nu: nat,
    lambda: nat,
    sigma: nat,
    mu2: nat,
    nu2: nat,
    lambda2: nat,
    sigma2: nat,
)
    requires
        before@.len() == packed_len(before.spec_basis_size() as nat),
        before.in_basis(mu, nu, lambda, sigma),
        before.in_basis(mu2, nu2, lambda2, sigma2),
        after@ == before@.update(compound(mu, nu, lambda, sigma) as int, value),
    ensures
        after.entry(mu2, nu2, lambda2, sigma2) == (if same_orbit(
            mu,
            nu,
            lambda,
            sigma,
            mu2,
            nu2,
            lambda2,
            sigma2,
        ) {
            value
        } else {
            before.entry(mu2, nu2, lambda2, sigma2)
        }),
{
    let n = before.spec_basis_size() as nat;
    lemma_compound_bound(mu, nu, lambda, sigma, n);
    lemma_compound_bound(mu2, nu2, lambda2, sigma2, n);
    lemma_compound_same_orbit(mu, nu, lambda, sigma, mu2, nu2, lambda2, sigma2);
}

} // verus!
