//! Control of the SCF iteration.
//!
//! One iteration builds and diagonalizes a Fock matrix, forms a new density
//! and energy, and ends with a convergence test: is the change in energy
//! below its threshold, and is the change in density below its threshold?
//! The numerical work and the two comparisons are the caller's. What happens
//! next is decided here: the calculation has converged if and only if both
//! changes are below their thresholds; otherwise it goes on, unless the
//! iteration cap is reached, in which case it has failed.

use vstd::prelude::*;
use crate::error::ScfError;

verus! {

/// Where an SCF calculation stands.
#[derive(Debug, Clone, Copy, PartialEq, Eq, Structural)]
pub enum ScfStatus {
    /// The iteration with this number, counted from zero, is under way.
    Iterating { iteration: usize },
    /// Both thresholds were met at the end of the given number of
    /// iterations.
    Converged { iterations: usize },
    /// The cap was reached after the given number of iterations without
    /// both thresholds being met.
    NotConverged { iterations: usize },
}

/// What the caller does after a convergence test that did not end in
/// failure.
#[derive(Debug, Clone, Copy, PartialEq, Eq, Structural)]
pub enum Decision {
    /// The calculation is finished; the latest result is the answer.
    Converged,
    /// The new density and energy become the previous ones, and another
    /// iteration follows.
    Continue,
}

/// The outcome of one convergence test: the status after the test, given
/// the status before it and whether the energy change and the density
/// change were below their thresholds. A finished calculation stays as it
/// is.
pub open spec fn step(
    max_iter: usize,
    status: ScfStatus,
    energy_converged: bool,
    density_converged: bool,
) -> ScfStatus {
    match status {
        ScfStatus::Iterating { iteration } => {
            if energy_converged && density_converged {
                ScfStatus::Converged { iterations: (iteration + 1) as usize }
            } else if iteration + 1 == max_iter {
                ScfStatus::NotConverged { iterations: (iteration + 1) as usize }
            } else {
                ScfStatus::Iterating { iteration: (iteration + 1) as usize }
            }
        },
        _ => status,
    }
}

/// What `update` reports for the status that it has reached.
pub open spec fn report(status: ScfStatus) -> Result<Decision, ScfError> {
    match status {
        ScfStatus::Iterating { .. } => Ok(Decision::Continue),
        ScfStatus::Converged { .. } => Ok(Decision::Converged),
        ScfStatus::NotConverged { .. } => Err(ScfError::DidNotConverge),
    }
}

/// A test in which both changes were below their thresholds.
pub open spec fn met(test: (bool, bool)) -> bool {
    test.0 && test.1
}

/// The status after a sequence of convergence tests, starting from the
/// first iteration. Each test is the pair of the energy outcome and the
/// density outcome.
pub open spec fn run(max_iter: usize, tests: Seq<(bool, bool)>) -> ScfStatus
    decreases tests.len(),
{
    if tests.len() == 0 {
        ScfStatus::Iterating { iteration: 0 }
    } else {
        step(max_iter, run(max_iter, tests.drop_last()), tests.last().0, tests.last().1)
    }
}

/// The control state of one SCF calculation.
#[derive(Debug)]
pub struct ScfDriver {
    max_iter: usize,
    status: ScfStatus,
}

impl ScfDriver {
    #[verifier::type_invariant]
    spec fn well_formed(self) -> bool {
        &&& self.max_iter >= 1
        &&& match self.status {
            ScfStatus::Iterating { iteration } => iteration < self.max_iter,
            ScfStatus::Converged { iterations } => 1 <= iterations <= self.max_iter,
            ScfStatus::NotConverged { iterations } => iterations == self.max_iter,
        }
    }

    /// The iteration cap.
    pub closed spec fn spec_max_iter(&self) -> usize {
        self.max_iter
    }

    /// Where the calculation stands.
    pub closed spec fn spec_status(&self) -> ScfStatus {
        self.status
    }

    /// A calculation about to begin its first iteration, with room for
    /// `max_iter` iterations in all.
    pub fn new(max_iter: usize) -> (driver: ScfDriver)
        requires
            max_iter >= 1,
        ensures
            driver.spec_max_iter() == max_iter,
            driver.spec_status() == (ScfStatus::Iterating { iteration: 0 }),
    {
        ScfDriver { max_iter, status: ScfStatus::Iterating { iteration: 0 } }
    }

    /// The iteration cap.
    #[verifier::when_used_as_spec(spec_max_iter)]
    pub fn max_iter(&self) -> (m: usize)
        ensures
            m == self.spec_max_iter(),
            m >= 1,
    {
        proof {
            use_type_invariant(self);
        }
        self.max_iter
    }

    /// Where the calculation stands. The count of iterations never exceeds
    /// the cap.
    #[verifier::when_used_as_spec(spec_status)]
    pub fn status(&self) -> (s: ScfStatus)
        ensures
            s == self.spec_status(),
            match s {
                ScfStatus::Iterating { iteration } => iteration < self.spec_max_iter(),
                ScfStatus::Converged { iterations } => 1 <= iterations <= self.spec_max_iter(),
                ScfStatus::NotConverged { iterations } => iterations == self.spec_max_iter(),
            },
    {
        proof {
            use_type_invariant(self);
        }
        self.status
    }

    /// Records the convergence test that ends the current iteration and
    /// says what follows. `energy_converged` tells whether the energy
    /// changed by less than its threshold, `density_converged` whether the
    /// density did.
    ///
    /// Returns `Ok(Decision::Converged)` exactly when the state afterwards is
    /// the converged one, which a running calculation enters when both flags
    /// are set and not otherwise, and `Err(ScfError::DidNotConverge)` once
    /// the cap is used up.
    pub fn update(&mut self, energy_converged: bool, density_converged: bool) -> (r: Result<
        Decision,
        ScfError,
    >)
        ensures
            final(self).spec_max_iter() == old(self).spec_max_iter(),
            final(self).spec_status() == step(
                old(self).spec_max_iter(),
                old(self).spec_status(),
                energy_converged,
                density_converged,
            ),
            r == report(final(self).spec_status()),
    {
        proof {
            use_type_invariant(&*self);
        }
        match self.status {
            ScfStatus::Iterating { iteration } => {
                let done: usize = iteration + 1;
                if energy_converged && density_converged {
                    self.status = ScfStatus::Converged { iterations: done };
                    Ok(Decision::Converged)
                } else if done == self.max_iter {
                    self.status = ScfStatus::NotConverged { iterations: done };
                    Err(ScfError::DidNotConverge)
                } else {
                    self.status = ScfStatus::Iterating { iteration: done };
                    Ok(Decision::Continue)
                }
            },
            ScfStatus::Converged { .. } => Ok(Decision::Converged),
            ScfStatus::NotConverged { .. } => Err(ScfError::DidNotConverge),
        }
    }
}

/// What a sequence of convergence tests leads to, read backwards from the
/// status reached.
///
/// The calculation is still running only if no test so far met both
/// thresholds and the cap has room left. It has converged after `n`
/// iterations only if the `n`-th test was the first to meet both
/// thresholds and `n` is within the cap. It has failed only if none of the
/// tests up to the cap met both thresholds.
pub proof fn lemma_run_outcome(max_iter: usize, tests: Seq<(bool, bool)>)
    requires
        max_iter >= 1,
    ensures
        match run(max_iter, tests) {
            ScfStatus::Iterating { iteration } => {
                &&& iteration == tests.len()
                &&& iteration < max_iter
                &&& forall|i: int| 0 <= i < tests.len() ==> !met(#[trigger] tests[i])
            },
            ScfStatus::Converged { iterations } => {
                &&& 1 <= iterations <= tests.len()
                &&& iterations <= max_iter
                &&& met(tests[iterations - 1])
                &&& forall|i: int| 0 <= i < iterations - 1 ==> !met(#[trigger] tests[i])
            },
            ScfStatus::NotConverged { iterations } => {
                &&& iterations == max_iter
                &&& max_iter <= tests.len()
                &&& forall|i: int| 0 <= i < max_iter ==> !met(#[trigger] tests[i])
            },
        },
    decreases tests.len(),
{
    if tests.len() > 0 {
        let earlier = tests.drop_last();
        lemma_run_outcome(max_iter, earlier);
        assert(forall|i: int| 0 <= i < earlier.len() ==> earlier[i] == tests[i]);
    }
}

/// A calculation converges at the first test that meets both thresholds,
/// provided that test comes within the cap; later tests change nothing.
pub proof fn lemma_converges_at_first_success(
    max_iter: usize,
    tests: Seq<(bool, bool)>,
    first: int,
)
    requires
        0 <= first < tests.len(),
        first < max_iter,
        met(tests[first]),
        forall|i: int| 0 <= i < first ==> !met(#[trigger] tests[i]),
    ensures
        run(max_iter, tests) == (ScfStatus::Converged { iterations: (first + 1) as usize }),
{
    lemma_run_outcome(max_iter, tests);
    match run(max_iter, tests) {
        ScfStatus::Converged { iterations } => {
            if iterations - 1 < first {
                assert(!met(tests[iterations - 1]));
            } else if first < iterations - 1 {
                assert(!met(tests[first]));
            }
        },
        _ => {
            assert(!met(tests[first]));
        },
    }
}

/// A calculation fails with the cap used up, and only then, when none of
/// the first `max_iter` tests meets both thresholds.
pub proof fn lemma_fails_at_cap(max_iter: usize, tests: Seq<(bool, bool)>)
    requires
        max_iter >= 1,
        max_iter <= tests.len(),
        forall|i: int| 0 <= i < max_iter ==> !met(#[trigger] tests[i]),
    ensures
        run(max_iter, tests) == (ScfStatus::NotConverged { iterations: max_iter }),
{
    lemma_run_outcome(max_iter, tests);
    match run(max_iter, tests) {
        ScfStatus::Converged { iterations } => {
            assert(!met(tests[iterations - 1]));
        },
        _ => {},
    }
}

} // verus!
