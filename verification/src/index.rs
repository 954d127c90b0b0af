//! Triangular packing of index pairs and the compound index of a
//! two-electron integral.
//!
//! The integral `(mu nu | lambda sigma)` does not change when `mu` and `nu`
//! are swapped, when `lambda` and `sigma` are swapped, or when the two pairs
//! are swapped. Folding each unordered pair into one number, and then the
//! two pair numbers into one more, gives an offset that is the same for all
//! eight arrangements and that fills a store of `packed_len(n)` entries
//! without gaps.

use vstd::prelude::*;

verus! {

/// The `k`-th triangular number, `0 + 1 + ... + k`.
pub open spec fn triangle(k: nat) -> nat {
    k * (k + 1) / 2
}

/// Offset of the unordered pair `{a, b}` in a row-by-row listing of the
/// lower triangle: `(0,0), (1,0), (1,1), (2,0), ...`.
pub open spec fn pair(a: nat, b: nat) -> nat {
    if a >= b {
        triangle(a) + b
    } else {
        triangle(b) + a
    }
}

/// Canonical offset of the integral `(mu nu | lambda sigma)`.
pub open spec fn compound(mu: nat, nu: nat, lambda: nat, sigma: nat) -> nat {
    pair(pair(mu, nu), pair(lambda, sigma))
}

/// Number of distinct integrals over a basis of `n` functions.
pub open spec fn packed_len(n: nat) -> nat {
    triangle(triangle(n))
}

/// Two index quartets name the same integral: one is among the eight
/// symmetric arrangements of the other.
pub open spec fn same_orbit(
    mu: nat,
    nu: nat,
    lambda: nat,
    sigma: nat,
    mu2: nat,
    nu2: nat,
    lambda2: nat,
    sigma2: nat,
) -> bool {
    ||| same_pair(mu, nu, mu2, nu2) && same_pair(lambda, sigma, lambda2, sigma2)
    ||| same_pair(mu, nu, lambda2, sigma2) && same_pair(lambda, sigma, mu2, nu2)
}

/// `{a, b}` and `{c, d}` are the same unordered pair.
pub open spec fn same_pair(a: nat, b: nat, c: nat, d: nat) -> bool {
    (a == c && b == d) || (a == d && b == c)
}

/// Each triangular number exceeds the one before by its own rank.
pub proof fn lemma_triangle_step(k: nat)
    ensures
        triangle(k + 1) == triangle(k) + k + 1,
{
    assert((k + 1) * (k + 1 + 1) == k * (k + 1) + 2 * (k + 1)) by (nonlinear_arith);
}

/// Twice a triangular number is the product of its rank and the next
/// number.
pub proof fn lemma_triangle_doubled(k: nat)
    ensures
        2 * triangle(k) == k * (k + 1),
    decreases k,
{
    if k > 0 {
        lemma_triangle_doubled((k - 1) as nat);
        lemma_triangle_step((k - 1) as nat);
        assert(k * (k + 1) == (k - 1) * k + 2 * k) by (nonlinear_arith);
    } else {
        assert(0 * (0 + 1) == 0) by (nonlinear_arith);
    }
}

/// Triangular numbers grow with their rank.
pub proof fn lemma_triangle_monotonic(a: nat, b: nat)
    requires
        a <= b,
    ensures
        triangle(a) <= triangle(b),
    decreases b,
{
    if a < b {
        lemma_triangle_monotonic(a, (b - 1) as nat);
        lemma_triangle_step((b - 1) as nat);
    }
}

/// A number never exceeds its triangular number.
pub proof fn lemma_triangle_at_least(k: nat)
    ensures
        k <= triangle(k),
    decreases k,
{
    if k > 0 {
        lemma_triangle_at_least((k - 1) as nat);
        lemma_triangle_step((k - 1) as nat);
    }
}

/// The pairs whose larger member is `a` occupy exactly the offsets from
/// `triangle(a)` up to, but not including, `triangle(a + 1)`.
pub proof fn lemma_pair_row(a: nat, b: nat)
    requires
        b <= a,
    ensures
        triangle(a) <= pair(a, b) < triangle(a + 1),
{
    lemma_triangle_step(a);
}

/// The offset of a pair does not depend on the order of its members.
pub proof fn lemma_pair_symmetric(a: nat, b: nat)
    ensures
        pair(a, b) == pair(b, a),
{
}

/// Pairs drawn from `n` indices have offsets below `triangle(n)`.
pub proof fn lemma_pair_bound(a: nat, b: nat, n: nat)
    requires
        a < n,
        b < n,
    ensures
        pair(a, b) < triangle(n),
{
    let hi = if a >= b { a } else { b };
    let lo = if a >= b { b } else { a };
    lemma_pair_row(hi, lo);
    lemma_triangle_monotonic(hi + 1, n);
}

/// Two pairs share an offset only if they are the same unordered pair.
pub proof fn lemma_pair_injective(a: nat, b: nat, c: nat, d: nat)
    requires
        pair(a, b) == pair(c, d),
    ensures
        same_pair(a, b, c, d),
{
    let hi1 = if a >= b { a } else { b };
    let lo1 = if a >= b { b } else { a };
    let hi2 = if c >= d { c } else { d };
    let lo2 = if c >= d { d } else { c };
    lemma_pair_row(hi1, lo1);
    lemma_pair_row(hi2, lo2);
    if hi1 < hi2 {
        lemma_triangle_monotonic(hi1 + 1, hi2);
    } else if hi2 < hi1 {
        lemma_triangle_monotonic(hi2 + 1, hi1);
    }
}

/// Every offset is the offset of some pair; the pair is returned with its
/// larger member first.
pub proof fn lemma_pair_onto(k: nat) -> (ab: (nat, nat))
    ensures
        ab.1 <= ab.0,
        pair(ab.0, ab.1) == k,
    decreases k,
{
    if k == 0 {
        (0, 0)
    } else {
        let (a, b) = lemma_pair_onto((k - 1) as nat);
        if b < a {
            (a, b + 1)
        } else {
            lemma_triangle_step(a);
            (a + 1, 0)
        }
    }
}

/// A pair whose offset lies below `triangle(n)` is drawn from `n` indices.
pub proof fn lemma_pair_members_bound(a: nat, b: nat, n: nat)
    requires
        pair(a, b) < triangle(n),
    ensures
        a < n,
        b < n,
{
    let hi = if a >= b { a } else { b };
    let lo = if a >= b { b } else { a };
    lemma_pair_row(hi, lo);
    if hi >= n {
        lemma_triangle_monotonic(n, hi);
    }
}

/// The compound index is the same for all eight symmetric arrangements of
/// the four indices.
pub proof fn lemma_compound_symmetric(mu: nat, nu: nat, lambda: nat, sigma: nat)
    ensures
        compound(nu, mu, lambda, sigma) == compound(mu, nu, lambda, sigma),
        compound(mu, nu, sigma, lambda) == compound(mu, nu, lambda, sigma),
        compound(nu, mu, sigma, lambda) == compound(mu, nu, lambda, sigma),
        compound(lambda, sigma, mu, nu) == compound(mu, nu, lambda, sigma),
        compound(sigma, lambda, mu, nu) == compound(mu, nu, lambda, sigma),
        compound(lambda, sigma, nu, mu) == compound(mu, nu, lambda, sigma),
        compound(sigma, lambda, nu, mu) == compound(mu, nu, lambda, sigma),
{
    lemma_pair_symmetric(mu, nu);
    lemma_pair_symmetric(lambda, sigma);
    lemma_pair_symmetric(pair(mu, nu), pair(lambda, sigma));
}

/// Two quartets have the same compound index exactly when they name the
/// same integral.
pub proof fn lemma_compound_same_orbit(
    mu: nat,
    nu: nat,
    lambda: nat,
    sigma: nat,
    mu2: nat,
    nu2: nat,
    lambda2: nat,
    sigma2: nat,
)
    ensures
        compound(mu, nu, lambda, sigma) == compound(mu2, nu2, lambda2, sigma2) <==> same_orbit(
            mu,
            nu,
            lambda,
            sigma,
            mu2,
            nu2,
            lambda2,
            sigma2,
        ),
{
    let ij = pair(mu, nu);
    let kl = pair(lambda, sigma);
    let ij2 = pair(mu2, nu2);
    let kl2 = pair(lambda2, sigma2);
    if compound(mu, nu, lambda, sigma) == compound(mu2, nu2, lambda2, sigma2) {
        lemma_pair_injective(ij, kl, ij2, kl2);
        if ij == ij2 && kl == kl2 {
            lemma_pair_injective(mu, nu, mu2, nu2);
            lemma_pair_injective(lambda, sigma, lambda2, sigma2);
        } else {
            lemma_pair_injective(mu, nu, lambda2, sigma2);
            lemma_pair_injective(lambda, sigma, mu2, nu2);
        }
    }
    if same_orbit(mu, nu, lambda, sigma, mu2, nu2, lambda2, sigma2) {
        lemma_pair_symmetric(mu, nu);
        lemma_pair_symmetric(lambda, sigma);
        lemma_pair_symmetric(ij, kl);
    }
}

/// Quartets drawn from `n` indices have compound indices below
/// `packed_len(n)`.
pub proof fn lemma_compound_bound(mu: nat, nu: nat, lambda: nat, sigma: nat, n: nat)
    requires
        mu < n,
        nu < n,
        lambda < n,
        sigma < n,
    ensures
        pair(mu, nu) < triangle(n),
        pair(lambda, sigma) < triangle(n),
        compound(mu, nu, lambda, sigma) < packed_len(n),
{
    lemma_pair_bound(mu, nu, n);
    lemma_pair_bound(lambda, sigma, n);
    lemma_pair_bound(pair(mu, nu), pair(lambda, sigma), triangle(n));
}

/// Every offset below `packed_len(n)` is the compound index of a quartet
/// drawn from `n` indices, so a store of that length has no unused entry.
pub proof fn lemma_compound_onto(k: nat, n: nat) -> (q: (nat, nat, nat, nat))
    requires
        k < packed_len(n),
    ensures
        q.0 < n,
        q.1 < n,
        q.2 < n,
        q.3 < n,
        compound(q.0, q.1, q.2, q.3) == k,
{
    let (ij, kl) = lemma_pair_onto(k);
    lemma_pair_members_bound(ij, kl, triangle(n));
    let (mu, nu) = lemma_pair_onto(ij);
    let (lambda, sigma) = lemma_pair_onto(kl);
    lemma_pair_members_bound(mu, nu, n);
    lemma_pair_members_bound(lambda, sigma, n);
    (mu, nu, lambda, sigma)
}

/// The number of distinct integrals in closed form:
/// `n (n + 1) (n^2 + n + 2) / 8`.
pub proof fn lemma_packed_len_closed_form(n: nat)
    ensures
        8 * packed_len(n) == n * (n + 1) * (n * n + n + 2),
{
    let m = triangle(n);
    lemma_triangle_doubled(n);
    lemma_triangle_doubled(m);
    assert(8 * triangle(m) == n * (n + 1) * (n * n + n + 2)) by (nonlinear_arith)
        requires
            2 * m == n * (n + 1),
            2 * triangle(m) == m * (m + 1),
    ;
}

/// The last entry of the store belongs to the quartet whose four indices
/// are all `n - 1`.
pub proof fn lemma_packed_len_last(n: nat)
    requires
        n > 0,
    ensures
        packed_len(n) == compound((n - 1) as nat, (n - 1) as nat, (n - 1) as nat, (n - 1) as nat)
            + 1,
{
    let p = (n - 1) as nat;
    lemma_triangle_step(p);
    let m = triangle(n);
    lemma_triangle_at_least(n);
    lemma_triangle_step((m - 1) as nat);
}

/// A larger basis never has fewer distinct integrals.
pub proof fn lemma_packed_len_monotonic(m: nat, n: nat)
    requires
        m <= n,
    ensures
        triangle(m) <= packed_len(m),
        packed_len(m) <= packed_len(n),
{
    lemma_triangle_monotonic(m, n);
    lemma_triangle_monotonic(triangle(m), triangle(n));
    lemma_triangle_at_least(triangle(m));
}

/// The store of a basis of up to 430 functions can be addressed on every
/// platform: its length fits in 32 bits.
pub proof fn lemma_packed_len_fits(n: nat)
    requires
        n <= 430,
    ensures
        packed_len(n) <= 0xffff_ffff,
        packed_len(n) <= usize::MAX,
{
    lemma_packed_len_monotonic(n, 430);
    assert(triangle(430) == 92665) by (nonlinear_arith);
    assert(triangle(92665) == 4293447445) by (nonlinear_arith);
}

/// `triangle(k)`, or `None` if it does not fit in a `usize`.
fn checked_triangle(k: usize) -> (r: Option<usize>)
    ensures
        r == (if triangle(k as nat) <= usize::MAX {
            Some(triangle(k as nat) as usize)
        } else {
            None
        }),
{
    let half: usize = k / 2;
    proof {
        lemma_triangle_doubled(k as nat);
        lemma_triangle_at_least(k as nat);
    }
    if k % 2 == 0 {
        match k.checked_add(1) {
            None => {
                proof {
                    lemma_triangle_step((k - 1) as nat);
                }
                None
            },
            Some(next) => {
                assert(half * next == triangle(k as nat)) by (nonlinear_arith)
                    requires
                        k == 2 * half,
                        next == k + 1,
                        2 * triangle(k as nat) == k * (k + 1),
                ;
                half.checked_mul(next)
            },
        }
    } else {
        assert(k * (half + 1) == triangle(k as nat)) by (nonlinear_arith)
            requires
                k == 2 * half + 1,
                2 * triangle(k as nat) == k * (k + 1),
        ;
        k.checked_mul(half + 1)
    }
}

/// Offset of the unordered pair `{a, b}` in triangular packing.
fn pair_index(a: usize, b: usize) -> (r: usize)
    requires
        pair(a as nat, b as nat) <= usize::MAX,
    ensures
        r == pair(a as nat, b as nat),
{
    let hi: usize = if a >= b { a } else { b };
    let lo: usize = if a >= b { b } else { a };
    let row: Option<usize> = checked_triangle(hi);
    row.unwrap() + lo
}

/// Canonical offset of the integral `(mu nu | lambda sigma)` in the packed
/// store of a basis of `basis_size` functions.
///
/// The result is the same for all eight symmetric arrangements of the
/// indices (`lemma_compound_symmetric`) and differs between quartets that
/// name different integrals (`lemma_compound_same_orbit`).
///
/// The store must be addressable: a caller that does not know this of its
/// basis size learns it from `packed_length`, or from
/// `lemma_packed_len_fits` for a basis of up to 430 functions.
pub fn compound_index(
    mu: usize,
    nu: usize,
    lambda_: usize,
    sigma: usize,
    basis_size: usize,
) -> (r: usize)
    requires
        mu < basis_size,
        nu < basis_size,
        lambda_ < basis_size,
        sigma < basis_size,
        packed_len(basis_size as nat) <= usize::MAX,
    ensures
        r == compound(mu as nat, nu as nat, lambda_ as nat, sigma as nat),
        r < packed_len(basis_size as nat),
{
    proof {
        lemma_compound_bound(
            mu as nat,
            nu as nat,
            lambda_ as nat,
            sigma as nat,
            basis_size as nat,
        );
        lemma_packed_len_monotonic(basis_size as nat, basis_size as nat);
    }
    let ij: usize = pair_index(mu, nu);
    let kl: usize = pair_index(lambda_, sigma);
    pair_index(ij, kl)
}

/// Length of the packed store for a basis of `basis_size` functions, or
/// `None` if that length does not fit in a `usize`.
pub fn packed_length(basis_size: usize) -> (r: Option<usize>)
    ensures
        r == (if packed_len(basis_size as nat) <= usize::MAX {
            Some(packed_len(basis_size as nat) as usize)
        } else {
            None
        }),
{
    proof {
        lemma_packed_len_monotonic(basis_size as nat, basis_size as nat);
    }
    match checked_triangle(basis_size) {
        Some(pairs) => checked_triangle(pairs),
        None => None,
    }
}

} // verus!
