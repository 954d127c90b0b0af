use hartree_fock::index::{compound_index, packed_length};

#[test]
fn compound_index_of_known_quartets() {
    assert_eq!(compound_index(0, 0, 0, 0, 1), 0);
    assert_eq!(compound_index(1, 0, 0, 0, 2), 1);
    assert_eq!(compound_index(1, 0, 1, 0, 2), 2);
    assert_eq!(compound_index(1, 1, 0, 0, 2), 3);
    assert_eq!(compound_index(1, 1, 1, 0, 2), 4);
    assert_eq!(compound_index(1, 1, 1, 1, 2), 5);
    assert_eq!(compound_index(0, 1, 2, 1, 3), 11);
    assert_eq!(compound_index(2, 2, 0, 0, 3), 15);
    assert_eq!(compound_index(2, 2, 2, 2, 3), 20);
    assert_eq!(compound_index(3, 1, 2, 0, 4), 31);
    assert_eq!(compound_index(6, 6, 6, 6, 7), 405);
}

#[test]
fn compound_index_orbit_of_one_quartet() {
    let n: usize = 3;
    let orbit: [(usize, usize, usize, usize); 8] = [
        (0, 1, 2, 1),
        (1, 0, 2, 1),
        (0, 1, 1, 2),
        (2, 1, 0, 1),
        (1, 2, 0, 1),
        (2, 1, 1, 0),
        (1, 2, 1, 0),
        (1, 0, 1, 2),
    ];
    let first = compound_index(0, 1, 2, 1, n);
    assert_eq!(first, 11);
    for (mu, nu, lambda, sigma) in orbit {
        assert_eq!(compound_index(mu, nu, lambda, sigma, n), first);
    }
}

#[test]
fn compound_index_is_the_same_for_all_eight_arrangements() {
    let n: usize = 5;
    for mu in 0..n {
        for nu in 0..n {
            for lambda in 0..n {
                for sigma in 0..n {
                    let i = compound_index(mu, nu, lambda, sigma, n);
                    assert_eq!(compound_index(nu, mu, lambda, sigma, n), i);
                    assert_eq!(compound_index(mu, nu, sigma, lambda, n), i);
                    assert_eq!(compound_index(nu, mu, sigma, lambda, n), i);
                    assert_eq!(compound_index(lambda, sigma, mu, nu, n), i);
                    assert_eq!(compound_index(sigma, lambda, mu, nu, n), i);
                    assert_eq!(compound_index(lambda, sigma, nu, mu, n), i);
                    assert_eq!(compound_index(sigma, lambda, nu, mu, n), i);
                }
            }
        }
    }
}

#[test]
fn compound_index_fills_the_store_without_gaps_or_clashes() {
    let n: usize = 6;
    let len = packed_length(n).unwrap();
    let mut hits: Vec<usize> = vec![0; len];
    for mu in 0..n {
        for nu in 0..=mu {
            for lambda in 0..=mu {
                let top = if lambda == mu { nu } else { lambda };
                for sigma in 0..=top {
                    let i = compound_index(mu, nu, lambda, sigma, n);
                    assert!(i < len);
                    hits[i] += 1;
                }
            }
        }
    }
    for count in hits {
        assert_eq!(count, 1);
    }
}

#[test]
fn compound_index_separates_different_integrals() {
    let n: usize = 3;
    assert_ne!(compound_index(0, 1, 2, 1, n), compound_index(0, 2, 1, 1, n));
    assert_ne!(compound_index(0, 0, 1, 1, n), compound_index(0, 1, 0, 1, n));
    assert_ne!(compound_index(2, 2, 2, 1, n), compound_index(2, 2, 2, 2, n));
}

#[test]
fn compound_index_stays_below_the_store_length() {
    for n in 1..8usize {
        let len = packed_length(n).unwrap();
        let mut largest: usize = 0;
        for mu in 0..n {
            for nu in 0..n {
                for lambda in 0..n {
                    for sigma in 0..n {
                        let i = compound_index(mu, nu, lambda, sigma, n);
                        assert!(i < len);
                        if i > largest {
                            largest = i;
                        }
                    }
                }
            }
        }
        assert_eq!(largest + 1, len);
        assert_eq!(compound_index(n - 1, n - 1, n - 1, n - 1, n), len - 1);
    }
}

#[test]
fn packed_length_of_small_bases() {
    assert_eq!(packed_length(0), Some(0));
    assert_eq!(packed_length(1), Some(1));
    assert_eq!(packed_length(2), Some(6));
    assert_eq!(packed_length(3), Some(21));
    assert_eq!(packed_length(7), Some(406));
}

#[test]
fn packed_length_matches_the_closed_form() {
    for n in 0..200usize {
        let expected = n * (n + 1) * (n * n + n + 2) / 8;
        assert_eq!(packed_length(n), Some(expected));
    }
}

#[test]
fn packed_length_reports_what_does_not_fit() {
    assert_eq!(packed_length(usize::MAX), None);
    assert_eq!(packed_length(usize::MAX / 2), None);
    assert_eq!(packed_length(1usize << (usize::BITS / 2)), None);
    assert!(packed_length(1000).is_some());
}
