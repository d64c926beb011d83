use lau_kahler_geometry::HodgeTheory;

#[test]
fn test_hard_lefschetetz_cp1() {
    let ht = HodgeTheory::new(1);
    assert!(ht.hard_lefschetz_is_isomorphism(0));
    assert!(ht.hard_lefschetz_is_isomorphism(1));
}

#[test]
fn test_hard_lefschetetz_cp2() {
    let ht = HodgeTheory::new(2);
    for k in 0..=4 {
        assert!(ht.hard_lefschetz_is_isomorphism(k));
    }
}

#[test]
fn test_betti_numbers_cp1() {
    let ht = HodgeTheory::new(1);
    assert_eq!(ht.betti_number_cp_n(0), 1);
    assert_eq!(ht.betti_number_cp_n(1), 0);
    assert_eq!(ht.betti_number_cp_n(2), 1);
}

#[test]
fn test_betti_numbers_cp2() {
    let ht = HodgeTheory::new(2);
    assert_eq!(ht.betti_number_cp_n(0), 1);
    assert_eq!(ht.betti_number_cp_n(1), 0);
    assert_eq!(ht.betti_number_cp_n(2), 1);
    assert_eq!(ht.betti_number_cp_n(3), 0);
    assert_eq!(ht.betti_number_cp_n(4), 1);
}

#[test]
fn test_hodge_numbers_cp2() {
    let ht = HodgeTheory::new(2);
    assert_eq!(ht.hodge_number_cp_n(0, 0), 1);
    assert_eq!(ht.hodge_number_cp_n(1, 0), 0);
    assert_eq!(ht.hodge_number_cp_n(1, 1), 1);
    assert_eq!(ht.hodge_number_cp_n(2, 2), 1);
    assert_eq!(ht.hodge_number_cp_n(0, 1), 0);
}

#[test]
fn test_binomial() {
    let ht = HodgeTheory::new(3);
    assert_eq!(ht.binomial(4, 2), 6);
    assert_eq!(ht.binomial(6, 3), 20);
}

#[test]
fn binomial_edge_cases() {
    let ht = HodgeTheory::new(0);
    assert_eq!(ht.binomial(0, 0), 1);
    assert_eq!(ht.binomial(3, 4), 0);
    assert_eq!(ht.binomial(7, 0), 1);
    assert_eq!(ht.binomial(7, 7), 1);
    assert_eq!(ht.binomial(7, 1), 7);
    assert_eq!(ht.binomial(10, 7), 120);
    assert_eq!(ht.binomial(10, 3), 120);
    assert_eq!(ht.binomial(52, 5), 2598960);
}

#[test]
fn binomial_pascal_rule_holds() {
    let ht = HodgeTheory::new(0);
    for n in 1..20usize {
        for k in 1..=n {
            assert_eq!(
                ht.binomial(n, k),
                ht.binomial(n - 1, k - 1) + ht.binomial(n - 1, k)
            );
        }
    }
}

#[test]
fn hard_lefschetz_beyond_middle_degree() {
    let ht = HodgeTheory::new(3);
    assert!(ht.hard_lefschetz_is_isomorphism(4));
    assert!(ht.hard_lefschetz_is_isomorphism(100));
    let cp0 = HodgeTheory::new(0);
    assert!(cp0.hard_lefschetz_is_isomorphism(0));
}

#[test]
fn betti_is_sum_of_hodge_numbers_cp3() {
    let ht = HodgeTheory::new(3);
    for k in 0..=8usize {
        let mut sum = 0;
        for p in 0..=k {
            sum += ht.hodge_number_cp_n(p, k - p);
        }
        assert_eq!(ht.betti_number_cp_n(k), sum);
    }
}

#[test]
fn poincare_duality_cp4() {
    let ht = HodgeTheory::new(4);
    for k in 0..=8usize {
        assert_eq!(ht.betti_number_cp_n(k), ht.betti_number_cp_n(8 - k));
    }
    assert_eq!(ht.betti_number_cp_n(9), 0);
    assert_eq!(ht.betti_number_cp_n(10), 0);
}

#[test]
fn hodge_numbers_symmetric_and_outside_range() {
    let ht = HodgeTheory::new(2);
    for p in 0..4usize {
        for q in 0..4usize {
            assert_eq!(ht.hodge_number_cp_n(p, q), ht.hodge_number_cp_n(q, p));
        }
    }
    assert_eq!(ht.hodge_number_cp_n(3, 3), 0);
}

#[test]
fn lefschetz_matrix_sizes_cp2() {
    let ht = HodgeTheory::new(2);
    // ∧^0 → ∧^2 on R^4: min(1, 6) = 1; ∧^1 → ∧^3: min(4, 4) = 4; ∧^2 → ∧^4: min(6, 1) = 1.
    assert_eq!(ht.lefschetz_matrix_size(0), 1);
    assert_eq!(ht.lefschetz_matrix_size(1), 4);
    assert_eq!(ht.lefschetz_matrix_size(2), 1);
    assert_eq!(ht.lefschetz_matrix_size(3), 0);
    assert_eq!(ht.dual_lefschetz_matrix_size(0), 0);
    assert_eq!(ht.dual_lefschetz_matrix_size(1), 0);
    assert_eq!(ht.dual_lefschetz_matrix_size(2), 1);
    assert_eq!(ht.dual_lefschetz_matrix_size(3), 4);
    assert_eq!(ht.dual_lefschetz_matrix_size(4), 1);
}

#[test]
fn dual_lefschetz_is_adjoint_sizes() {
    let ht = HodgeTheory::new(3);
    for k in 0..=4usize {
        assert_eq!(ht.dual_lefschetz_matrix_size(k + 2), ht.lefschetz_matrix_size(k));
    }
}

#[test]
fn hodge_theory_complex_dim() {
    let ht = HodgeTheory::new(7);
    assert_eq!(ht.complex_dim(), 7);
}

#[test]
fn binomial_fits_detects_overflow() {
    let ht = HodgeTheory::new(0);
    assert!(ht.binomial_fits(4, 2));
    assert!(ht.binomial_fits(5, 9));
    assert!(ht.binomial_fits(0, 0));
    assert!(!ht.binomial_fits(200, 100));
    assert!(!ht.binomial_fits(usize::MAX, 2));
}

#[test]
fn primitive_component_counts() {
    let ht = HodgeTheory::new(3);
    assert_eq!(ht.num_primitive_components(0), 1);
    assert_eq!(ht.num_primitive_components(1), 1);
    assert_eq!(ht.num_primitive_components(2), 2);
    assert_eq!(ht.num_primitive_components(3), 2);
    assert_eq!(ht.num_primitive_components(6), 2);
    let ht4 = HodgeTheory::new(4);
    assert_eq!(ht4.num_primitive_components(4), 3);
    assert_eq!(ht4.num_primitive_components(usize::MAX), 3);
}

#[test]
fn binomial_matches_factorial_closed_form() {
    let ht = HodgeTheory::new(0);
    let fact = |m: usize| -> u128 { (1..=m as u128).product() };
    for n in 0..=20usize {
        for k in 0..=n {
            let expected = fact(n) / (fact(k) * fact(n - k));
            assert_eq!(ht.binomial(n, k) as u128, expected);
        }
    }
}

#[test]
fn hard_lefschetz_on_cp31() {
    let ht = HodgeTheory::new(15);
    for k in 0..=40usize {
        assert!(ht.hard_lefschetz_is_isomorphism(k));
    }
    if usize::MAX as u64 == u64::MAX {
        let ht31 = HodgeTheory::new(31);
        for k in 0..=62usize {
            assert!(ht31.hard_lefschetz_is_isomorphism(k));
        }
        assert_eq!(ht31.binomial(62, 31), 465428353255261088);
    }
}
