use lau_kahler_geometry::KahlerIdentities;

#[test]
fn test_lefschetz_commutator_valid_range() {
    let ki = KahlerIdentities::new(3);
    for k in 0..=6 {
        assert!(ki.verify_lefschetz_commutator(k));
    }
}

#[test]
fn test_laplacian_equality() {
    let ki = KahlerIdentities::new(2);
    assert!(ki.verify_laplacian_equality());
}

#[test]
fn test_hodge_symmetry_cp2() {
    // CP^2 Hodge numbers: h^{0,0}=1, h^{1,1}=1, h^{2,2}=1
    let hodge = vec![(0, 0, 1), (1, 1, 1), (2, 2, 1)];
    let ki = KahlerIdentities::new(2);
    assert!(ki.verify_hodge_symmetry(&hodge));
}

#[test]
fn test_complex_dim() {
    let ki = KahlerIdentities::new(5);
    assert_eq!(ki.complex_dim(), 5);
}

#[test]
fn test_hodge_symmetry_asymmetric_fails() {
    let hodge = vec![(0, 0, 1), (0, 1, 2)];
    let ki = KahlerIdentities::new(2);
    // h^{0,1}=2 but h^{1,0} is missing → fails
    assert!(!ki.verify_hodge_symmetry(&hodge));
}

#[test]
fn lefschetz_commutator_outside_range() {
    let ki = KahlerIdentities::new(3);
    assert!(!ki.verify_lefschetz_commutator(7));
    assert!(!ki.verify_lefschetz_commutator(100));
    let ki0 = KahlerIdentities::new(0);
    assert!(ki0.verify_lefschetz_commutator(0));
    assert!(!ki0.verify_lefschetz_commutator(1));
}

#[test]
fn hodge_symmetry_mismatched_dimensions_fail() {
    let ki = KahlerIdentities::new(2);
    let hodge = vec![(1, 0, 1), (0, 1, 2)];
    assert!(!ki.verify_hodge_symmetry(&hodge));
    let symmetric = vec![(1, 0, 2), (0, 1, 2), (2, 2, 1)];
    assert!(ki.verify_hodge_symmetry(&symmetric));
}

#[test]
fn hodge_symmetry_compares_first_conjugate_only() {
    let ki = KahlerIdentities::new(2);
    // the first (0, 1) entry disagrees with (1, 0); a later one agrees
    let first_wrong = vec![(1, 0, 3), (0, 1, 2), (0, 1, 3)];
    assert!(!ki.verify_hodge_symmetry(&first_wrong));
    // the first (0, 1) entry agrees; a later duplicate is compared against the first (1, 0)
    let later_wrong = vec![(1, 0, 3), (0, 1, 3), (0, 1, 5)];
    assert!(!ki.verify_hodge_symmetry(&later_wrong));
    let empty: Vec<(usize, usize, usize)> = vec![];
    assert!(ki.verify_hodge_symmetry(&empty));
}

#[test]
fn cp_n_hodge_table_is_symmetric() {
    let ki = KahlerIdentities::new(3);
    let ht = lau_kahler_geometry::HodgeTheory::new(3);
    let mut table = Vec::new();
    for p in 0..=3usize {
        for q in 0..=3usize {
            table.push((p, q, ht.hodge_number_cp_n(p, q)));
        }
    }
    assert!(ki.verify_hodge_symmetry(&table));
}
