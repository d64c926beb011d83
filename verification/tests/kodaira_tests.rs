use lau_kahler_geometry::{EinsteinSign, KodairaVanishing};

#[test]
fn test_kodaira_vanishing_ample_cp2() {
    let kv = KodairaVanishing::new(2);
    let result = kv.vanishing_ample();
    assert!(result.is_ample);
    assert_eq!(result.vanishing_degrees, vec![1, 2]);
    assert_eq!(result.possibly_nonzero, vec![0]);
}

#[test]
fn test_an_vanishing_cp2() {
    let kv = KodairaVanishing::new(2);
    let vanishing = kv.vanishing_an();
    // p + q > 2: (1,2), (2,1), (2,2)
    assert!(vanishing.contains(&(1, 2)));
    assert!(vanishing.contains(&(2, 1)));
    assert!(vanishing.contains(&(2, 2)));
    // p + q ≤ 2: (0,0), (1,0), (0,1), (1,1), (2,0), (0,2)
    assert!(!vanishing.contains(&(0, 0)));
    assert!(!vanishing.contains(&(1, 1)));
}

#[test]
fn test_negative_vanishing() {
    let kv = KodairaVanishing::new(3);
    let result = kv.vanishing_negative();
    assert!(!result.is_ample);
    assert_eq!(result.vanishing_degrees, vec![0, 1, 2]);
    assert_eq!(result.possibly_nonzero, vec![3]);
}

#[test]
fn test_vanishing_conditions_positive() {
    let kv = KodairaVanishing::new(2);
    let result = kv.check_vanishing_conditions(EinsteinSign::Positive);
    assert!(result.is_ample);
}

#[test]
fn test_vanishing_conditions_cy() {
    let kv = KodairaVanishing::new(3);
    let result = kv.check_vanishing_conditions(EinsteinSign::Zero);
    assert!(!result.is_ample);
    assert!(result.vanishing_degrees.is_empty());
}

#[test]
fn test_vanishing_conditions_negative() {
    let kv = KodairaVanishing::new(2);
    let result = kv.check_vanishing_conditions(EinsteinSign::Negative);
    assert!(!result.is_ample);
    assert_eq!(result.possibly_nonzero, vec![2]);
}

#[test]
fn nakano_list_exact_order_cp2() {
    let kv = KodairaVanishing::new(2);
    assert_eq!(kv.vanishing_an(), vec![(1, 2), (2, 1), (2, 2)]);
    let kv3 = KodairaVanishing::new(3);
    assert_eq!(
        kv3.vanishing_an(),
        vec![(1, 3), (2, 2), (2, 3), (3, 1), (3, 2), (3, 3)]
    );
    let kv0 = KodairaVanishing::new(0);
    assert!(kv0.vanishing_an().is_empty());
}

#[test]
fn kodaira_is_top_row_of_nakano() {
    let n = 4usize;
    let kv = KodairaVanishing::new(n);
    let an = kv.vanishing_an();
    let ample = kv.vanishing_ample();
    for q in 0..=n {
        assert_eq!(an.contains(&(n, q)), ample.vanishing_degrees.contains(&q));
    }
}

#[test]
fn serre_duality_between_ample_and_negative() {
    let n = 5usize;
    let kv = KodairaVanishing::new(n);
    let ample = kv.vanishing_ample();
    let negative = kv.vanishing_negative();
    for q in 0..=n {
        assert_eq!(
            ample.vanishing_degrees.contains(&q),
            negative.vanishing_degrees.contains(&(n - q))
        );
    }
}

#[test]
fn vanishing_results_split_degrees() {
    let n = 3usize;
    let kv = KodairaVanishing::new(n);
    for sign in [EinsteinSign::Positive, EinsteinSign::Zero, EinsteinSign::Negative] {
        let r = kv.check_vanishing_conditions(sign);
        for q in 0..=n {
            assert!(r.vanishing_degrees.contains(&q) != r.possibly_nonzero.contains(&q));
        }
    }
}

#[test]
fn calabi_yau_keeps_all_degrees() {
    let kv = KodairaVanishing::new(3);
    let r = kv.check_vanishing_conditions(EinsteinSign::Zero);
    assert_eq!(r.possibly_nonzero, vec![0, 1, 2, 3]);
    let ample = kv.check_vanishing_conditions(EinsteinSign::Positive);
    assert_eq!(ample.vanishing_degrees, kv.vanishing_ample().vanishing_degrees);
    let negative = kv.check_vanishing_conditions(EinsteinSign::Negative);
    assert_eq!(negative.vanishing_degrees, vec![0, 1, 2]);
}

#[test]
fn vanishing_on_a_point() {
    let kv = KodairaVanishing::new(0);
    let ample = kv.vanishing_ample();
    assert!(ample.vanishing_degrees.is_empty());
    assert_eq!(ample.possibly_nonzero, vec![0]);
    let negative = kv.vanishing_negative();
    assert!(negative.vanishing_degrees.is_empty());
    assert_eq!(negative.possibly_nonzero, vec![0]);
    assert_eq!(kv.complex_dim(), 0);
}

#[test]
fn nakano_list_length() {
    for n in 0..12usize {
        let kv = KodairaVanishing::new(n);
        assert_eq!(kv.vanishing_an().len(), n * (n + 1) / 2);
    }
}
