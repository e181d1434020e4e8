use dial_theory::distance::{closest_pair_by_key, symmetric_matrix, DistanceMetric};

fn key(x: f64) -> Option<u64> {
    if x.is_nan() {
        None
    } else {
        let b = (x + 0.0).to_bits();
        Some(if b >> 63 == 1 { !b } else { b | (1u64 << 63) })
    }
}

fn euclid(a: (f64, f64), b: (f64, f64)) -> f64 {
    let dx = a.0 - b.0;
    let dy = a.1 - b.1;
    (dx * dx + dy * dy).sqrt()
}

fn key_matrix(ps: &[(f64, f64)]) -> Vec<Vec<Option<u64>>> {
    symmetric_matrix(ps.len(), key(0.0), |i, j| key(euclid(ps[i], ps[j])))
}

#[test]
fn test_distance_matrix_symmetric() {
    let positions = vec![(0.0, 0.0), (1.0, 0.0), (0.0, 1.0)];
    let m = symmetric_matrix(positions.len(), 0.0, |i, j| euclid(positions[i], positions[j]));
    assert_eq!(m.len(), 3);
    for i in 0..3 {
        assert!((m[i][i]).abs() < 1e-10);
        for j in 0..3 {
            assert!((m[i][j] - m[j][i]).abs() < 1e-10);
        }
    }
}

#[test]
fn symmetric_matrix_holds_each_pair_value() {
    let m = symmetric_matrix(4, 0u64, |i, j| (10 * i + j) as u64);
    assert_eq!(m[0][3], 3);
    assert_eq!(m[3][0], 3);
    assert_eq!(m[1][2], 12);
    assert_eq!(m[2][1], 12);
    assert_eq!(m[2][2], 0);
    assert_eq!(symmetric_matrix(0, 0u64, |i, j| (i + j) as u64).len(), 0);
}

#[test]
fn test_closest_pair() {
    let positions = vec![(0.0, 0.0), (10.0, 10.0), (0.1, 0.1)];
    let (i, j) = closest_pair_by_key(&key_matrix(&positions));
    let d = euclid(positions[i], positions[j]);
    assert!((d - 0.1_f64.mul_add(0.1, 0.01_f64).sqrt()).abs() < 1e-10);
    assert_eq!(i, 0);
    assert_eq!(j, 2);
}

#[test]
fn closest_pair_prefers_the_first_tie() {
    let positions = vec![(0.0, 0.0), (3.0, 0.0), (1.0, 0.0), (4.0, 0.0)];
    assert_eq!(closest_pair_by_key(&key_matrix(&positions)), (0, 2));
}

#[test]
fn closest_pair_with_first_distance_not_a_number_stays_first() {
    let m = vec![
        vec![key(0.0), None, key(1.0)],
        vec![None, key(0.0), key(2.0)],
        vec![key(1.0), key(2.0), key(0.0)],
    ];
    assert_eq!(closest_pair_by_key(&m), (0, 1));
}

#[test]
fn closest_pair_skips_values_that_are_not_numbers() {
    let m = vec![
        vec![key(0.0), key(5.0), None],
        vec![key(5.0), key(0.0), key(2.0)],
        vec![None, key(2.0), key(0.0)],
    ];
    assert_eq!(closest_pair_by_key(&m), (1, 2));
}

#[test]
fn closest_pair_of_two() {
    let m = vec![vec![key(0.0), key(9.0)], vec![key(9.0), key(0.0)]];
    assert_eq!(closest_pair_by_key(&m), (0, 1));
}

#[test]
fn metrics_compare_by_variant() {
    assert_eq!(DistanceMetric::Cosine, DistanceMetric::Cosine);
    assert_ne!(DistanceMetric::Euclidean, DistanceMetric::Manhattan);
    let m = DistanceMetric::Chebyshev;
    let c = m.clone();
    assert_eq!(m, c);
}
