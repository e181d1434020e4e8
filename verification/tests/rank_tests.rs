use dial_theory::rank::{first_min_index, indices_below, key_less};

fn key(x: f64) -> Option<u64> {
    if x.is_nan() {
        None
    } else {
        let b = (x + 0.0).to_bits();
        Some(if b >> 63 == 1 { !b } else { b | (1u64 << 63) })
    }
}

#[test]
fn order_keys_compare_like_numbers() {
    let xs = [-3.5, -1.0, -0.0, 0.0, 1e-10, 0.5, 2.0, 1e300];
    for a in xs.iter() {
        for b in xs.iter() {
            assert_eq!(key_less(key(*a), key(*b)), a < b, "{} < {}", a, b);
        }
    }
    assert!(!key_less(key(f64::NAN), key(1.0)));
    assert!(!key_less(key(1.0), key(f64::NAN)));
}

#[test]
fn first_min_of_nothing_is_none() {
    assert_eq!(first_min_index(&vec![]), None);
}

#[test]
fn first_min_keeps_the_earliest_tie() {
    let keys = vec![key(3.0), key(1.0), key(2.0), key(1.0)];
    assert_eq!(first_min_index(&keys), Some(1));
}

#[test]
fn first_min_of_one_value_even_if_not_a_number() {
    assert_eq!(first_min_index(&vec![None]), Some(0));
    assert_eq!(first_min_index(&vec![key(7.0)]), Some(0));
}

#[test]
fn first_min_last_position() {
    let keys = vec![key(3.0), key(2.0), key(-1.0)];
    assert_eq!(first_min_index(&keys), Some(2));
}

#[test]
fn indices_below_keeps_order_and_is_strict() {
    let keys = vec![key(0.5), key(1.5), key(1.0), None, key(-2.0)];
    assert_eq!(indices_below(&keys, key(1.0)), vec![0, 4]);
    assert_eq!(indices_below(&keys, key(1.5)), vec![0, 2, 4]);
    assert_eq!(indices_below(&keys, None), Vec::<usize>::new());
}
