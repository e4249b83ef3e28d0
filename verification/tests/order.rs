use spade_core::order::{argsort, index_of_max, index_of_min, total_order_key};

fn key(x: f64) -> i64 {
    total_order_key(x.to_bits())
}

#[test]
fn keys_order_numbers_as_total_cmp_does() {
    let xs = [f64::NEG_INFINITY, -2.5, -0.0, 0.0, 1e-300, 3.0, f64::INFINITY, f64::NAN];
    for (i, a) in xs.iter().enumerate() {
        for b in xs[i..].iter() {
            assert_eq!(key(*a).cmp(&key(*b)), a.total_cmp(b), "{a} vs {b}");
        }
    }
    assert!(key(-f64::NAN) < key(f64::NEG_INFINITY));
    assert_eq!(key(0.0), 0);
    assert_eq!(key(-0.0), -1);
}

#[test]
fn argsort_is_stable() {
    let keys = vec![3, 1, 3, 0, 1];
    assert_eq!(argsort(&keys), vec![3, 1, 4, 0, 2]);
    assert_eq!(argsort(&vec![]), Vec::<usize>::new());
}

#[test]
fn min_takes_the_first_and_max_the_last() {
    let keys = vec![2, 0, 5, 0, 5];
    assert_eq!(index_of_min(&keys), Some(1));
    assert_eq!(index_of_max(&keys), Some(4));
    assert_eq!(index_of_min(&vec![]), None);
    assert_eq!(index_of_max(&vec![]), None);
}
