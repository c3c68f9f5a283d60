use bigmin::{vec_min, BigInt, Minimum};

#[test]
fn test_min() {
    let b1 = BigInt::new(1);
    let b2 = BigInt::new(42);
    let b3 = BigInt::from_vec(vec![80, 100]);

    assert!(*b1.min(&b2) == b1);
    assert!(*b3.min(&b2) == b2);
    assert!(*b3.min(&b2) != b3);
}

#[test]
fn test_vec_min() {
    let b1 = BigInt::new(1);
    let b2 = BigInt::new(42);
    let b3 = BigInt::from_vec(vec![80, 100]);

    let v1 = vec![b2.clone(), b1.clone(), b3.clone()];
    let v2 = vec![b2.clone(), b3.clone()];

    assert_eq!(vec_min(&v1), Some(&b1));
    assert_eq!(vec_min(&v2), Some(&b2));
}

#[test]
fn vec_min_of_empty_slice_is_none() {
    let v: Vec<BigInt> = Vec::new();
    assert_eq!(vec_min(&v), None);
}

#[test]
fn vec_min_of_singleton_is_that_element() {
    let v = vec![BigInt::from_vec(vec![3, 0, 9])];
    let m = vec_min(&v).unwrap();
    assert!(std::ptr::eq(m, &v[0]));
}

#[test]
fn vec_min_picks_first_of_equal_minima() {
    let v = vec![BigInt::new(7), BigInt::new(2), BigInt::new(5), BigInt::new(2)];
    let m = vec_min(&v).unwrap();
    assert!(std::ptr::eq(m, &v[1]));
}

#[test]
fn min_result_is_at_most_both_operands() {
    let a = BigInt::from_vec(vec![10, 20]);
    let b = BigInt::from_vec(vec![30, 20]);
    assert!(std::ptr::eq(a.min(&b), &a));
    assert!(std::ptr::eq(b.min(&a), &a));
}

#[test]
fn min_is_antisymmetric_on_distinct_values() {
    let a = BigInt::new(9);
    let b = BigInt::new(4);
    assert!(std::ptr::eq(a.min(&b), &b));
    assert!(std::ptr::eq(b.min(&a), &b));
}

#[test]
fn min_prefers_shorter_whatever_the_digits() {
    let short = BigInt::new(u64::MAX);
    let long = BigInt::from_vec(vec![0, 1]);
    assert!(std::ptr::eq(short.min(&long), &short));
    assert!(std::ptr::eq(long.min(&short), &short));
}

#[test]
fn min_decides_at_most_significant_difference() {
    let a = BigInt::from_vec(vec![1, 5, 7]);
    let b = BigInt::from_vec(vec![9, 9, 3]);
    assert!(std::ptr::eq(a.min(&b), &b));
    assert!(std::ptr::eq(b.min(&a), &b));
    let c = BigInt::from_vec(vec![0, 6, 7]);
    assert!(std::ptr::eq(a.min(&c), &a));
    assert!(std::ptr::eq(c.min(&a), &a));
}

#[test]
fn min_of_equal_values_returns_self() {
    let a = BigInt::from_vec(vec![6, 8]);
    let b = BigInt::from_vec(vec![6, 8, 0]);
    assert!(std::ptr::eq(a.min(&b), &a));
    assert!(std::ptr::eq(b.min(&a), &b));
    let z1 = BigInt::new(0);
    let z2 = BigInt::from_vec(vec![]);
    assert!(std::ptr::eq(z1.min(&z2), &z1));
}

#[test]
fn from_vec_drops_trailing_zeros() {
    assert!(BigInt::from_vec(vec![80, 100, 0, 0]) == BigInt::from_vec(vec![80, 100]));
    assert!(BigInt::from_vec(vec![0, 0, 0]) == BigInt::new(0));
    assert!(BigInt::from_vec(vec![42, 0]) == BigInt::new(42));
    assert!(BigInt::from_vec(vec![0, 42]) != BigInt::new(42));
    assert!(BigInt::from_vec(vec![5, 0]).test_invariant());
}

#[test]
fn equality_compares_digits() {
    let b1 = BigInt::new(13);
    let b2 = BigInt::new(37);
    assert!(b1 == b1);
    assert!(b1 != b2);
    assert!(b1.clone() == b1);
    assert_eq!(format!("{:?}", BigInt::from_vec(vec![80, 100, 0])), "BigInt { data: [80, 100] }");
}
