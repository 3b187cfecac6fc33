use rgrep::bigint::{overflowing_add, vec_min, BigInt, Minimum};

#[test]
fn test_iter() {
    let vec: Vec<u64> = vec![8, 4, 0, 5];
    let v2 = BigInt::from_vec(&vec![8, 4, 0, 5, 0, 0, 0]);
    let mut it = v2.iter();
    for v in vec.iter().rev() {
        assert_eq!(it.next(), Some(v));
    }
    assert_eq!(it.next(), None);
}

#[test]
fn part05_iter() {
    let v2 = BigInt::from_vec(&vec![8, 4, 0, 5]);
    let mut iter = v2.iter();
    assert_eq!(iter.next(), Some(&5));
    assert_eq!(iter.next(), Some(&0));
    assert_eq!(iter.next(), Some(&4));
    assert_eq!(iter.next(), Some(&8));
}

#[test]
fn test_counts() {
    let v2 = BigInt::from_vec(&vec![8, 4, 0, 5, 0, 0, 0]);
    let v3 = v2.clone();
    assert_eq!(4, v2.num_digits());
    assert_eq!(4, v3.num_digits());
    assert_eq!(3, v2.num_non_zero_digits());
    assert_eq!(3, v3.num_non_zero_digits());
}

#[test]
fn test_min() {
    let v = BigInt::new(5);
    let v2 = BigInt::from_vec(&vec![8, 4, 0, 5, 0, 0, 0]);
    let a = BigInt::from_vec(&vec![1, 3, 4]);
    let b = BigInt::from_vec(&vec![2, 3, 4]);

    assert_eq!(&a, a.min(&b));
    assert_eq!(&a, b.min(&a));

    let bvec = vec![v2, a, b, v];
    assert_eq!(Some(&bvec[3]), vec_min(&bvec));
}

#[test]
fn test_overflowing_add() {
    assert_eq!(overflowing_add(10, 100, false), (110, false));
    assert_eq!(overflowing_add(10, 100, true), (111, false));
    assert_eq!(overflowing_add(1 << 63, 1 << 63, false), (0, true));
    assert_eq!(overflowing_add(1 << 63, 1 << 63, true), (1, true));
    assert_eq!(overflowing_add(u64::max_value(), 1, false), (0, true));
    assert_eq!(overflowing_add(u64::max_value() - 1, 1, true), (0, true));
}

#[test]
fn test_bigint_add() {
    let b1 = BigInt::new(500);
    let b2 = BigInt::from_vec(&vec![0, 1]);

    assert_eq!(&b1 + &b2, BigInt::from_vec(&vec![500, 1]));
    assert_eq!(b1 + b2, BigInt::from_vec(&vec![500, 1]));
}

#[test]
fn bigint_add_carries() {
    let b1 = BigInt::from_vec(&vec![u64::MAX, u64::MAX]);
    let b2 = BigInt::new(1);
    let sum = &b1 + &b2;
    assert_eq!(sum, BigInt::from_vec(&vec![0, 0, 1]));
    assert_eq!(sum.num_digits(), 3);
}

#[test]
fn bigint_new_zero_is_empty() {
    let z = BigInt::new(0);
    assert_eq!(z.num_digits(), 0);
    assert_eq!(z, BigInt::from_vec(&vec![0, 0, 0]));
}
