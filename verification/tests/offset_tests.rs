use seedsearch::offset::Offset;

#[test]
fn from_u128_little_endian_digits() {
    let o = Offset::from_u128(5 + 7 * 2048, 2).unwrap();
    assert_eq!(o.digits, vec![5, 7]);
}

#[test]
fn from_u128_rejects_out_of_range() {
    assert!(Offset::from_u128(2048, 1).is_none());
    assert!(Offset::from_u128(2047, 1).is_some());
    // a zero-wildcard space has exactly the one offset 0
    assert!(Offset::from_u128(0, 0).is_some());
    assert!(Offset::from_u128(1, 0).is_none());
}

#[test]
fn succ_advances_and_carries() {
    let mut o = Offset::from_u128(2047, 2).unwrap();
    assert_eq!(o.digits, vec![2047, 0]);
    assert!(o.succ());
    assert_eq!(o.digits, vec![0, 1]);
}

#[test]
fn succ_wraps_at_end_of_space() {
    let mut o = Offset::last(2);
    assert_eq!(o.digits, vec![2047, 2047]);
    assert!(!o.succ());
    assert_eq!(o.digits, vec![0, 0]);
}

#[test]
fn zero_and_last_shapes() {
    let z = Offset::zero(3);
    assert_eq!(z.digits, vec![0, 0, 0]);
    let l = Offset::last(3);
    assert_eq!(l.digits, vec![2047, 2047, 2047]);
}

#[test]
fn duplicate_is_equal_and_independent() {
    let o = Offset::from_u128(123456789, 4).unwrap();
    let d = o.duplicate();
    assert_eq!(o.digits, d.digits);
}
