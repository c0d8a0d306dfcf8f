use nodata::decimal::Decimal;

#[test]
fn construction_strips_leading_and_trailing_zeros() {
    let d = Decimal::new(vec![0, 0, 7], vec![2, 5, 0]);
    assert_eq!(*d.int_part(), vec![7u8]);
    assert_eq!(*d.frac_part(), vec![2, 5u8]);
    assert!(d.is_canonical());

    let zero = Decimal::new(vec![0, 0], vec![0, 0]);
    assert_eq!(*zero.int_part(), vec![0u8]);
    assert_eq!(zero.frac_part().len(), 0);
    assert!(zero.is_canonical());
}

#[test]
fn comparison_is_numeric() {
    let d = |i: Vec<u8>, f: Vec<u8>| Decimal::new(i, f);
    // equal values written differently
    assert_eq!(d(vec![1], vec![5]).cmp_to(&d(vec![1], vec![5, 0])), 0);
    assert_eq!(d(vec![0, 2, 2], vec![]).cmp_to(&d(vec![2, 2], vec![0])), 0);
    // a longer integer part is bigger
    assert_eq!(d(vec![2], vec![]).cmp_to(&d(vec![1, 0], vec![])), -1);
    assert_eq!(d(vec![1, 0], vec![]).cmp_to(&d(vec![2], vec![])), 1);
    // fractions decide ties
    assert_eq!(d(vec![1], vec![2, 5]).cmp_to(&d(vec![1], vec![3])), -1);
    assert_eq!(d(vec![0], vec![9]).cmp_to(&d(vec![1], vec![])), -1);
    // a strict prefix of the fraction is smaller
    assert_eq!(d(vec![1], vec![1]).cmp_to(&d(vec![1], vec![1, 0, 1])), -1);
    assert_eq!(d(vec![1], vec![1, 0, 1]).cmp_to(&d(vec![1], vec![1])), 1);
}

#[test]
fn clone_preserves_the_value() {
    let d = Decimal::new(vec![4, 2], vec![7]);
    let c = d.clone();
    assert_eq!(d.cmp_to(&c), 0);
    assert_eq!(*c.int_part(), vec![4, 2u8]);
    assert_eq!(*c.frac_part(), vec![7u8]);
}
