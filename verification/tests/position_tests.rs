use typebook::position::Len;

#[test]
fn len_new_keeps_both_counts() {
    let l = Len::new(5, 3);
    assert_eq!(l.bytes, 5);
    assert_eq!(l.chars, 3);
}

#[test]
fn len_default_is_the_origin() {
    assert_eq!(Len::default(), Len::new(0, 0));
    assert_eq!(Len::zero(), Len::new(0, 0));
}

#[test]
fn len_add_is_componentwise() {
    assert_eq!(Len::new(5, 3).add(Len::new(2, 1)), Len::new(7, 4));
}

#[test]
fn len_sub_is_componentwise() {
    assert_eq!(Len::new(7, 4).sub(Len::new(2, 1)), Len::new(5, 3));
    assert_eq!(Len::new(7, 4).sub(Len::new(7, 4)), Len::new(0, 0));
}

#[test]
fn len_order_goes_by_bytes_alone() {
    assert!(Len::new(1, 9).precedes(Len::new(2, 0)));
    assert!(!Len::new(2, 0).precedes(Len::new(2, 5)));
    assert!(!Len::new(3, 0).precedes(Len::new(2, 5)));
}

#[test]
fn len_compares_by_bytes_alone() {
    assert!(Len::new(1, 9) < Len::new(2, 0));
    assert!(Len::new(2, 0) > Len::new(1, 9));
    assert!(Len::new(2, 0) <= Len::new(2, 5));
    assert!(Len::new(2, 0) >= Len::new(2, 5));
    assert!(Len::new(2, 0) != Len::new(2, 5));
    assert_eq!(Len::new(2, 0).partial_cmp(&Len::new(2, 5)), Some(std::cmp::Ordering::Equal));
}
