use portfolio_rebalancer::Fixed;

#[test]
fn test_fixed_from_int_scales_by_ten_thousand() {
    assert_eq!(Fixed::from_int(3).units(), 30000);
    assert_eq!(Fixed::from_int(-10).units(), -100000);
    assert_eq!(Fixed::from_int(0).units(), 0);
}

#[test]
fn test_fixed_from_units_is_exact() {
    let tenth = Fixed::from_units(1000);
    assert_eq!(tenth.units(), 1000);
    assert!(!tenth.is_zero());
    assert!(Fixed::from_units(0).is_zero());
}

#[test]
fn test_fixed_equality_is_by_value() {
    assert_eq!(Fixed::from_int(5), Fixed::from_units(50000));
    assert_ne!(Fixed::from_int(5), Fixed::from_units(50001));
}
