use portfolio_rebalancer::Fixed;
use portfolio_rebalancer::PortfolioError;
use portfolio_rebalancer::PortfolioTarget;
use portfolio_rebalancer::Stock;

#[test]
fn test_target_sum_must_be_100() {
    let target_one = PortfolioTarget::try_from_vec(vec![
        (Fixed::from_int(45), Stock::new("META", Fixed::from_int(0)).unwrap()),
        (Fixed::from_int(45), Stock::new("APPL", Fixed::from_int(0)).unwrap()),
    ]);

    assert!(target_one.is_err());

    let target_two = PortfolioTarget::try_from_vec(vec![
        (Fixed::from_int(40), Stock::new("META", Fixed::from_int(0)).unwrap()),
        (Fixed::from_int(70), Stock::new("APPL", Fixed::from_int(0)).unwrap()),
    ]);

    assert!(target_two.is_err());
}

#[test]
fn test_target_with_negative_allocation() {
    let target_one = PortfolioTarget::try_from_vec(vec![
        (Fixed::from_int(45), Stock::new("META", Fixed::from_int(0)).unwrap()),
        (Fixed::from_int(-10), Stock::new("APPL", Fixed::from_int(0)).unwrap()),
    ]);

    assert!(target_one.is_err());
}

#[test]
fn test_sum_mismatch_reports_its_own_reason() {
    let target = PortfolioTarget::try_from_vec(vec![
        (Fixed::from_int(45), Stock::new("META", Fixed::from_int(0)).unwrap()),
        (Fixed::from_int(45), Stock::new("APPL", Fixed::from_int(0)).unwrap()),
    ]);

    assert_eq!(target.unwrap_err(), PortfolioError::AllocationSumMismatch);
}

#[test]
fn test_non_positive_share_reports_its_own_reason() {
    // The shares sum to 100, yet one of them is negative.
    let target = PortfolioTarget::try_from_vec(vec![
        (Fixed::from_int(110), Stock::new("META", Fixed::from_int(0)).unwrap()),
        (Fixed::from_int(-10), Stock::new("APPL", Fixed::from_int(0)).unwrap()),
    ]);

    assert_eq!(target.unwrap_err(), PortfolioError::AllocationShareNotPositive);
}

#[test]
fn test_zero_share_is_rejected() {
    let target = PortfolioTarget::try_from_vec(vec![
        (Fixed::from_int(100), Stock::new("META", Fixed::from_int(0)).unwrap()),
        (Fixed::from_int(0), Stock::new("APPL", Fixed::from_int(0)).unwrap()),
    ]);

    assert_eq!(target.unwrap_err(), PortfolioError::AllocationShareNotPositive);
}

#[test]
fn test_duplicate_name_is_rejected() {
    let target = PortfolioTarget::try_from_vec(vec![
        (Fixed::from_int(50), Stock::new("META", Fixed::from_int(10)).unwrap()),
        (Fixed::from_int(50), Stock::new("META", Fixed::from_int(10)).unwrap()),
    ]);

    assert_eq!(target.unwrap_err(), PortfolioError::AllocationDuplicateName);
}

#[test]
fn test_valid_allocation_is_accepted() {
    let target = PortfolioTarget::try_from_vec(vec![
        (Fixed::from_int(40), Stock::new("META", Fixed::from_int(10)).unwrap()),
        (Fixed::from_int(60), Stock::new("APPL", Fixed::from_int(15)).unwrap()),
    ])
    .unwrap();

    assert!(target.contains_key("META"));
    assert!(target.contains_key("APPL"));
    assert!(!target.contains_key("GOOG"));
    assert_eq!(target.targets().len(), 2);
    assert_eq!(target.targets()[0].0, Fixed::from_int(40));
    assert_eq!(target.targets()[0].1.name(), "META");
}

#[test]
fn test_single_stock_target_is_the_whole_allocation() {
    let target = PortfolioTarget::new(Stock::new("META", Fixed::from_int(100)).unwrap());

    assert!(target.contains_key("META"));
    assert_eq!(target.targets().len(), 1);
    assert_eq!(target.targets()[0].0.units(), 1000000);
}

#[test]
fn test_negative_price_is_rejected() {
    let stock = Stock::new("META", Fixed::from_units(-1));

    assert_eq!(stock.unwrap_err(), PortfolioError::InvalidPrice);
}

#[test]
fn test_zero_price_is_accepted() {
    let stock = Stock::new("META", Fixed::from_int(0)).unwrap();

    assert_eq!(stock.name(), "META");
    assert!(stock.current_price().is_zero());
}

#[test]
fn test_error_messages_name_each_reason() {
    assert_eq!(
        PortfolioError::InvalidPrice.message(),
        "a stock price must not be negative"
    );
    assert_eq!(
        PortfolioError::AllocationSumMismatch.message(),
        "the target shares must sum to exactly 100%"
    );
    assert_eq!(
        PortfolioError::AllocationShareNotPositive.message(),
        "every target share must be strictly positive"
    );
    assert_eq!(
        PortfolioError::AllocationDuplicateName.message(),
        "the target names an asset twice"
    );
}
