use portfolio_rebalancer::Fixed;
use portfolio_rebalancer::Portfolio;
use portfolio_rebalancer::PortfolioTarget;
use portfolio_rebalancer::Stock;

#[test]
fn test_rebalance_already_perfectly_balanced() {
    let target = PortfolioTarget::try_from_vec(vec![
        (Fixed::from_int(40), Stock::new("META", Fixed::from_int(10)).unwrap()),
        (Fixed::from_int(60), Stock::new("APPL", Fixed::from_int(15)).unwrap()),
    ])
    .unwrap();

    let mut stocks = Vec::new();
    for _ in 0..4 {
        stocks.push(Stock::new("META", Fixed::from_int(10)).unwrap());
    }
    for _ in 0..4 {
        stocks.push(Stock::new("APPL", Fixed::from_int(15)).unwrap());
    }

    let portfolio = Portfolio::new(stocks, target);
    let suggestion = portfolio.rebalance_portfolio();

    assert!(suggestion.to_buy.is_empty());
    assert!(suggestion.to_sell.is_empty());
}

#[test]
fn test_rebalance_sell_entire_position() {
    let target = PortfolioTarget::new(Stock::new("META", Fixed::from_int(100)).unwrap());
    let portfolio = Portfolio::new(
        vec![
            Stock::new("GOOG", Fixed::from_int(50)).unwrap(),
            Stock::new("GOOG", Fixed::from_int(50)).unwrap(),
        ],
        target,
    );

    let suggestion = portfolio.rebalance_portfolio();

    assert_eq!(suggestion.sell_units("GOOG").unwrap(), 2);
    assert_eq!(suggestion.buy_units("META").unwrap(), 1);
}

#[test]
fn test_rebalance_buy_from_zero() {
    let meta_target = Stock::new("META", Fixed::from_int(25)).unwrap();
    let target = PortfolioTarget::new(meta_target);

    let mut stocks = Vec::new();
    for _ in 0..100 {
        stocks.push(Stock::new("CASH", Fixed::from_int(1)).unwrap());
    }
    let portfolio = Portfolio::new(stocks, target);

    let suggestion = portfolio.rebalance_portfolio();

    assert_eq!(
        suggestion.sell_units("CASH").expect("Debería vender CASH"),
        100
    );

    assert_eq!(
        suggestion.buy_units("META").expect("Debería comprar META"),
        4
    );
}

#[test]
fn test_rebalance_with_indivisible_stocks() {
    let target = PortfolioTarget::try_from_vec(vec![
        (Fixed::from_int(50), Stock::new("META", Fixed::from_int(30)).unwrap()),
        (Fixed::from_int(50), Stock::new("CASH", Fixed::from_int(1)).unwrap()),
    ])
    .unwrap();

    let portfolio = Portfolio::new(
        vec![Stock::new("OTHER", Fixed::from_int(100)).unwrap()],
        target,
    );

    let suggestion = portfolio.rebalance_portfolio();

    assert_eq!(suggestion.buy_units("META").unwrap(), 1);
}

#[test]
fn test_rebalance_empty_portfolio() {
    let target = PortfolioTarget::new(Stock::new("META", Fixed::from_int(100)).unwrap());
    let portfolio = Portfolio::new(vec![], target);

    let suggestion = portfolio.rebalance_portfolio();
    assert!(suggestion.to_buy.is_empty());
    assert!(suggestion.to_sell.is_empty());
}

#[test]
fn test_rebalance_zero_priced_target_is_skipped() {
    // Money cannot be allocated to a zero-priced asset: its unit
    // target is zero, so nothing is bought and the rest is sold off.
    let target = PortfolioTarget::try_from_vec(vec![
        (Fixed::from_int(50), Stock::new("FREE", Fixed::from_int(0)).unwrap()),
        (Fixed::from_int(50), Stock::new("CASH", Fixed::from_int(1)).unwrap()),
    ])
    .unwrap();

    let mut stocks = Vec::new();
    for _ in 0..10 {
        stocks.push(Stock::new("CASH", Fixed::from_int(1)).unwrap());
    }
    let portfolio = Portfolio::new(stocks, target);

    let suggestion = portfolio.rebalance_portfolio();

    // 50% of 10 in cash at 1 each: keep 5, sell the other 5.
    assert_eq!(suggestion.buy_units("FREE"), None);
    assert_eq!(suggestion.sell_units("CASH").unwrap(), 5);
    assert_eq!(suggestion.to_buy.len(), 0);
}

#[test]
fn test_rebalance_buy_and_sell_name_sets_are_disjoint() {
    let target = PortfolioTarget::try_from_vec(vec![
        (Fixed::from_int(40), Stock::new("META", Fixed::from_int(10)).unwrap()),
        (Fixed::from_int(60), Stock::new("APPL", Fixed::from_int(15)).unwrap()),
    ])
    .unwrap();

    let mut stocks = vec![Stock::new("GOOG", Fixed::from_int(70)).unwrap()];
    for _ in 0..3 {
        stocks.push(Stock::new("META", Fixed::from_int(10)).unwrap());
    }
    let portfolio = Portfolio::new(stocks, target);

    let suggestion = portfolio.rebalance_portfolio();

    // GOOG is dropped entirely; META and APPL move toward 40/60 of 100.
    assert_eq!(suggestion.sell_units("GOOG").unwrap(), 1);
    assert_eq!(suggestion.buy_units("META").unwrap(), 1);
    assert_eq!(suggestion.buy_units("APPL").unwrap(), 4);
    for (name, _) in &suggestion.to_buy {
        assert!(suggestion.sell_units(name).is_none());
    }
    for (name, _) in &suggestion.to_sell {
        assert!(suggestion.buy_units(name).is_none());
    }
}

#[test]
fn test_rebalance_fractional_prices_stay_exact() {
    // A quarter-priced asset: 100% of a portfolio worth 1.50 buys
    // exactly 6 units at 0.25 each.
    let quarter = Fixed::from_units(2500);
    let target = PortfolioTarget::new(Stock::new("PENNY", quarter).unwrap());

    let portfolio = Portfolio::new(
        vec![Stock::new("CASH", Fixed::from_units(15000)).unwrap()],
        target,
    );

    let suggestion = portfolio.rebalance_portfolio();

    assert_eq!(suggestion.sell_units("CASH").unwrap(), 1);
    assert_eq!(suggestion.buy_units("PENNY").unwrap(), 6);
}

#[test]
fn test_rebalance_partial_sell_down_to_target() {
    // 10 units of META at 10 (total 100), target only 40% META and
    // 60% APPL: keep 4 META, sell 6, buy 4 APPL at 15 (60 / 15).
    let target = PortfolioTarget::try_from_vec(vec![
        (Fixed::from_int(40), Stock::new("META", Fixed::from_int(10)).unwrap()),
        (Fixed::from_int(60), Stock::new("APPL", Fixed::from_int(15)).unwrap()),
    ])
    .unwrap();

    let mut stocks = Vec::new();
    for _ in 0..10 {
        stocks.push(Stock::new("META", Fixed::from_int(10)).unwrap());
    }
    let portfolio = Portfolio::new(stocks, target);

    let suggestion = portfolio.rebalance_portfolio();

    assert_eq!(suggestion.sell_units("META").unwrap(), 6);
    assert_eq!(suggestion.buy_units("APPL").unwrap(), 4);
}

#[test]
fn test_stocks_accessor_returns_the_held_positions() {
    let target = PortfolioTarget::new(Stock::new("META", Fixed::from_int(10)).unwrap());
    let portfolio = Portfolio::new(
        vec![
            Stock::new("META", Fixed::from_int(10)).unwrap(),
            Stock::new("GOOG", Fixed::from_int(20)).unwrap(),
        ],
        target,
    );

    let held = portfolio.stocks();
    assert_eq!(held.len(), 2);
    assert_eq!(held[0].name(), "META");
    assert_eq!(held[1].name(), "GOOG");
    assert_eq!(held[1].current_price().units(), 200000);
}
