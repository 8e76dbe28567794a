use cow_solver::models::{ChainId, Order, OrderType, Token};
use cow_solver::numeric::Ratio;
use cow_solver::pricing::VolumeWeightedPricingEngine;

fn dummy_order(id: u64, sell: u64, buy: u64) -> Order {
    let sell_token = Token::new("0xAAA", "AAA", "AAA Token", 18, ChainId::EthereumMainnet);
    let buy_token = Token::new("0xBBB", "BBB", "BBB Token", 18, ChainId::EthereumMainnet);
    Order::new(id, "0xowner", sell_token, buy_token, sell, buy, 1_000, OrderType::Limit)
}

#[test]
fn test_weighted_average() {
    // Orders with prices 2, 2, and 1, weights 10, 5, 5 respectively.
    let orders = vec![dummy_order(1, 10, 20), dummy_order(2, 5, 10), dummy_order(3, 5, 5)];
    // Expected weighted average: (2*10 + 2*5 + 1*5) / (10+5+5) = 35/20 = 1.75
    let price = VolumeWeightedPricingEngine::compute_clearing_price(&orders).unwrap();
    let expected = Ratio::new(175, 100);
    assert_eq!(price, expected);
}

#[test]
fn test_single_or_empty_returns_none() {
    assert!(VolumeWeightedPricingEngine::compute_clearing_price(&Vec::new()).is_none());
    let single = vec![dummy_order(1, 10, 20)];
    assert!(VolumeWeightedPricingEngine::compute_clearing_price(&single).is_none());
}

#[test]
fn zero_sell_orders_are_excluded_from_both_sums() {
    let with_zero =
        vec![dummy_order(1, 10, 20), dummy_order(2, 0, 999), dummy_order(3, 10, 15)];
    let without_zero = vec![dummy_order(1, 10, 20), dummy_order(3, 10, 15)];
    let p1 = VolumeWeightedPricingEngine::compute_clearing_price(&with_zero).unwrap();
    let p2 = VolumeWeightedPricingEngine::compute_clearing_price(&without_zero).unwrap();
    // (20 + 15) / (10 + 10) = 35/20 = 7/4, the zero-sell order ignored
    assert_eq!(p1, Ratio::new(7, 4));
    assert_eq!(p1, p2);
}

#[test]
fn one_qualifying_order_gives_no_price() {
    // two orders, but only one can define a price
    let orders = vec![dummy_order(1, 10, 20), dummy_order(2, 0, 50)];
    assert!(VolumeWeightedPricingEngine::compute_clearing_price(&orders).is_none());
}

#[test]
fn clearing_price_is_permutation_invariant() {
    let a = vec![dummy_order(1, 10, 20), dummy_order(2, 5, 10), dummy_order(3, 5, 5)];
    let b = vec![dummy_order(3, 5, 5), dummy_order(1, 10, 20), dummy_order(2, 5, 10)];
    let pa = VolumeWeightedPricingEngine::compute_clearing_price(&a).unwrap();
    let pb = VolumeWeightedPricingEngine::compute_clearing_price(&b).unwrap();
    assert_eq!(pa, pb);
}

#[test]
fn price_is_an_exact_reduced_fraction() {
    // (1 + 1) / (3 + 3) = 2/6 = 1/3, which no binary float can hold
    let orders = vec![dummy_order(1, 3, 1), dummy_order(2, 3, 1)];
    let p = VolumeWeightedPricingEngine::compute_clearing_price(&orders).unwrap();
    assert_eq!(p.num, 1);
    assert_eq!(p.den, 3);
}
