use cow_solver::models::{Account, ChainId, Order, OrderType, Token};
use cow_solver::routing::{best_quote, routed_legs};

#[test]
fn best_quote_picks_the_largest_positive_quote_first_on_ties() {
    let quotes = vec![0, 5, 9, 9, 3];
    assert_eq!(best_quote(&quotes), Some((2, 9)));
}

#[test]
fn best_quote_skips_zero_quotes() {
    let quotes = vec![0, 0, 4];
    assert_eq!(best_quote(&quotes), Some((2, 4)));
}

#[test]
fn best_quote_of_no_liquidity_is_none() {
    assert_eq!(best_quote(&vec![0, 0, 0]), None);
    assert_eq!(best_quote(&Vec::new()), None);
}

#[test]
fn routed_legs_move_the_residual_out_and_the_received_amount_back() {
    let sell_token = Token::new("0xccc", "CCC", "CCC Token", 18, ChainId::EthereumMainnet);
    let buy_token = Token::new("0xddd", "DDD", "DDD Token", 18, ChainId::EthereumMainnet);
    let order = Order::new(7, "0xcarol", sell_token, buy_token, 12, 5, 1_000, OrderType::Limit);
    let (sell_leg, buy_leg) = routed_legs(&order, 11);
    assert_eq!(sell_leg.from, Account::User("0xcarol".to_string()));
    assert_eq!(sell_leg.to, Account::External);
    assert_eq!(sell_leg.amount, 12);
    assert_eq!(sell_leg.token.address, "0xccc");
    assert_eq!(buy_leg.from, Account::External);
    assert_eq!(buy_leg.to, Account::User("0xcarol".to_string()));
    assert_eq!(buy_leg.amount, 11);
    assert_eq!(buy_leg.token.address, "0xddd");
}
