use cow_solver::models::{ChainId, Order, OrderType, Token};
use cow_solver::performance::optimize_orders;

fn order_with(id: u64, expiration: u64) -> Order {
    let token_a = Token::new("0xaaa", "AAA", "AAA Token", 18, ChainId::EthereumMainnet);
    let token_b = Token::new("0xbbb", "BBB", "BBB Token", 18, ChainId::EthereumMainnet);
    Order::new(id, "0xowner", token_a, token_b, 1, 1, expiration, OrderType::Limit)
}

#[test]
fn test_optimize_orders_removes_duplicates() {
    let token_a = Token::new("0xaaa", "AAA", "AAA Token", 18, ChainId::EthereumMainnet);
    let token_b = Token::new("0xbbb", "BBB", "BBB Token", 18, ChainId::EthereumMainnet);
    let order1 = Order::new(
        1,
        "0xowner",
        token_a.clone(),
        token_b.clone(),
        1,
        1,
        1_000,
        OrderType::Limit,
    );
    let order2 = Order::new(1, "0xowner", token_a, token_b, 1, 1, 2_000, OrderType::Limit);
    let mut orders = vec![order1, order2];
    optimize_orders(&mut orders);
    assert_eq!(orders.len(), 1);
}

#[test]
fn earliest_expiration_survives_either_input_order() {
    let mut first = vec![order_with(1, 1_000), order_with(1, 2_000)];
    optimize_orders(&mut first);
    assert_eq!(first.len(), 1);
    assert_eq!(first[0].expiration, 1_000);

    let mut second = vec![order_with(1, 2_000), order_with(1, 1_000)];
    optimize_orders(&mut second);
    assert_eq!(second.len(), 1);
    assert_eq!(second[0].expiration, 1_000);
}

#[test]
fn normalization_sorts_by_id_and_is_idempotent() {
    let mut orders = vec![
        order_with(3, 500),
        order_with(1, 1_000),
        order_with(2, 700),
        order_with(1, 900),
    ];
    optimize_orders(&mut orders);
    assert_eq!(orders.len(), 3);
    assert_eq!(orders[0].id, 1);
    assert_eq!(orders[0].expiration, 900);
    assert_eq!(orders[1].id, 2);
    assert_eq!(orders[2].id, 3);

    let copy = orders.clone();
    optimize_orders(&mut orders);
    assert_eq!(orders, copy);
}
