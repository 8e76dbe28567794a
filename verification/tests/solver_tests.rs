use cow_solver::adapters::DummyDexAdapter;
use cow_solver::models::{ChainId, Order, OrderType, SolverError, Token};
use cow_solver::performance::optimize_orders;
use cow_solver::settlement::conservation_ok;
use cow_solver::solver::{unsettled_orders, BatchAuction, Solver, SolverEngine};
use cow_solver::strategy::{AdvancedStrategy, BaselineStrategy};

fn token(address: &str, symbol: &str) -> Token {
    Token::new(address, symbol, symbol, 18, ChainId::EthereumMainnet)
}

fn crossing_orders() -> Vec<Order> {
    let a = Order::new(
        1,
        "0xalice",
        token("0xaaa", "AAA"),
        token("0xbbb", "BBB"),
        10,
        5,
        1_000,
        OrderType::Limit,
    );
    let b = Order::new(
        2,
        "0xbob",
        token("0xbbb", "BBB"),
        token("0xaaa", "AAA"),
        5,
        10,
        1_000,
        OrderType::Limit,
    );
    vec![a, b]
}

#[test]
fn facade_settles_a_crossing_batch() {
    let engine = SolverEngine::new(BaselineStrategy);
    let batch = BatchAuction::new(crossing_orders(), 100);
    let settlement = engine.process_batch(&batch).unwrap();
    assert_eq!(settlement.orders.len(), 2);
    assert_eq!(settlement.transfers.len(), 2);
    assert!(conservation_ok(&settlement.orders, &settlement.transfers));
}

#[test]
fn expired_batch_reports_invalid_order() {
    let engine = SolverEngine::new(BaselineStrategy);
    // batch timestamp is past every expiration
    let batch = BatchAuction::new(crossing_orders(), 2_000);
    let result = engine.process_batch(&batch);
    assert_eq!(result, Err(SolverError::InvalidOrder));
}

#[test]
fn uncrossed_batch_reports_liquidity_unavailable() {
    let engine = SolverEngine::new(BaselineStrategy);
    let a = Order::new(
        1,
        "0xalice",
        token("0xaaa", "AAA"),
        token("0xbbb", "BBB"),
        10,
        5,
        1_000,
        OrderType::Limit,
    );
    let c = Order::new(
        2,
        "0xcarol",
        token("0xaaa", "AAA"),
        token("0xbbb", "BBB"),
        4,
        2,
        1_000,
        OrderType::Limit,
    );
    let batch = BatchAuction::new(vec![a, c], 100);
    let result = engine.process_batch(&batch);
    assert_eq!(result, Err(SolverError::LiquidityUnavailable));
}

#[test]
fn uncrossed_batch_without_liquidity_settles_under_no_strategy() {
    let a = Order::new(
        1,
        "0xalice",
        token("0xaaa", "AAA"),
        token("0xbbb", "BBB"),
        10,
        5,
        1_000,
        OrderType::Limit,
    );
    let b = Order::new(
        2,
        "0xbob",
        token("0xaaa", "AAA"),
        token("0xbbb", "BBB"),
        4,
        2,
        1_000,
        OrderType::Limit,
    );

    let baseline = SolverEngine::new(BaselineStrategy);
    let batch = BatchAuction::new(vec![a.clone(), b.clone()], 100);
    assert_eq!(baseline.process_batch(&batch), Err(SolverError::LiquidityUnavailable));

    let advanced = SolverEngine::new(AdvancedStrategy { sources: vec![DummyDexAdapter] });
    let batch_again = BatchAuction::new(vec![a, b], 100);
    assert_eq!(advanced.process_batch(&batch_again), Err(SolverError::LiquidityUnavailable));
}

#[test]
fn unsettled_residue_is_reported_explicitly() {
    let engine = SolverEngine::new(BaselineStrategy);
    let mut orders = crossing_orders();
    // a third order nothing crosses: it stays unsettled
    orders.push(Order::new(
        3,
        "0xcarol",
        token("0xccc", "CCC"),
        token("0xddd", "DDD"),
        7,
        3,
        1_000,
        OrderType::Limit,
    ));
    let batch = BatchAuction::new(orders.clone(), 100);
    let settlement = engine.process_batch(&batch).unwrap();
    assert_eq!(settlement.orders.len(), 2);
    let open = unsettled_orders(&orders, &settlement);
    assert_eq!(open.len(), 1);
    assert_eq!(open[0].id, 3);
}

#[test]
fn rerunning_on_a_normalized_batch_gives_the_identical_settlement() {
    let engine = SolverEngine::new(BaselineStrategy);
    let raw = crossing_orders();

    let batch = BatchAuction::new(raw.clone(), 100);
    let first = engine.process_batch(&batch).unwrap();

    let mut normalized = raw;
    optimize_orders(&mut normalized);
    let batch_again = BatchAuction::new(normalized, 100);
    let second = engine.process_batch(&batch_again).unwrap();

    assert_eq!(first, second);
}
