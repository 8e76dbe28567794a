use cow_solver::adapters::{AdapterError, DexAdapter, DummyDexAdapter};
use cow_solver::models::{Account, ChainId, Order, OrderType, Settlement, Token};
use cow_solver::numeric::Ratio;
use cow_solver::settlement::conservation_ok;
use cow_solver::strategy::{AdvancedStrategy, BaselineStrategy, Strategy};

fn token(address: &str, symbol: &str) -> Token {
    Token::new(address, symbol, symbol, 18, ChainId::EthereumMainnet)
}

fn dummy_order(id: u64) -> Order {
    let sell_token = token("0xaaa", "AAA");
    let buy_token = token("0xbbb", "BBB");
    Order::new(id, "0xowner", sell_token, buy_token, 1, 1, 1_000, OrderType::Limit)
}

/// Dummy strategy used to test the trait interface.
struct DummyStrategy;

impl Strategy for DummyStrategy {
    fn solve(&self, _orders: &Vec<Order>) -> Option<Settlement> {
        None
    }
}

#[test]
fn test_dummy_strategy_returns_none() {
    let strategy = DummyStrategy;
    let orders = vec![dummy_order(1), dummy_order(2)];
    let result = strategy.solve(&orders);
    assert!(result.is_none());
}

#[test]
fn test_advanced_strategy_returns_none() {
    let strategy: AdvancedStrategy<DummyDexAdapter> = AdvancedStrategy::default();
    let orders = vec![dummy_order(1), dummy_order(2), dummy_order(3)];
    let result = strategy.solve(&orders);
    assert!(result.is_none());
}

fn crossing_pair() -> (Order, Order) {
    let a = Order::new(
        1,
        "0xalice",
        token("0xaaa", "AAA"),
        token("0xbbb", "BBB"),
        10,
        5,
        1_000,
        OrderType::Limit,
    );
    let b = Order::new(
        2,
        "0xbob",
        token("0xbbb", "BBB"),
        token("0xaaa", "AAA"),
        5,
        10,
        1_000,
        OrderType::Limit,
    );
    (a, b)
}

#[test]
fn baseline_settles_a_crossing_pair() {
    let (a, b) = crossing_pair();
    let orders = vec![a, b];
    let st = BaselineStrategy.solve(&orders).unwrap();
    // uniform price: (5 + 10) / (10 + 5) = 1
    assert_eq!(st.clearing_price, Ratio::new(1, 1));
    assert_eq!(st.orders.len(), 2);
    assert_eq!(st.transfers.len(), 2);
    assert_eq!(st.transfers[0].amount, 10);
    assert_eq!(st.transfers[1].amount, 5);
    assert_eq!(st.chain_id, ChainId::EthereumMainnet);
    assert!(conservation_ok(&st.orders, &st.transfers));
}

#[test]
fn no_crossing_and_zero_quotes_yield_no_settlement() {
    // all orders sell AAA for BBB: nothing crosses, and the only wired
    // liquidity source quotes zero for everything
    let orders = vec![dummy_order(1), dummy_order(2), dummy_order(3)];
    assert!(BaselineStrategy.solve(&orders).is_none());
    let advanced = AdvancedStrategy { sources: vec![DummyDexAdapter] };
    assert!(advanced.solve(&orders).is_none());
}

/// A liquidity source with a fixed quote and a fixed executed amount.
struct FixedSource {
    quote: u64,
    executed: u64,
}

impl DexAdapter for FixedSource {
    fn get_quote(
        &self,
        _sell_token: &Token,
        _buy_token: &Token,
        _sell_amount: u64,
    ) -> Result<u64, AdapterError> {
        Ok(self.quote)
    }

    fn execute_swap(
        &self,
        _sell_token: &Token,
        _buy_token: &Token,
        _sell_amount: u64,
    ) -> Result<u64, AdapterError> {
        Ok(self.executed)
    }
}

#[test]
fn advanced_routes_residual_through_best_source() {
    let (a, b) = crossing_pair();
    let residual = Order::new(
        3,
        "0xcarol",
        token("0xccc", "CCC"),
        token("0xddd", "DDD"),
        7,
        3,
        1_000,
        OrderType::Limit,
    );
    let orders = vec![a, b, residual];
    let advanced = AdvancedStrategy {
        sources: vec![FixedSource { quote: 30, executed: 29 }, FixedSource {
            quote: 40,
            executed: 39,
        }],
    };
    let st = advanced.solve(&orders).unwrap();
    // two matched transfers plus the two legs of the routed swap
    assert_eq!(st.transfers.len(), 4);
    assert_eq!(st.orders.len(), 3);
    assert_eq!(st.transfers[2].amount, 7);
    assert_eq!(st.transfers[2].to, Account::External);
    assert_eq!(st.transfers[3].amount, 39);
    assert_eq!(st.transfers[3].from, Account::External);
    assert!(conservation_ok(&st.orders, &st.transfers));
}
