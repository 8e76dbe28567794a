use cow_solver::models::{Account, ChainId, Order, OrderType, SolverError, Token, Transfer};
use cow_solver::numeric::Ratio;
use cow_solver::settlement::assemble_settlement;

#[test]
fn it_works() {
    // Basic sanity test to ensure the library compiles and modules are accessible.
    assert_eq!(2 + 2, 4);
}

fn seller(id: u64, owner: &str, sell: u64) -> Order {
    let sell_token = Token::new("0xaaa", "AAA", "AAA Token", 18, ChainId::EthereumMainnet);
    let buy_token = Token::new("0xbbb", "BBB", "BBB Token", 18, ChainId::EthereumMainnet);
    Order::new(id, owner, sell_token, buy_token, sell, 1, 1_000, OrderType::Limit)
}

fn transfer_of(owner: &str, amount: u64) -> Transfer {
    Transfer {
        from: Account::User(owner.to_string()),
        to: Account::External,
        token: Token::new("0xaaa", "AAA", "AAA Token", 18, ChainId::EthereumMainnet),
        amount,
    }
}

#[test]
fn assembler_accepts_a_conserving_settlement() {
    let orders = vec![seller(1, "0xalice", 10), seller(2, "0xbob", 5)];
    let transfers = vec![transfer_of("0xalice", 10), transfer_of("0xbob", 5)];
    let result = assemble_settlement(
        Ratio::new(1, 1),
        orders,
        transfers,
        ChainId::EthereumMainnet,
        100,
    );
    assert!(result.is_ok());
}

#[test]
fn assembler_rejects_overspending_as_settlement_invalid() {
    // 16 units of AAA leave user accounts against 15 available
    let orders = vec![seller(1, "0xalice", 10), seller(2, "0xbob", 5)];
    let transfers = vec![transfer_of("0xalice", 11), transfer_of("0xbob", 5)];
    let result = assemble_settlement(
        Ratio::new(1, 1),
        orders,
        transfers,
        ChainId::EthereumMainnet,
        100,
    );
    assert_eq!(result, Err(SolverError::SettlementInvalid));
}

#[test]
fn assembler_rejects_transfers_without_a_positive_price() {
    let orders = vec![seller(1, "0xalice", 10)];
    let transfers = vec![transfer_of("0xalice", 10)];
    let result = assemble_settlement(
        Ratio::new(0, 1),
        orders,
        transfers,
        ChainId::EthereumMainnet,
        100,
    );
    assert_eq!(result, Err(SolverError::SettlementInvalid));
}

#[test]
fn assembler_rejects_expired_orders() {
    let orders = vec![seller(1, "0xalice", 10)];
    let transfers: Vec<Transfer> = Vec::new();
    // the order expires at 1_000, the batch timestamp is 1_001
    let result = assemble_settlement(
        Ratio::new(1, 1),
        orders,
        transfers,
        ChainId::EthereumMainnet,
        1_001,
    );
    assert_eq!(result, Err(SolverError::InvalidOrder));
}

#[test]
fn solver_error_variants_are_distinct() {
    let wrapped = SolverError::AdapterError("timeout".to_string());
    assert_ne!(wrapped, SolverError::PriceComputationFailed);
    assert_ne!(SolverError::PriceComputationFailed, SolverError::LiquidityUnavailable);
}
