use cow_solver::adapters::{AdapterError, ChainRpcClient, DummyRpcClient};
use cow_solver::bridge::{BridgeAdapter, BridgeError, ChainBridge, DummyBridge};
use cow_solver::models::{ChainId, Order, OrderType, Settlement, Token, Transfer};
use cow_solver::numeric::Ratio;

fn dummy_order(id: u64) -> Order {
    let sell_token = Token::new("0xaaa", "AAA", "AAA Token", 18, ChainId::EthereumMainnet);
    let buy_token = Token::new("0xbbb", "BBB", "BBB Token", 18, ChainId::EthereumMainnet);
    Order::new(id, "0xowner", sell_token, buy_token, 1, 1, 1_000, OrderType::Limit)
}

fn dummy_settlement() -> Settlement {
    let orders = vec![dummy_order(1), dummy_order(2)];
    let transfers: Vec<Transfer> = Vec::new();
    Settlement::new(Ratio::new(1, 1), orders, transfers, ChainId::EthereumMainnet)
}

#[test]
fn test_dummy_bridge_settlement_ok() {
    let bridge = DummyBridge::default();
    let settlement = dummy_settlement();
    let result = bridge.bridge_settlement(&settlement, ChainId::EthereumMainnet);
    assert!(result.is_ok());
}

#[test]
fn bridging_to_a_supported_chain_succeeds() {
    let bridge = ChainBridge::new(
        DummyRpcClient,
        vec![ChainId::EthereumMainnet, ChainId::Gnosis],
    );
    let settlement = dummy_settlement();
    assert!(bridge.bridge_settlement(&settlement, ChainId::Gnosis).is_ok());
}

#[test]
fn bridging_to_an_unsupported_chain_fails_with_invalid_chain() {
    let bridge = ChainBridge::new(DummyRpcClient, vec![ChainId::EthereumMainnet]);
    let settlement = dummy_settlement();
    let result = bridge.bridge_settlement(&settlement, ChainId::Arbitrum);
    assert_eq!(result, Err(BridgeError::InvalidChain));
}

struct FailingRpcClient;

impl ChainRpcClient for FailingRpcClient {
    fn gas_price(&self, _chain: ChainId) -> Result<u64, AdapterError> {
        Err(AdapterError { message: "gas lookup failed".to_string() })
    }

    fn submit_transaction(&self, _chain: ChainId, _data: Vec<u8>) -> Result<(), AdapterError> {
        Err(AdapterError { message: "submission rejected".to_string() })
    }
}

#[test]
fn failed_submission_surfaces_as_execution_failed() {
    let bridge = ChainBridge::new(FailingRpcClient, vec![ChainId::EthereumMainnet]);
    let settlement = dummy_settlement();
    let result = bridge.bridge_settlement(&settlement, ChainId::EthereumMainnet);
    assert!(matches!(result, Err(BridgeError::ExecutionFailed(_))));
}
