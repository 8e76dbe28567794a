use cow_solver::adapters::{ChainRpcClient, DexAdapter, DummyDexAdapter, DummyRpcClient};
use cow_solver::models::{ChainId, Token};

fn dummy_token(symbol: &str) -> Token {
    Token::new(symbol, symbol, symbol, 18, ChainId::EthereumMainnet)
}

#[test]
fn dummy_dex_adapter_returns_zero_quote() {
    let adapter = DummyDexAdapter;
    let sell = dummy_token("ETH");
    let buy = dummy_token("DAI");
    let quote = adapter.get_quote(&sell, &buy, 1).unwrap();
    assert_eq!(quote, 0);
}

#[test]
fn dummy_dex_adapter_execute_swap_returns_zero() {
    let adapter = DummyDexAdapter;
    let sell = dummy_token("ETH");
    let buy = dummy_token("DAI");
    let result = adapter.execute_swap(&sell, &buy, 1).unwrap();
    assert_eq!(result, 0);
}

#[test]
fn dummy_rpc_client_returns_zero_gas_price() {
    let client = DummyRpcClient;
    let price = client.gas_price(ChainId::EthereumMainnet).unwrap();
    assert_eq!(price, 0);
}

#[test]
fn dummy_rpc_client_submits_tx() {
    let client = DummyRpcClient;
    let result = client.submit_transaction(ChainId::EthereumMainnet, vec![0u8; 32]);
    assert!(result.is_ok());
}
