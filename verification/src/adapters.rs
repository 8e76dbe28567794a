//! Adapter capability interfaces: chain RPC clients and DEX liquidity
//! sources.
//!
//! Implementations talk to the outside world, so nothing is promised of
//! what they return: the solver is verified for every outcome. A failed
//! call is an error value per call, never fatal to the batch. The dummy
//! implementations here provide no liquidity and zero gas, for testing
//! and as placeholders.

use vstd::prelude::*;
use crate::models::{ChainId, Token};

verus! {

/// A wrapped failure from an external liquidity or chain call.
#[derive(Debug, PartialEq, Eq)]
pub struct AdapterError {
    pub message: String,
}

/// A chain-specific RPC client.
pub trait ChainRpcClient: Sized {
    /// The current gas price on the given chain, in smallest units.
    fn gas_price(&self, chain: ChainId) -> Result<u64, AdapterError>;

    /// Submit a transaction payload to the chain.
    fn submit_transaction(&self, chain: ChainId, data: Vec<u8>) -> Result<(), AdapterError>;
}

/// A DEX liquidity source: quotes and swap execution. A zero amount
/// signals "no liquidity from this source".
pub trait DexAdapter: Sized {
    /// Quote for swapping `sell_amount` of `sell_token` into
    /// `buy_token`.
    fn get_quote(&self, sell_token: &Token, buy_token: &Token, sell_amount: u64) -> Result<
        u64,
        AdapterError,
    >;

    /// Execute a swap and return the amount actually received.
    fn execute_swap(&self, sell_token: &Token, buy_token: &Token, sell_amount: u64) -> Result<
        u64,
        AdapterError,
    >;
}

/// A DEX adapter with no liquidity: every quote and swap is zero.
pub struct DummyDexAdapter;

impl DexAdapter for DummyDexAdapter {
    fn get_quote(&self, sell_token: &Token, buy_token: &Token, sell_amount: u64) -> (r: Result<
        u64,
        AdapterError,
    >)
        ensures
            r matches Ok(q) && q == 0,
    {
        Ok(0)
    }

    fn execute_swap(&self, sell_token: &Token, buy_token: &Token, sell_amount: u64) -> (r: Result<
        u64,
        AdapterError,
    >)
        ensures
            r matches Ok(q) && q == 0,
    {
        Ok(0)
    }
}

/// An RPC client that reports zero gas and accepts every transaction.
pub struct DummyRpcClient;

impl ChainRpcClient for DummyRpcClient {
    fn gas_price(&self, chain: ChainId) -> (r: Result<u64, AdapterError>)
        ensures
            r matches Ok(p) && p == 0,
    {
        Ok(0)
    }

    fn submit_transaction(&self, chain: ChainId, data: Vec<u8>) -> (r: Result<(), AdapterError>)
        ensures
            r is Ok,
    {
        Ok(())
    }
}

} // verus!
