//! Cross-chain settlement bridging.
//!
//! A bridge realizes a settlement computed on one chain on a different
//! target chain. Bridging an unsupported chain fails with
//! `InvalidChain`; a failure of the underlying submission surfaces as
//! `ExecutionFailed`. Submitting is adapter work and nothing is assumed
//! of its outcome.

use vstd::prelude::*;
use crate::adapters::ChainRpcClient;
use crate::models::{ChainId, Settlement};

verus! {

/// Why a bridging operation failed.
#[derive(Debug, PartialEq, Eq)]
pub enum BridgeError {
    /// The target chain is not supported by this bridge.
    InvalidChain,
    /// The underlying execution failed, with its message.
    ExecutionFailed(String),
}

/// A cross-chain settlement bridge.
pub trait BridgeAdapter: Sized {
    /// Bridge a settlement to the target chain.
    fn bridge_settlement(&self, settlement: &Settlement, target_chain: ChainId) -> Result<
        (),
        BridgeError,
    >;
}

/// A bridge that performs no action and always succeeds. Safe to retry
/// trivially; a placeholder until a concrete bridging protocol is wired
/// in.
#[derive(Default)]
pub struct DummyBridge;

impl BridgeAdapter for DummyBridge {
    fn bridge_settlement(&self, settlement: &Settlement, target_chain: ChainId) -> (r: Result<
        (),
        BridgeError,
    >)
        ensures
            r is Ok,
    {
        Ok(())
    }
}

/// Byte `k` of a 64-bit amount, big-endian: the most significant byte
/// first.
pub open spec fn amount_byte(x: u64, k: int) -> u8 {
    ((x >> (((7 - k) * 8) as u64)) & 0xff) as u8
}

/// The eight big-endian bytes of a 64-bit amount.
pub open spec fn amount_bytes(x: u64) -> Seq<u8> {
    Seq::new(8, |k: int| amount_byte(x, k))
}

/// The big-endian bytes of one amount.
fn be_bytes(x: u64) -> (b: Vec<u8>)
    ensures
        b@ == amount_bytes(x),
{
    let mut b: Vec<u8> = Vec::new();
    let mut k: u64 = 0;
    while k < 8
        invariant
            0 <= k <= 8,
            b@.len() == k,
            forall|kk: int| 0 <= kk < k ==> b@[kk] == amount_byte(x, kk),
        decreases 8 - k,
    {
        let shift: u64 = 56 - 8 * k;
        let byte = (x >> shift) & 0xff;
        proof {
            assert((x >> shift) & 0xff < 256) by (bit_vector);
            assert(((7 - k as int) * 8) as u64 == shift);
        }
        b.push(byte as u8);
        k = k + 1;
    }
    proof {
        assert(b@ =~= amount_bytes(x));
    }
    b
}

/// The transaction payload of a settlement: its transfer amounts,
/// big-endian, in transfer order.
fn settlement_payload(settlement: &Settlement) -> (p: Vec<u8>)
    ensures
        p@.len() == 8 * settlement.transfers@.len(),
        forall|i: int|
            0 <= i < settlement.transfers@.len() ==> #[trigger] p@.subrange(8 * i, 8 * i + 8)
                == amount_bytes(settlement.transfers@[i].amount),
{
    let n = settlement.transfers.len();
    let mut p: Vec<u8> = Vec::new();
    let mut i: usize = 0;
    while i < n
        invariant
            n == settlement.transfers@.len(),
            0 <= i <= n,
            p@.len() == 8 * i,
            forall|ii: int|
                0 <= ii < i ==> #[trigger] p@.subrange(8 * ii, 8 * ii + 8) == amount_bytes(
                    settlement.transfers@[ii].amount,
                ),
        decreases n - i,
    {
        let ghost before = p@;
        let mut chunk = be_bytes(settlement.transfers[i].amount);
        let ghost chunk_bytes = chunk@;
        p.append(&mut chunk);
        proof {
            assert(p@ == before + chunk_bytes);
            assert forall|ii: int|
                0 <= ii < i + 1 implies #[trigger] p@.subrange(8 * ii, 8 * ii + 8)
                == amount_bytes(settlement.transfers@[ii].amount) by {
                if ii < i {
                    assert(p@.subrange(8 * ii, 8 * ii + 8) =~= before.subrange(
                        8 * ii,
                        8 * ii + 8,
                    ));
                } else {
                    assert(p@.subrange(8 * ii, 8 * ii + 8) =~= chunk_bytes);
                }
            }
        }
        i = i + 1;
    }
    p
}

/// Whether `chain` is one of `supported`.
fn chain_supported(supported: &Vec<ChainId>, chain: ChainId) -> (r: bool)
    ensures
        r == supported@.contains(chain),
{
    let n = supported.len();
    let mut i: usize = 0;
    while i < n
        invariant
            n == supported@.len(),
            0 <= i <= n,
            forall|k: int| 0 <= k < i ==> supported@[k] != chain,
        decreases n - i,
    {
        if supported[i] == chain {
            return true;
        }
        i = i + 1;
    }
    false
}

/// A bridge submitting settlements through a chain RPC client, scoped
/// to a fixed set of supported target chains.
pub struct ChainBridge<C: ChainRpcClient> {
    pub client: C,
    pub supported: Vec<ChainId>,
}

impl<C: ChainRpcClient> ChainBridge<C> {
    /// Wire a client and the set of supported target chains.
    pub fn new(client: C, supported: Vec<ChainId>) -> (b: Self)
        ensures
            b.client == client,
            b.supported == supported,
    {
        ChainBridge { client, supported }
    }
}

impl<C: ChainRpcClient> BridgeAdapter for ChainBridge<C> {
    /// Fails with `InvalidChain` exactly when the target chain is
    /// unsupported; otherwise submits the settlement's payload, a
    /// submission failure surfacing as `ExecutionFailed`.
    fn bridge_settlement(&self, settlement: &Settlement, target_chain: ChainId) -> (r: Result<
        (),
        BridgeError,
    >)
        ensures
            (r matches Err(e) && e == BridgeError::InvalidChain) <==> !self.supported@.contains(
                target_chain,
            ),
            r matches Err(e) ==> e == BridgeError::InvalidChain || e is ExecutionFailed,
    {
        if !chain_supported(&self.supported, target_chain) {
            return Err(BridgeError::InvalidChain);
        }
        let payload = settlement_payload(settlement);
        match self.client.submit_transaction(target_chain, payload) {
            Ok(_) => Ok(()),
            Err(e) => Err(BridgeError::ExecutionFailed(e.message)),
        }
    }
}

} // verus!
