//! Core data model: chains, tokens, orders, transfers and settlements.
//!
//! Amounts are carried in a token's smallest unit as unsigned 64-bit
//! integers; prices are exact rationals (`Ratio`). A settlement's
//! conservation invariant is stated here over per-token sums: for every
//! token, the amount leaving user accounts never exceeds the sell volume
//! the included orders make available.

use vstd::prelude::*;
use crate::numeric::Ratio;

verus! {

/// The closed set of chains the solver knows about.
#[derive(Clone, Copy, Debug, PartialEq, Eq, Hash, Structural)]
pub enum ChainId {
    EthereumMainnet,
    Gnosis,
    Arbitrum,
    Optimism,
}

/// How an order is meant to be filled.
#[derive(Clone, Copy, Debug, PartialEq, Eq, Structural)]
pub enum OrderType {
    Limit,
    Market,
}

/// A token, identified by its address and owning chain.
#[derive(Debug, PartialEq, Eq)]
pub struct Token {
    pub address: String,
    pub symbol: String,
    pub name: String,
    pub decimals: u32,
    pub chain: ChainId,
}

/// The identity of a token: its address text together with its chain.
/// Two `Token` values with the same key stand for the same asset.
pub open spec fn token_key(t: Token) -> (Seq<char>, ChainId) {
    (t.address@, t.chain)
}

impl Clone for Token {
    /// A clone is the same token, field for field.
    fn clone(&self) -> (t: Token)
        ensures
            t == *self,
    {
        Token {
            address: self.address.clone(),
            symbol: self.symbol.clone(),
            name: self.name.clone(),
            decimals: self.decimals,
            chain: self.chain,
        }
    }
}

impl Token {
    /// Build a token from its descriptive fields.
    pub fn new(address: &str, symbol: &str, name: &str, decimals: u32, chain: ChainId) -> (t:
        Token)
        ensures
            t.address@ == address@,
            t.symbol@ == symbol@,
            t.name@ == name@,
            t.decimals == decimals,
            t.chain == chain,
    {
        Token {
            address: address.to_owned(),
            symbol: symbol.to_owned(),
            name: name.to_owned(),
            decimals,
            chain,
        }
    }

    /// Whether two tokens stand for the same asset.
    pub fn same_asset(&self, other: &Token) -> (r: bool)
        ensures
            r == (token_key(*self) == token_key(*other)),
    {
        let addr_eq = self.address == other.address;
        let chain_eq = self.chain == other.chain;
        addr_eq && chain_eq
    }
}

/// A trade order: sell up to `sell_amount` of `sell_token` in return for at
/// least `buy_amount` of `buy_token`, until `expiration` (seconds).
#[derive(Debug, PartialEq, Eq)]
pub struct Order {
    pub id: u64,
    pub owner: String,
    pub sell_token: Token,
    pub buy_token: Token,
    pub sell_amount: u64,
    pub buy_amount: u64,
    pub expiration: u64,
    pub order_type: OrderType,
}

impl Clone for Order {
    /// A clone is the same order, field for field.
    fn clone(&self) -> (o: Order)
        ensures
            o == *self,
    {
        Order {
            id: self.id,
            owner: self.owner.clone(),
            sell_token: self.sell_token.clone(),
            buy_token: self.buy_token.clone(),
            sell_amount: self.sell_amount,
            buy_amount: self.buy_amount,
            expiration: self.expiration,
            order_type: self.order_type,
        }
    }
}

impl Order {
    /// Build an order.
    pub fn new(
        id: u64,
        owner: &str,
        sell_token: Token,
        buy_token: Token,
        sell_amount: u64,
        buy_amount: u64,
        expiration: u64,
        order_type: OrderType,
    ) -> (o: Order)
        ensures
            o.id == id,
            o.owner@ == owner@,
            o.sell_token == sell_token,
            o.buy_token == buy_token,
            o.sell_amount == sell_amount,
            o.buy_amount == buy_amount,
            o.expiration == expiration,
            o.order_type == order_type,
    {
        Order {
            id,
            owner: owner.to_owned(),
            sell_token,
            buy_token,
            sell_amount,
            buy_amount,
            expiration,
            order_type,
        }
    }

    /// An order takes part in a solve only while unexpired and with a
    /// positive sell amount.
    pub open spec fn spec_valid_at(self, timestamp: u64) -> bool {
        timestamp <= self.expiration && self.sell_amount > 0
    }

    /// Executable form of [`Order::spec_valid_at`].
    pub fn valid_at(&self, timestamp: u64) -> (r: bool)
        ensures
            r == self.spec_valid_at(timestamp),
    {
        timestamp <= self.expiration && self.sell_amount > 0
    }
}

/// One side of a transfer: a user account named by the owner text of an
/// order, or the external liquidity venue a routed swap trades against.
#[derive(Debug, PartialEq, Eq)]
pub enum Account {
    User(String),
    External,
}

/// The atomic unit of value movement inside a settlement.
#[derive(Debug, PartialEq, Eq)]
pub struct Transfer {
    pub from: Account,
    pub to: Account,
    pub token: Token,
    pub amount: u64,
}

/// Sum of the amounts of `transfers` that move token `key` out of a user
/// account. Inflows from the external venue do not count against the
/// batch's sell volume.
pub open spec fn outgoing(transfers: Seq<Transfer>, key: (Seq<char>, ChainId)) -> int
    decreases transfers.len(),
{
    if transfers.len() == 0 {
        0
    } else {
        let t = transfers.last();
        outgoing(transfers.drop_last(), key) + if t.from is User && token_key(t.token) == key {
            t.amount as int
        } else {
            0
        }
    }
}

/// Sum of the sell amounts of `orders` whose sell token is `key`: the
/// volume of that token the batch makes available.
pub open spec fn available(orders: Seq<Order>, key: (Seq<char>, ChainId)) -> int
    decreases orders.len(),
{
    if orders.len() == 0 {
        0
    } else {
        let o = orders.last();
        available(orders.drop_last(), key) + if token_key(o.sell_token) == key {
            o.sell_amount as int
        } else {
            0
        }
    }
}

/// Appending one transfer adds its contribution to the outgoing sum.
pub proof fn lemma_outgoing_push(transfers: Seq<Transfer>, t: Transfer, key: (Seq<char>, ChainId))
    ensures
        outgoing(transfers.push(t), key) == outgoing(transfers, key) + if t.from is User
            && token_key(t.token) == key {
            t.amount as int
        } else {
            0
        },
{
    assert(transfers.push(t).drop_last() =~= transfers);
    assert(transfers.push(t).last() == t);
}

/// Appending one order adds its contribution to the available sum.
pub proof fn lemma_available_push(orders: Seq<Order>, o: Order, key: (Seq<char>, ChainId))
    ensures
        available(orders.push(o), key) == available(orders, key) + if token_key(o.sell_token)
            == key {
            o.sell_amount as int
        } else {
            0
        },
{
    assert(orders.push(o).drop_last() =~= orders);
    assert(orders.push(o).last() == o);
}

/// Per-token conservation: for every token, outgoing user transfers stay
/// within the sell volume the included orders offer.
pub open spec fn conserves(orders: Seq<Order>, transfers: Seq<Transfer>) -> bool {
    forall|key: (Seq<char>, ChainId)| #[trigger] outgoing(transfers, key) <= available(orders, key)
}

/// A finalized batch outcome: a uniform clearing price, the orders it
/// settles, and the transfers realizing it on one chain.
#[derive(Debug, PartialEq, Eq)]
pub struct Settlement {
    pub clearing_price: Ratio,
    pub orders: Vec<Order>,
    pub transfers: Vec<Transfer>,
    pub chain_id: ChainId,
}

impl Settlement {
    /// The invariants every emitted settlement satisfies: conservation per
    /// token, and a strictly positive price whenever any transfer exists.
    pub open spec fn sound(self) -> bool {
        &&& conserves(self.orders@, self.transfers@)
        &&& self.transfers@.len() > 0 ==> self.clearing_price.num > 0
            && self.clearing_price.den > 0
    }

    /// Every settled order is unexpired at `timestamp` and sells a
    /// positive amount.
    pub open spec fn valid_at(self, timestamp: u64) -> bool {
        forall|i: int|
            0 <= i < self.orders@.len() ==> (#[trigger] self.orders@[i]).spec_valid_at(timestamp)
    }

    /// Build a settlement from its parts, without validation.
    pub fn new(clearing_price: Ratio, orders: Vec<Order>, transfers: Vec<Transfer>, chain_id:
        ChainId) -> (s: Settlement)
        ensures
            s.clearing_price == clearing_price,
            s.orders == orders,
            s.transfers == transfers,
            s.chain_id == chain_id,
    {
        Settlement { clearing_price, orders, transfers, chain_id }
    }
}

/// Why a batch could not be settled, or a settlement was refused.
#[derive(Debug, PartialEq, Eq)]
pub enum SolverError {
    /// After normalization no order was unexpired with a positive sell
    /// amount.
    InvalidOrder,
    /// Fewer than two priceable orders, or zero total sell volume.
    PriceComputationFailed,
    /// No internal match and no external liquidity for the batch.
    LiquidityUnavailable,
    /// A settlement failed its conservation or price-positivity check.
    SettlementInvalid,
    /// A wrapped failure from an external liquidity or chain call.
    AdapterError(String),
}

} // verus!
