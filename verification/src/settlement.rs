//! Settlement assembly: build a settlement from matched and routed
//! flows and validate its invariants before handing it out.
//!
//! Validation failures are reported as errors, never corrected silently:
//! an assembled settlement always conserves every token and carries a
//! strictly positive clearing price whenever any transfer exists.

use vstd::prelude::*;
use crate::models::{
    available, conserves, outgoing, token_key, Account, ChainId, Order, Settlement, SolverError,
    Transfer,
};
use crate::numeric::Ratio;

verus! {

/// Extending the transfer prefix by one adds that transfer's
/// contribution to the outgoing sum.
proof fn lemma_outgoing_take_step(ts: Seq<Transfer>, i: int, key: (Seq<char>, ChainId))
    requires
        0 <= i < ts.len(),
    ensures
        outgoing(ts.take(i + 1), key) == outgoing(ts.take(i), key) + if ts[i].from is User
            && token_key(ts[i].token) == key {
            ts[i].amount as int
        } else {
            0
        },
{
    assert(ts.take(i + 1).drop_last() =~= ts.take(i));
    assert(ts.take(i + 1).last() == ts[i]);
}

/// Extending the order prefix by one adds that order's contribution to
/// the available sum.
proof fn lemma_available_take_step(os: Seq<Order>, i: int, key: (Seq<char>, ChainId))
    requires
        0 <= i < os.len(),
    ensures
        available(os.take(i + 1), key) == available(os.take(i), key) + if token_key(
            os[i].sell_token,
        ) == key {
            os[i].sell_amount as int
        } else {
            0
        },
{
    assert(os.take(i + 1).drop_last() =~= os.take(i));
    assert(os.take(i + 1).last() == os[i]);
}

/// Outgoing sums are non-negative.
proof fn lemma_outgoing_nonneg(ts: Seq<Transfer>, key: (Seq<char>, ChainId))
    ensures
        outgoing(ts, key) >= 0,
    decreases ts.len(),
{
    if ts.len() > 0 {
        lemma_outgoing_nonneg(ts.drop_last(), key);
    }
}

/// Available sums are non-negative.
proof fn lemma_available_nonneg(os: Seq<Order>, key: (Seq<char>, ChainId))
    ensures
        available(os, key) >= 0,
    decreases os.len(),
{
    if os.len() > 0 {
        lemma_available_nonneg(os.drop_last(), key);
    }
}

/// A non-zero outgoing sum names at least one user transfer in that
/// token.
proof fn lemma_outgoing_witness(ts: Seq<Transfer>, key: (Seq<char>, ChainId))
    requires
        outgoing(ts, key) != 0,
    ensures
        exists|k: int|
            0 <= k < ts.len() && (#[trigger] ts[k]).from is User && token_key(ts[k].token) == key,
    decreases ts.len(),
{
    if ts.len() > 0 {
        let last = ts.last();
        if last.from is User && token_key(last.token) == key {
            assert(ts[ts.len() - 1].from is User && token_key(ts[ts.len() - 1].token) == key);
        } else {
            lemma_outgoing_witness(ts.drop_last(), key);
            let k = choose|k: int|
                0 <= k < ts.drop_last().len() && (#[trigger] ts.drop_last()[k]).from is User
                    && token_key(ts.drop_last()[k].token) == key;
            assert(ts[k].from is User && token_key(ts[k].token) == key);
        }
    }
}

/// Sum of the amounts of `transfers` moving `token` out of user
/// accounts.
fn sum_outgoing(transfers: &Vec<Transfer>, token: &crate::models::Token) -> (r: u128)
    ensures
        r == outgoing(transfers@, token_key(*token)),
{
    let n = transfers.len();
    let mut acc: u128 = 0;
    let mut i: usize = 0;
    proof {
        assert(transfers@.take(0) =~= Seq::<Transfer>::empty());
    }
    while i < n
        invariant
            n == transfers@.len(),
            0 <= i <= n,
            acc == outgoing(transfers@.take(i as int), token_key(*token)),
            acc <= i * 0xffff_ffff_ffff_ffff,
        decreases n - i,
    {
        proof {
            lemma_outgoing_take_step(transfers@, i as int, token_key(*token));
            assert((i + 1) * 0xffff_ffff_ffff_ffff == i * 0xffff_ffff_ffff_ffff
                + 0xffff_ffff_ffff_ffff) by (nonlinear_arith);
        }
        let t = &transfers[i];
        let is_user = match &t.from {
            Account::User(_) => true,
            Account::External => false,
        };
        if is_user && t.token.same_asset(token) {
            acc = acc + t.amount as u128;
        }
        i = i + 1;
    }
    proof {
        assert(transfers@.take(n as int) =~= transfers@);
    }
    acc
}

/// Sum of the sell amounts of `orders` selling `token`.
fn sum_available(orders: &Vec<Order>, token: &crate::models::Token) -> (r: u128)
    ensures
        r == available(orders@, token_key(*token)),
{
    let n = orders.len();
    let mut acc: u128 = 0;
    let mut i: usize = 0;
    proof {
        assert(orders@.take(0) =~= Seq::<Order>::empty());
    }
    while i < n
        invariant
            n == orders@.len(),
            0 <= i <= n,
            acc == available(orders@.take(i as int), token_key(*token)),
            acc <= i * 0xffff_ffff_ffff_ffff,
        decreases n - i,
    {
        proof {
            lemma_available_take_step(orders@, i as int, token_key(*token));
            assert((i + 1) * 0xffff_ffff_ffff_ffff == i * 0xffff_ffff_ffff_ffff
                + 0xffff_ffff_ffff_ffff) by (nonlinear_arith);
        }
        let o = &orders[i];
        if o.sell_token.same_asset(token) {
            acc = acc + o.sell_amount as u128;
        }
        i = i + 1;
    }
    proof {
        assert(orders@.take(n as int) =~= orders@);
    }
    acc
}

/// Decide per-token conservation: for every token, the amount leaving
/// user accounts stays within the sell volume `orders` offers.
pub fn conservation_ok(orders: &Vec<Order>, transfers: &Vec<Transfer>) -> (r: bool)
    ensures
        r == conserves(orders@, transfers@),
{
    let n = transfers.len();
    let mut k: usize = 0;
    while k < n
        invariant
            n == transfers@.len(),
            0 <= k <= n,
            forall|kk: int|
                0 <= kk < k && (#[trigger] transfers@[kk]).from is User ==> outgoing(
                    transfers@,
                    token_key(transfers@[kk].token),
                ) <= available(orders@, token_key(transfers@[kk].token)),
        decreases n - k,
    {
        let t = &transfers[k];
        let is_user = match &t.from {
            Account::User(_) => true,
            Account::External => false,
        };
        if is_user {
            let out = sum_outgoing(transfers, &t.token);
            let avail = sum_available(orders, &t.token);
            if out > avail {
                proof {
                    assert(outgoing(transfers@, token_key(transfers@[k as int].token))
                        > available(orders@, token_key(transfers@[k as int].token)));
                }
                return false;
            }
        }
        k = k + 1;
    }
    proof {
        assert forall|key: (Seq<char>, ChainId)| #[trigger]
            outgoing(transfers@, key) <= available(orders@, key) by {
            lemma_available_nonneg(orders@, key);
            lemma_outgoing_nonneg(transfers@, key);
            if outgoing(transfers@, key) != 0 {
                lemma_outgoing_witness(transfers@, key);
                let w = choose|w: int|
                    0 <= w < transfers@.len() && (#[trigger] transfers@[w]).from is User
                        && token_key(transfers@[w].token) == key;
                assert(outgoing(transfers@, token_key(transfers@[w].token)) <= available(
                    orders@,
                    token_key(transfers@[w].token),
                ));
            }
        }
    }
    true
}

/// Decide the full settlement invariant: conservation, plus a strictly
/// positive clearing price whenever any transfer exists.
pub fn settlement_sound_ok(s: &Settlement) -> (r: bool)
    ensures
        r == s.sound(),
{
    let conserved = conservation_ok(&s.orders, &s.transfers);
    let price_ok = s.transfers.len() == 0 || (s.clearing_price.num > 0 && s.clearing_price.den
        > 0);
    conserved && price_ok
}

/// Build a settlement from matched and routed flows and the clearing
/// price, validating its invariants against the batch timestamp.
///
/// Fails with `InvalidOrder` when an included order is expired or sells
/// nothing at `timestamp`; otherwise with `SettlementInvalid` when a
/// token's outgoing volume exceeds what the orders offer, or transfers
/// exist without a strictly positive price.
pub fn assemble_settlement(
    clearing_price: Ratio,
    orders: Vec<Order>,
    transfers: Vec<Transfer>,
    chain_id: ChainId,
    timestamp: u64,
) -> (r: Result<Settlement, SolverError>)
    ensures
        r matches Ok(s) ==> s == (Settlement { clearing_price, orders, transfers, chain_id })
            && s.sound() && s.valid_at(timestamp),
        r matches Err(e) ==> (e == SolverError::InvalidOrder || e == SolverError::SettlementInvalid),
        r matches Err(e) && e == SolverError::InvalidOrder <==> !(forall|i: int|
            0 <= i < orders@.len() ==> (#[trigger] orders@[i]).spec_valid_at(timestamp)),
        r is Err && !(r matches Err(e) && e == SolverError::InvalidOrder) <==> (forall|i: int|
            0 <= i < orders@.len() ==> (#[trigger] orders@[i]).spec_valid_at(timestamp)) && !(
        Settlement { clearing_price, orders, transfers, chain_id }).sound(),
{
    let n = orders.len();
    let mut i: usize = 0;
    while i < n
        invariant
            n == orders@.len(),
            0 <= i <= n,
            forall|k: int| 0 <= k < i ==> (#[trigger] orders@[k]).spec_valid_at(timestamp),
        decreases n - i,
    {
        if !orders[i].valid_at(timestamp) {
            return Err(SolverError::InvalidOrder);
        }
        i = i + 1;
    }
    let settlement = Settlement { clearing_price, orders, transfers, chain_id };
    if !settlement_sound_ok(&settlement) {
        return Err(SolverError::SettlementInvalid);
    }
    Ok(settlement)
}

} // verus!
