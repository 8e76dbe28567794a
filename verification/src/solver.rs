//! The solver façade: the single entry point invoked per batch.
//!
//! A batch is normalized, orders expired at the batch timestamp (or
//! selling nothing) are set aside, and the configured strategy is
//! invoked on what remains. A settlement is returned as found; an empty
//! live set and a strategy that finds nothing are reported as distinct,
//! explicit outcomes, never as a synthesized empty settlement.

use vstd::prelude::*;
use crate::models::{Order, Settlement, SolverError};
use crate::performance::{lemma_normalize_idempotent, optimize_orders, spec_normalize};
use crate::strategy::Strategy;

verus! {

/// The orders of `s` still valid at `timestamp`, in order.
pub open spec fn valid_orders(s: Seq<Order>, timestamp: u64) -> Seq<Order>
    decreases s.len(),
{
    if s.len() == 0 {
        Seq::empty()
    } else {
        let prev = valid_orders(s.drop_last(), timestamp);
        if s.last().spec_valid_at(timestamp) {
            prev.push(s.last())
        } else {
            prev
        }
    }
}

/// Every live order is valid at the timestamp.
proof fn lemma_valid_orders_valid(s: Seq<Order>, timestamp: u64)
    ensures
        forall|k: int|
            0 <= k < valid_orders(s, timestamp).len() ==> (#[trigger] valid_orders(s, timestamp)[
                k]).spec_valid_at(timestamp),
    decreases s.len(),
{
    if s.len() > 0 {
        lemma_valid_orders_valid(s.drop_last(), timestamp);
        let v = valid_orders(s, timestamp);
        let prev = valid_orders(s.drop_last(), timestamp);
        assert forall|k: int|
            0 <= k < v.len() implies (#[trigger] v[k]).spec_valid_at(timestamp) by {
            if s.last().spec_valid_at(timestamp) && k == v.len() - 1 {
            } else {
                assert(v[k] == prev[k]);
            }
        }
    }
}

/// One step of the validity filter over a growing prefix.
proof fn lemma_valid_orders_take_step(s: Seq<Order>, i: int, timestamp: u64)
    requires
        0 <= i < s.len(),
    ensures
        valid_orders(s.take(i + 1), timestamp) == if s[i].spec_valid_at(timestamp) {
            valid_orders(s.take(i), timestamp).push(s[i])
        } else {
            valid_orders(s.take(i), timestamp)
        },
{
    assert(s.take(i + 1).drop_last() =~= s.take(i));
    assert(s.take(i + 1).last() == s[i]);
}

/// A batch of orders to be solved together, with its creation
/// timestamp (seconds).
#[derive(Debug)]
pub struct BatchAuction {
    pub orders: Vec<Order>,
    pub timestamp: u64,
}

impl BatchAuction {
    /// Create a batch from a list of orders and a timestamp.
    pub fn new(orders: Vec<Order>, timestamp: u64) -> (b: BatchAuction)
        ensures
            b.orders == orders,
            b.timestamp == timestamp,
    {
        BatchAuction { orders, timestamp }
    }
}

/// The behaviour of a solver: a batch in, a settlement or an explicit
/// failure out. Whatever the implementation, a settlement it returns is
/// sound and contains no order expired at the batch timestamp.
pub trait Solver: Sized {
    /// Process one batch.
    fn process_batch(&self, batch: &BatchAuction) -> (r: Result<Settlement, SolverError>)
        ensures
            r matches Ok(st) ==> st.sound() && st.valid_at(batch.timestamp),
    ;
}

/// Copy a list of orders.
fn clone_orders(v: &Vec<Order>) -> (r: Vec<Order>)
    ensures
        r@ == v@,
{
    let n = v.len();
    let mut r: Vec<Order> = Vec::new();
    let mut i: usize = 0;
    while i < n
        invariant
            n == v@.len(),
            0 <= i <= n,
            r@ =~= v@.take(i as int),
        decreases n - i,
    {
        let o = v[i].clone();
        r.push(o);
        proof {
            assert(r@ =~= v@.take(i as int + 1));
        }
        i = i + 1;
    }
    proof {
        assert(v@.take(n as int) =~= v@);
    }
    r
}

/// Keep the orders still valid at `timestamp`.
fn filter_valid(v: &Vec<Order>, timestamp: u64) -> (r: Vec<Order>)
    ensures
        r@ == valid_orders(v@, timestamp),
{
    let n = v.len();
    let mut r: Vec<Order> = Vec::new();
    let mut i: usize = 0;
    proof {
        assert(v@.take(0) =~= Seq::<Order>::empty());
    }
    while i < n
        invariant
            n == v@.len(),
            0 <= i <= n,
            r@ == valid_orders(v@.take(i as int), timestamp),
        decreases n - i,
    {
        proof {
            lemma_valid_orders_take_step(v@, i as int, timestamp);
        }
        if v[i].valid_at(timestamp) {
            let o = v[i].clone();
            r.push(o);
        }
        i = i + 1;
    }
    proof {
        assert(v@.take(n as int) =~= v@);
    }
    r
}

/// The solver façade: normalization, then the configured strategy.
pub struct SolverEngine<St: Strategy> {
    pub strategy: St,
}

impl<St: Strategy> SolverEngine<St> {
    /// Wire a strategy into a solver.
    pub fn new(strategy: St) -> (s: Self)
        ensures
            s.strategy == strategy,
    {
        SolverEngine { strategy }
    }
}

impl<St: Strategy> Solver for SolverEngine<St> {
    /// Normalize the batch, drop orders expired at the batch timestamp
    /// or selling nothing, and invoke the strategy on the live orders.
    ///
    /// Fails with `InvalidOrder` when no live order remains, and with
    /// `LiquidityUnavailable` when the strategy finds no settlement.
    /// For a deterministic strategy the entire outcome is pinned to the
    /// normalized live orders.
    fn process_batch(&self, batch: &BatchAuction) -> (r: Result<Settlement, SolverError>)
        ensures
            r matches Ok(st) ==> st.sound() && st.valid_at(batch.timestamp),
            ({
                let live = valid_orders(spec_normalize(batch.orders@), batch.timestamp);
                &&& ((r matches Err(e) && e == SolverError::InvalidOrder) <==> live.len() == 0)
                &&& (r matches Err(e) ==> e == SolverError::InvalidOrder
                    || e == SolverError::LiquidityUnavailable)
                &&& (self.strategy.deterministic() ==> ((r is Ok) <==> (live.len() > 0
                    && self.strategy.finds(live))))
                &&& (self.strategy.deterministic() ==> (r matches Ok(st) ==> st.clearing_price
                    == self.strategy.plan_price(live) && st.orders@ == self.strategy.plan_orders(
                    live,
                ) && st.transfers@ == self.strategy.plan_transfers(live) && st.chain_id
                    == self.strategy.plan_chain(live)))
            }),
    {
        let mut orders = clone_orders(&batch.orders);
        optimize_orders(&mut orders);
        let live = filter_valid(&orders, batch.timestamp);
        if live.len() == 0 {
            return Err(SolverError::InvalidOrder);
        }
        match self.strategy.solve(&live) {
            Some(st) => {
                proof {
                    lemma_valid_orders_valid(spec_normalize(batch.orders@), batch.timestamp);
                    assert forall|i: int|
                        0 <= i < st.orders@.len() implies (#[trigger] st.orders@[
                    i]).spec_valid_at(batch.timestamp) by {
                        assert(live@.contains(st.orders@[i]));
                        let w = choose|w: int| 0 <= w < live@.len() && live@[w] == st.orders@[i];
                        assert(live@[w].spec_valid_at(batch.timestamp));
                    }
                }
                Ok(st)
            },
            None => Err(SolverError::LiquidityUnavailable),
        }
    }
}

/// Whether any settled order carries the given id.
pub open spec fn settles_id(settled: Seq<Order>, id: u64) -> bool {
    exists|k: int| 0 <= k < settled.len() && (#[trigger] settled[k]).id == id
}

/// The live orders whose id no settled order carries, in order: the
/// part of the batch the settlement leaves open.
pub open spec fn spec_unsettled(live: Seq<Order>, settled: Seq<Order>) -> Seq<Order>
    decreases live.len(),
{
    if live.len() == 0 {
        Seq::empty()
    } else {
        let prev = spec_unsettled(live.drop_last(), settled);
        if settles_id(settled, live.last().id) {
            prev
        } else {
            prev.push(live.last())
        }
    }
}

/// One step of the unsettled filter over a growing prefix.
proof fn lemma_unsettled_take_step(live: Seq<Order>, settled: Seq<Order>, i: int)
    requires
        0 <= i < live.len(),
    ensures
        spec_unsettled(live.take(i + 1), settled) == if settles_id(settled, live[i].id) {
            spec_unsettled(live.take(i), settled)
        } else {
            spec_unsettled(live.take(i), settled).push(live[i])
        },
{
    assert(live.take(i + 1).drop_last() =~= live.take(i));
    assert(live.take(i + 1).last() == live[i]);
}

/// Report the orders of a batch that a settlement leaves unsettled.
///
/// Orders are identified by id, which is exact for the normalized
/// collections the façade works on (one order per id). The unsettled
/// residue is reported explicitly rather than left to be inferred by
/// difference.
pub fn unsettled_orders(live: &Vec<Order>, settlement: &Settlement) -> (r: Vec<Order>)
    ensures
        r@ == spec_unsettled(live@, settlement.orders@),
{
    let n = live.len();
    let n_settled = settlement.orders.len();
    let mut r: Vec<Order> = Vec::new();
    let mut i: usize = 0;
    proof {
        assert(live@.take(0) =~= Seq::<Order>::empty());
    }
    while i < n
        invariant
            n == live@.len(),
            n_settled == settlement.orders@.len(),
            0 <= i <= n,
            r@ == spec_unsettled(live@.take(i as int), settlement.orders@),
        decreases n - i,
    {
        proof {
            lemma_unsettled_take_step(live@, settlement.orders@, i as int);
        }
        let mut found = false;
        let mut k: usize = 0;
        while k < n_settled
            invariant
                n == live@.len(),
                n_settled == settlement.orders@.len(),
                0 <= i < n,
                0 <= k <= n_settled,
                found == (exists|kk: int|
                    0 <= kk < k && (#[trigger] settlement.orders@[kk]).id == live@[i as int].id),
            decreases n_settled - k,
        {
            if settlement.orders[k].id == live[i].id {
                found = true;
            }
            k = k + 1;
        }
        if !found {
            let o = live[i].clone();
            r.push(o);
        }
        i = i + 1;
    }
    proof {
        assert(live@.take(n as int) =~= live@);
    }
    r
}

/// Re-running the solver on an already-normalized, unchanged batch
/// yields the identical settlement plan: normalization is idempotent,
/// and every later stage of a deterministic strategy is a function of
/// the normalized live orders alone.
pub proof fn lemma_process_batch_idempotent<St: Strategy>(
    strategy: St,
    s: Seq<Order>,
    timestamp: u64,
)
    ensures
        valid_orders(spec_normalize(spec_normalize(s)), timestamp) == valid_orders(
            spec_normalize(s),
            timestamp,
        ),
        strategy.finds(valid_orders(spec_normalize(spec_normalize(s)), timestamp))
            == strategy.finds(valid_orders(spec_normalize(s), timestamp)),
        strategy.plan_price(valid_orders(spec_normalize(spec_normalize(s)), timestamp))
            == strategy.plan_price(valid_orders(spec_normalize(s), timestamp)),
        strategy.plan_orders(valid_orders(spec_normalize(spec_normalize(s)), timestamp))
            == strategy.plan_orders(valid_orders(spec_normalize(s), timestamp)),
        strategy.plan_transfers(valid_orders(spec_normalize(spec_normalize(s)), timestamp))
            == strategy.plan_transfers(valid_orders(spec_normalize(s), timestamp)),
        strategy.plan_chain(valid_orders(spec_normalize(spec_normalize(s)), timestamp))
            == strategy.plan_chain(valid_orders(spec_normalize(s), timestamp)),
{
    lemma_normalize_idempotent(s);
}

} // verus!
