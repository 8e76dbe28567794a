//! Pluggable solver strategies.
//!
//! A strategy turns an order set into an optional settlement. Whatever
//! its algorithm, any settlement it hands back is sound (conservation
//! and price positivity) and settles only orders of its input; a
//! strategy that finds nothing answers with no settlement, a
//! recoverable outcome, never a fault. A strategy may additionally
//! declare itself deterministic, pinning its whole result to a
//! specification of the input alone — the baseline strategy does, while
//! a strategy drawing on external liquidity cannot.

use vstd::prelude::*;
use vstd::multiset::Multiset;
use crate::adapters::DexAdapter;
use crate::matching::{
    match_orders, no_crossing, pair_transfers, pairs_used, rejected, selected, spec_match,
    lemma_partition_contains, lemma_partition_multiset,
};
use crate::models::{
    available, conserves, lemma_available_push, lemma_outgoing_push, outgoing, ChainId, Order,
    Settlement, Transfer,
};
use crate::numeric::Ratio;
use crate::pricing::{spec_clearing_price, VolumeWeightedPricingEngine};
use crate::routing::{best_quote, routed_legs};
use crate::settlement::settlement_sound_ok;

verus! {

/// The orders the baseline strategy settles: the greedily matched ones.
pub open spec fn baseline_orders(s: Seq<Order>) -> Seq<Order> {
    selected(s, pairs_used(spec_match(s)), s.len() as int)
}

/// The transfers the baseline strategy produces: the netted pairs.
pub open spec fn baseline_transfers(s: Seq<Order>) -> Seq<Transfer> {
    pair_transfers(s, spec_match(s))
}

/// The clearing price of the matched orders, when they can define one.
pub open spec fn baseline_price_opt(s: Seq<Order>) -> Option<Ratio> {
    spec_clearing_price(baseline_orders(s))
}

/// The baseline clearing price; zero when no price exists (in which
/// case the strategy finds no settlement).
pub open spec fn baseline_price(s: Seq<Order>) -> Ratio {
    match baseline_price_opt(s) {
        Some(p) => p,
        None => Ratio { num: 0, den: 1 },
    }
}

/// The chain the baseline settlement executes on: that of the first
/// matched order's sell token.
pub open spec fn baseline_chain(s: Seq<Order>) -> ChainId {
    if baseline_orders(s).len() > 0 {
        baseline_orders(s)[0].sell_token.chain
    } else {
        ChainId::EthereumMainnet
    }
}

/// Whether the baseline strategy finds a settlement: some pair matched,
/// the matched orders define a positive price, and the resulting flows
/// conserve every token.
pub open spec fn baseline_feasible(s: Seq<Order>) -> bool {
    &&& baseline_transfers(s).len() > 0
    &&& baseline_orders(s).len() > 0
    &&& (baseline_price_opt(s) matches Some(p) && p.num > 0 && p.den > 0)
    &&& conserves(baseline_orders(s), baseline_transfers(s))
}

/// The baseline flows conserve every token by construction — each
/// matched order sends exactly its sell amount — so a settlement exists
/// exactly when a pair matches and the matched orders define a positive
/// price.
pub proof fn lemma_baseline_conserves(s: Seq<Order>)
    ensures
        conserves(baseline_orders(s), baseline_transfers(s)),
        baseline_feasible(s) <==> (baseline_transfers(s).len() > 0 && baseline_orders(s).len() > 0
            && (baseline_price_opt(s) matches Some(p) && p.num > 0 && p.den > 0)),
{
    crate::matching::lemma_matched_flows_conserve(s);
}

/// A pluggable solver strategy.
pub trait Strategy: Sized {
    /// Whether this strategy's whole result is a function of its input
    /// alone. Strategies drawing on external liquidity are not.
    open spec fn deterministic(&self) -> bool {
        false
    }

    /// For a deterministic strategy: whether a settlement is found.
    open spec fn finds(&self, s: Seq<Order>) -> bool {
        false
    }

    /// For a deterministic strategy: the clearing price it settles at.
    open spec fn plan_price(&self, s: Seq<Order>) -> Ratio {
        Ratio { num: 0, den: 1 }
    }

    /// For a deterministic strategy: the orders it settles.
    open spec fn plan_orders(&self, s: Seq<Order>) -> Seq<Order> {
        Seq::empty()
    }

    /// For a deterministic strategy: the transfers it produces.
    open spec fn plan_transfers(&self, s: Seq<Order>) -> Seq<Transfer> {
        Seq::empty()
    }

    /// For a deterministic strategy: the chain it settles on.
    open spec fn plan_chain(&self, s: Seq<Order>) -> ChainId {
        ChainId::EthereumMainnet
    }

    /// Compute a settlement for a batch of orders, or none.
    fn solve(&self, orders: &Vec<Order>) -> (r: Option<Settlement>)
        ensures
            r matches Some(st) ==> st.sound(),
            r matches Some(st) ==> (forall|k: int|
                0 <= k < st.orders@.len() ==> orders@.contains(#[trigger] st.orders@[k])),
            r matches Some(st) ==> st.orders@.to_multiset().subset_of(orders@.to_multiset()),
            self.deterministic() ==> ((r is Some) == self.finds(orders@)),
            self.deterministic() ==> (r matches Some(st) ==> st.clearing_price == self.plan_price(
                orders@,
            ) && st.orders@ == self.plan_orders(orders@) && st.transfers@ == self.plan_transfers(
                orders@,
            ) && st.chain_id == self.plan_chain(orders@)),
    ;
}

/// The baseline strategy: direct matching and uniform pricing only, no
/// external liquidity.
pub struct BaselineStrategy;

impl Strategy for BaselineStrategy {
    open spec fn deterministic(&self) -> bool {
        true
    }

    open spec fn finds(&self, s: Seq<Order>) -> bool {
        baseline_feasible(s)
    }

    open spec fn plan_price(&self, s: Seq<Order>) -> Ratio {
        baseline_price(s)
    }

    open spec fn plan_orders(&self, s: Seq<Order>) -> Seq<Order> {
        baseline_orders(s)
    }

    open spec fn plan_transfers(&self, s: Seq<Order>) -> Seq<Transfer> {
        baseline_transfers(s)
    }

    open spec fn plan_chain(&self, s: Seq<Order>) -> ChainId {
        baseline_chain(s)
    }

    /// Net opposing pairs, price the matched volume, validate, and
    /// settle. Finds nothing exactly when no pair crosses, the matched
    /// orders define no positive price, or validation fails.
    fn solve(&self, orders: &Vec<Order>) -> (r: Option<Settlement>)
        ensures
            r matches Some(st) ==> st.sound(),
            r matches Some(st) ==> (forall|k: int|
                0 <= k < st.orders@.len() ==> orders@.contains(#[trigger] st.orders@[k])),
            r matches Some(st) ==> st.orders@.to_multiset().subset_of(orders@.to_multiset()),
            (r is Some) == baseline_feasible(orders@),
            r matches Some(st) ==> st.clearing_price == baseline_price(orders@) && st.orders@
                == baseline_orders(orders@) && st.transfers@ == baseline_transfers(orders@)
                && st.chain_id == baseline_chain(orders@),
            no_crossing(orders@) ==> r is None,
    {
        let out = match_orders(orders);
        if out.transfers.len() == 0 {
            return None;
        }
        if out.matched.len() == 0 {
            return None;
        }
        let price = match VolumeWeightedPricingEngine::compute_clearing_price(&out.matched) {
            None => { return None; },
            Some(p) => p,
        };
        if !(price.num > 0 && price.den > 0) {
            return None;
        }
        let chain = out.matched[0].sell_token.chain;
        let st = Settlement::new(price, out.matched, out.transfers, chain);
        if !settlement_sound_ok(&st) {
            return None;
        }
        proof {
            lemma_partition_contains(
                orders@,
                pairs_used(spec_match(orders@)),
                orders@.len() as int,
            );
            lemma_settled_within_batch(orders@, st.orders@.to_multiset());
        }
        Some(st)
    }
}

/// The matched orders, possibly extended by some of the rejected ones,
/// draw on each order of the batch at most once.
proof fn lemma_settled_within_batch(s: Seq<Order>, settled: vstd::multiset::Multiset<Order>)
    requires
        settled.subset_of(
            selected(s, pairs_used(spec_match(s)), s.len() as int).to_multiset().add(
                rejected(s, pairs_used(spec_match(s)), s.len() as int).to_multiset(),
            ),
        ) || settled == selected(s, pairs_used(spec_match(s)), s.len() as int).to_multiset(),
    ensures
        settled.subset_of(s.to_multiset()),
{
    broadcast use vstd::multiset::group_multiset_axioms;

    lemma_partition_multiset(s, pairs_used(spec_match(s)), s.len() as int);
    assert(s.take(s.len() as int) =~= s);
}

/// The advanced strategy: direct matching and pricing as in the
/// baseline, then external liquidity for the residual orders.
///
/// Routing augments a matched core: with no matched pair there is no
/// settlement, whatever the sources offer. For each residual order the
/// sources are queried, a failed query counting as a zero quote; the
/// best positive quote's source executes the swap, and a swap that
/// returns value adds its two legs and its order to the settlement.
pub struct AdvancedStrategy<D: DexAdapter> {
    pub sources: Vec<D>,
}

impl<D: DexAdapter> Default for AdvancedStrategy<D> {
    /// An advanced strategy with no liquidity sources wired in.
    fn default() -> (s: Self)
        ensures
            s.sources@.len() == 0,
    {
        AdvancedStrategy { sources: Vec::new() }
    }
}

impl<D: DexAdapter> Strategy for AdvancedStrategy<D> {
    fn solve(&self, orders: &Vec<Order>) -> (r: Option<Settlement>)
        ensures
            r matches Some(st) ==> st.sound(),
            r matches Some(st) ==> (forall|k: int|
                0 <= k < st.orders@.len() ==> orders@.contains(#[trigger] st.orders@[k])),
            (r is Some) == baseline_feasible(orders@),
            no_crossing(orders@) ==> r is None,
            r matches Some(st) ==> st.clearing_price == baseline_price(orders@)
                && st.chain_id == baseline_chain(orders@),
            r matches Some(st) ==> st.orders@.take(baseline_orders(orders@).len() as int)
                == baseline_orders(orders@) && st.transfers@.take(
                baseline_transfers(orders@).len() as int,
            ) == baseline_transfers(orders@),
            r is Some ==> baseline_transfers(orders@).len() > 0,
    {
        proof {
            crate::matching::lemma_matched_flows_conserve(orders@);
        }
        let out = match_orders(orders);
        if out.transfers.len() == 0 {
            return None;
        }
        if out.matched.len() == 0 {
            return None;
        }
        let price = match VolumeWeightedPricingEngine::compute_clearing_price(&out.matched) {
            None => { return None; },
            Some(p) => p,
        };
        if !(price.num > 0 && price.den > 0) {
            return None;
        }
        let chain = out.matched[0].sell_token.chain;
        proof {
            lemma_partition_contains(
                orders@,
                pairs_used(spec_match(orders@)),
                orders@.len() as int,
            );
        }
        let mut settled = out.matched;
        let mut transfers = out.transfers;
        let residual = out.residual;
        let ghost core_orders = settled@;
        let ghost core_transfers = transfers@;
        proof {
            broadcast use vstd::multiset::group_multiset_axioms;
            broadcast use vstd::seq_lib::group_to_multiset_ensures;

            assert(residual@.take(0) =~= Seq::<Order>::empty());
            assert forall|v: Order|
                residual@.take(0).to_multiset().count(v) == 0 by {
                assert(!residual@.take(0).contains(v));
            }
            assert(residual@.take(0).to_multiset() =~= Multiset::<Order>::empty());
            assert(settled@.to_multiset().subset_of(
                core_orders.to_multiset().add(residual@.take(0).to_multiset()),
            ));
            assert forall|key: (Seq<char>, ChainId)| #[trigger]
                outgoing(transfers@, key) == available(settled@, key) by {
                assert(outgoing(pair_transfers(orders@, spec_match(orders@)), key) == available(
                    selected(orders@, pairs_used(spec_match(orders@)), orders@.len() as int),
                    key,
                ));
            }
        }
        let n_res = residual.len();
        let mut ri: usize = 0;
        while ri < n_res
            invariant
                n_res == residual@.len(),
                0 <= ri <= n_res,
                settled@.len() >= core_orders.len(),
                settled@.take(core_orders.len() as int) == core_orders,
                transfers@.len() >= core_transfers.len(),
                transfers@.take(core_transfers.len() as int) == core_transfers,
                forall|key: (Seq<char>, ChainId)| #[trigger]
                    outgoing(transfers@, key) == available(settled@, key),
                settled@.to_multiset().subset_of(
                    core_orders.to_multiset().add(residual@.take(ri as int).to_multiset()),
                ),
                forall|k: int|
                    0 <= k < settled@.len() ==> orders@.contains(#[trigger] settled@[k]),
                forall|k: int|
                    0 <= k < residual@.len() ==> orders@.contains(#[trigger] residual@[k]),
            decreases n_res - ri,
        {
            let o = &residual[ri];
            let n_src = self.sources.len();
            let mut quotes: Vec<u64> = Vec::new();
            let mut si: usize = 0;
            while si < n_src
                invariant
                    n_src == self.sources@.len(),
                    0 <= si <= n_src,
                    quotes@.len() == si,
                decreases n_src - si,
            {
                let q = match self.sources[si].get_quote(&o.sell_token, &o.buy_token,
                    o.sell_amount) {
                    Ok(q) => q,
                    Err(_) => 0,
                };
                quotes.push(q);
                si = si + 1;
            }
            match best_quote(&quotes) {
                Some((winner, _best)) => {
                    let executed = self.sources[winner].execute_swap(&o.sell_token, &o.buy_token,
                        o.sell_amount);
                    match executed {
                        Ok(received) => {
                            if received > 0 {
                                let ghost transfers_before = transfers@;
                                let ghost settled_before = settled@;
                                let ghost routed = residual@[ri as int];
                                let legs = routed_legs(o, received);
                                transfers.push(legs.0);
                                let ghost transfers_mid = transfers@;
                                transfers.push(legs.1);
                                let settled_order = o.clone();
                                settled.push(settled_order);
                                proof {
                                    broadcast use vstd::seq_lib::group_to_multiset_ensures;
                                    broadcast use vstd::multiset::group_multiset_axioms;

                                    assert(settled@.take(core_orders.len() as int)
                                        =~= core_orders);
                                    assert(transfers@.take(core_transfers.len() as int)
                                        =~= core_transfers);
                                    assert forall|key: (Seq<char>, ChainId)| #[trigger]
                                        outgoing(transfers@, key) == available(settled@, key) by {
                                        lemma_outgoing_push(transfers_before, legs.0, key);
                                        lemma_outgoing_push(transfers_mid, legs.1, key);
                                        lemma_available_push(settled_before, routed, key);
                                    }
                                    assert(settled@.to_multiset() =~= settled_before.to_multiset(
                                    ).insert(routed));
                                }
                            }
                        },
                        Err(_) => {},
                    }
                },
                None => {},
            }
            proof {
                broadcast use vstd::seq_lib::group_to_multiset_ensures;
                broadcast use vstd::multiset::group_multiset_axioms;

                assert(residual@.take(ri as int + 1) =~= residual@.take(ri as int).push(
                    residual@[ri as int],
                ));
                assert(residual@.take(ri as int + 1).to_multiset() =~= residual@.take(
                    ri as int,
                ).to_multiset().insert(residual@[ri as int]));
                assert(settled@.to_multiset().subset_of(
                    core_orders.to_multiset().add(residual@.take(ri as int + 1).to_multiset()),
                ));
            }
            ri = ri + 1;
        }
        proof {
            broadcast use vstd::multiset::group_multiset_axioms;

            assert(residual@.take(n_res as int) =~= residual@);
            lemma_settled_within_batch(orders@, settled@.to_multiset());
            assert(conserves(settled@, transfers@));
        }
        let st = Settlement::new(price, settled, transfers, chain);
        if !settlement_sound_ok(&st) {
            return None;
        }
        Some(st)
    }
}

} // verus!
