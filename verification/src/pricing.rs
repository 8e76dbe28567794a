//! Uniform clearing price as the sell-volume-weighted average of order
//! prices.
//!
//! Each order prices itself at `buy_amount / sell_amount`; weighting by
//! sell volume makes the batch price `sum(buy) / sum(sell)` over the
//! orders able to define a price (those with a positive sell amount).
//! The result is an exact reduced rational, so it depends only on the two
//! sums — in particular it is invariant under permutation of the input.

use vstd::prelude::*;
use crate::models::Order;
use crate::numeric::{reduced, Ratio};

verus! {

/// Weighted sum of a weight function over a sequence of orders.
pub open spec fn wsum(s: Seq<Order>, w: spec_fn(Order) -> int) -> int
    decreases s.len(),
{
    if s.len() == 0 {
        0
    } else {
        wsum(s.drop_last(), w) + w(s.last())
    }
}

/// Weight one for each order able to define a price, zero otherwise.
pub open spec fn count_weight() -> spec_fn(Order) -> int {
    |o: Order| if o.sell_amount > 0 { 1int } else { 0int }
}

/// The sell amount of each priceable order, zero otherwise.
pub open spec fn sell_weight() -> spec_fn(Order) -> int {
    |o: Order| if o.sell_amount > 0 { o.sell_amount as int } else { 0int }
}

/// The buy amount of each priceable order, zero otherwise. An order with
/// a zero sell amount contributes to neither sum.
pub open spec fn buy_weight() -> spec_fn(Order) -> int {
    |o: Order| if o.sell_amount > 0 { o.buy_amount as int } else { 0int }
}

/// How many orders of `s` can define a price.
pub open spec fn qual_count(s: Seq<Order>) -> int {
    wsum(s, count_weight())
}

/// Total sell volume over the priceable orders of `s`.
pub open spec fn total_sell(s: Seq<Order>) -> int {
    wsum(s, sell_weight())
}

/// Total buy volume over the priceable orders of `s`.
pub open spec fn total_buy(s: Seq<Order>) -> int {
    wsum(s, buy_weight())
}

/// The clearing price of `s`: none unless at least two orders can define
/// a price, else the reduced fraction of buy volume over sell volume.
pub open spec fn spec_clearing_price(s: Seq<Order>) -> Option<Ratio> {
    if qual_count(s) < 2 {
        None
    } else {
        Some(reduced(total_buy(s) as u128, total_sell(s) as u128))
    }
}

/// Removing element `i` removes exactly its weight from the sum.
proof fn lemma_wsum_remove(s: Seq<Order>, i: int, w: spec_fn(Order) -> int)
    requires
        0 <= i < s.len(),
    ensures
        wsum(s.remove(i), w) == wsum(s, w) - w(s[i]),
    decreases s.len(),
{
    if i == s.len() - 1 {
        assert(s.remove(i) =~= s.drop_last());
    } else {
        assert(s.remove(i).drop_last() =~= s.drop_last().remove(i));
        assert(s.remove(i).last() == s.last());
        lemma_wsum_remove(s.drop_last(), i, w);
    }
}

/// Weighted sums are invariant under permutation of the sequence.
pub proof fn lemma_wsum_permutation(s1: Seq<Order>, s2: Seq<Order>, w: spec_fn(Order) -> int)
    requires
        s1.to_multiset() == s2.to_multiset(),
    ensures
        wsum(s1, w) == wsum(s2, w),
    decreases s1.len(),
{
    broadcast use vstd::seq_lib::group_to_multiset_ensures;

    if s1.len() == 0 {
        assert(s2.to_multiset().len() == 0);
        assert(s2.len() == 0);
    } else {
        let x = s1.last();
        assert(s1[s1.len() - 1] == x);
        assert(s1.contains(x));
        assert(s2.to_multiset().count(x) > 0);
        assert(s2.contains(x));
        let j = choose|j: int| 0 <= j < s2.len() && s2[j] == x;
        assert(s1.drop_last() =~= s1.remove(s1.len() - 1));
        assert(s1.remove(s1.len() - 1).to_multiset() == s1.to_multiset().remove(x));
        assert(s2.remove(j).to_multiset() == s2.to_multiset().remove(x));
        lemma_wsum_permutation(s1.drop_last(), s2.remove(j), w);
        lemma_wsum_remove(s2, j, w);
    }
}

/// Every priceable order sells at least one unit, so the sell volume
/// dominates the count of priceable orders.
pub proof fn lemma_total_sell_ge_count(s: Seq<Order>)
    ensures
        total_sell(s) >= qual_count(s),
    decreases s.len(),
{
    if s.len() > 0 {
        lemma_total_sell_ge_count(s.drop_last());
    }
}

/// One step of a prefix sum: extending the prefix by `s[i]` adds its
/// weight.
proof fn lemma_wsum_take_step(s: Seq<Order>, i: int, w: spec_fn(Order) -> int)
    requires
        0 <= i < s.len(),
    ensures
        wsum(s.take(i + 1), w) == wsum(s.take(i), w) + w(s[i]),
{
    assert(s.take(i + 1).drop_last() =~= s.take(i));
    assert(s.take(i + 1).last() == s[i]);
}

/// An order with a zero sell amount is excluded from the priceable count
/// and from both the buy and the sell sum.
pub proof fn lemma_zero_sell_excluded(s: Seq<Order>, o: Order)
    requires
        o.sell_amount == 0,
    ensures
        qual_count(s.push(o)) == qual_count(s),
        total_sell(s.push(o)) == total_sell(s),
        total_buy(s.push(o)) == total_buy(s),
{
    assert(s.push(o).drop_last() =~= s);
    assert(s.push(o).last() == o);
}

/// The clearing price depends only on which orders are present, not on
/// their arrangement.
pub proof fn lemma_clearing_price_permutation(s1: Seq<Order>, s2: Seq<Order>)
    requires
        s1.to_multiset() == s2.to_multiset(),
    ensures
        spec_clearing_price(s1) == spec_clearing_price(s2),
{
    lemma_wsum_permutation(s1, s2, count_weight());
    lemma_wsum_permutation(s1, s2, sell_weight());
    lemma_wsum_permutation(s1, s2, buy_weight());
}

/// Pricing engine computing the clearing price as the volume-weighted
/// average of individual order prices.
#[derive(Debug, Default)]
pub struct VolumeWeightedPricingEngine;

impl VolumeWeightedPricingEngine {
    /// Compute the batch's uniform clearing price.
    ///
    /// Orders with a zero sell amount cannot define a price and are left
    /// out of both sums. With fewer than two remaining orders, or zero
    /// remaining sell volume, there is no price.
    pub fn compute_clearing_price(orders: &Vec<Order>) -> (r: Option<Ratio>)
        ensures
            r == spec_clearing_price(orders@),
            qual_count(orders@) < 2 ==> r is None,
            total_sell(orders@) == 0 ==> r is None,
            qual_count(orders@) >= 2 ==> (r matches Some(p) && p == reduced(
                total_buy(orders@) as u128,
                total_sell(orders@) as u128,
            )),
    {
        let n = orders.len();
        let mut qual: usize = 0;
        let mut buy_sum: u128 = 0;
        let mut sell_sum: u128 = 0;
        let mut i: usize = 0;
        proof {
            assert(orders@.take(0) =~= Seq::<Order>::empty());
        }
        while i < n
            invariant
                n == orders@.len(),
                0 <= i <= n,
                qual == qual_count(orders@.take(i as int)),
                buy_sum == total_buy(orders@.take(i as int)),
                sell_sum == total_sell(orders@.take(i as int)),
                qual <= i,
                buy_sum <= i * 0xffff_ffff_ffff_ffff,
                sell_sum <= i * 0xffff_ffff_ffff_ffff,
            decreases n - i,
        {
            proof {
                lemma_wsum_take_step(orders@, i as int, count_weight());
                lemma_wsum_take_step(orders@, i as int, sell_weight());
                lemma_wsum_take_step(orders@, i as int, buy_weight());
                assert((i + 1) * 0xffff_ffff_ffff_ffff == i * 0xffff_ffff_ffff_ffff
                    + 0xffff_ffff_ffff_ffff) by (nonlinear_arith);
            }
            let o = &orders[i];
            if o.sell_amount > 0 {
                qual = qual + 1;
                buy_sum = buy_sum + o.buy_amount as u128;
                sell_sum = sell_sum + o.sell_amount as u128;
            }
            i = i + 1;
        }
        proof {
            assert(orders@.take(n as int) =~= orders@);
            lemma_total_sell_ge_count(orders@);
        }
        if qual < 2 {
            return None;
        }
        if sell_sum == 0 {
            return None;
        }
        Some(Ratio::new(buy_sum, sell_sum))
    }
}

} // verus!
