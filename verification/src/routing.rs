//! Routing decisions for residual volume: choose the best external
//! quote and shape the transfers of an executed swap.
//!
//! Querying and executing swaps is adapter work; what is decided here —
//! which source wins, and what transfer legs an executed swap adds to a
//! settlement — is pure and fully specified. A zero quote (or a failed
//! query, mapped to zero by the caller) means "no liquidity from this
//! source" and is skipped without aborting the rest of the routing pass.

use vstd::prelude::*;
use crate::models::{Account, Order, Transfer};

verus! {

/// Pick the winning quote: the largest positive one, earliest source
/// first on ties. No positive quote means no liquidity anywhere.
pub fn best_quote(quotes: &Vec<u64>) -> (r: Option<(usize, u64)>)
    ensures
        r is None <==> (forall|k: int| 0 <= k < quotes@.len() ==> quotes@[k] == 0),
        r matches Some((i, q)) ==> 0 <= (i as int) < quotes@.len() && quotes@[i as int] == q && q
            > 0 && (forall|k: int| 0 <= k < quotes@.len() ==> quotes@[k] <= q) && (forall|k: int|
            0 <= k < i as int ==> quotes@[k] < q),
{
    let n = quotes.len();
    let mut best: Option<(usize, u64)> = None;
    let mut k: usize = 0;
    while k < n
        invariant
            n == quotes@.len(),
            0 <= k <= n,
            best is None ==> (forall|kk: int| 0 <= kk < k ==> quotes@[kk] == 0),
            best matches Some((i, q)) ==> 0 <= (i as int) < k && quotes@[i as int] == q && q > 0
                && (forall|kk: int| 0 <= kk < k ==> quotes@[kk] <= q) && (forall|kk: int|
                0 <= kk < i as int ==> quotes@[kk] < q),
        decreases n - k,
    {
        let q = quotes[k];
        let better = match best {
            None => q > 0,
            Some((_, bq)) => q > bq,
        };
        if better {
            best = Some((k, q));
        }
        k = k + 1;
    }
    best
}

/// The two transfer legs of an executed swap: the order's owner sends
/// its full residual sell amount to the external venue and receives the
/// executed amount of the buy token back.
pub fn routed_legs(order: &Order, received: u64) -> (legs: (Transfer, Transfer))
    ensures
        legs.0 == (Transfer {
            from: Account::User(order.owner),
            to: Account::External,
            token: order.sell_token,
            amount: order.sell_amount,
        }),
        legs.1 == (Transfer {
            from: Account::External,
            to: Account::User(order.owner),
            token: order.buy_token,
            amount: received,
        }),
{
    let sell_leg = Transfer {
        from: Account::User(order.owner.clone()),
        to: Account::External,
        token: order.sell_token.clone(),
        amount: order.sell_amount,
    };
    let buy_leg = Transfer {
        from: Account::External,
        to: Account::User(order.owner.clone()),
        token: order.buy_token.clone(),
        amount: received,
    };
    (sell_leg, buy_leg)
}

} // verus!
