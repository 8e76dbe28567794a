//! Direct order matching: net opposing order pairs without external
//! liquidity.
//!
//! Two orders cross when each sells the token the other buys and each
//! side's sell amount covers what the other asks. Fills are
//! all-or-nothing: a matched pair exchanges its full sell amounts and
//! leaves no residual; an unmatched order's whole sell amount remains as
//! residual for the routing layer. Pairs are chosen greedily in input
//! order — each order is matched with the first later order still free
//! that crosses it — so the outcome is a function of the input alone.

use vstd::prelude::*;
use vstd::set::Set;
use crate::models::{available, token_key, Account, ChainId, Order, Transfer};

verus! {

/// Orders `a` and `b` are directly opposed and each covers what the
/// other asks, so they can be netted in full against each other.
pub open spec fn crossing(a: Order, b: Order) -> bool {
    &&& token_key(a.sell_token) == token_key(b.buy_token)
    &&& token_key(a.buy_token) == token_key(b.sell_token)
    &&& a.sell_amount > 0
    &&& b.sell_amount > 0
    &&& b.buy_amount <= a.sell_amount
    &&& a.buy_amount <= b.sell_amount
}

/// No two distinct orders of `s` cross.
pub open spec fn no_crossing(s: Seq<Order>) -> bool {
    forall|i: int, j: int|
        0 <= i < s.len() && 0 <= j < s.len() && i != j ==> !crossing(s[i], s[j])
}

/// The first index at or after `j`, not yet used, whose order crosses
/// order `i`.
pub open spec fn first_partner(s: Seq<Order>, i: int, used: Set<int>, j: int) -> Option<int>
    decreases s.len() - j,
{
    if j < 0 || j >= s.len() {
        None
    } else if !used.contains(j) && crossing(s[i], s[j]) {
        Some(j)
    } else {
        first_partner(s, i, used, j + 1)
    }
}

/// Greedy pair selection from index `i` on, `used` holding the indices
/// already consumed by earlier pairs.
pub open spec fn match_from(s: Seq<Order>, i: int, used: Set<int>) -> Seq<(int, int)>
    decreases s.len() - i,
{
    if i < 0 || i >= s.len() {
        Seq::empty()
    } else if used.contains(i) {
        match_from(s, i + 1, used)
    } else {
        match first_partner(s, i, used, i + 1) {
            Some(j) => seq![(i, j)] + match_from(s, i + 1, used.insert(i).insert(j)),
            None => match_from(s, i + 1, used),
        }
    }
}

/// The pairs the matching engine nets for `s`.
pub open spec fn spec_match(s: Seq<Order>) -> Seq<(int, int)> {
    match_from(s, 0, Set::empty())
}

/// All indices consumed by a list of pairs.
pub open spec fn pairs_used(pairs: Seq<(int, int)>) -> Set<int>
    decreases pairs.len(),
{
    if pairs.len() == 0 {
        Set::empty()
    } else {
        pairs_used(pairs.drop_last()).insert(pairs.last().0).insert(pairs.last().1)
    }
}

/// The two transfers realizing one matched pair: each side sends its
/// full sell amount to the other's owner.
pub open spec fn transfers_of_pair(s: Seq<Order>, p: (int, int)) -> Seq<Transfer> {
    seq![
        Transfer {
            from: Account::User(s[p.0].owner),
            to: Account::User(s[p.1].owner),
            token: s[p.0].sell_token,
            amount: s[p.0].sell_amount,
        },
        Transfer {
            from: Account::User(s[p.1].owner),
            to: Account::User(s[p.0].owner),
            token: s[p.1].sell_token,
            amount: s[p.1].sell_amount,
        },
    ]
}

/// The transfers realizing a list of pairs, in pair order.
pub open spec fn pair_transfers(s: Seq<Order>, pairs: Seq<(int, int)>) -> Seq<Transfer>
    decreases pairs.len(),
{
    if pairs.len() == 0 {
        Seq::empty()
    } else {
        pair_transfers(s, pairs.drop_last()) + transfers_of_pair(s, pairs.last())
    }
}

/// The orders of `s` below index `n` whose index is in `used`, in input
/// order.
pub open spec fn selected(s: Seq<Order>, used: Set<int>, n: int) -> Seq<Order>
    decreases n,
{
    if n <= 0 {
        Seq::empty()
    } else {
        let prev = selected(s, used, n - 1);
        if used.contains(n - 1) {
            prev.push(s[n - 1])
        } else {
            prev
        }
    }
}

/// The orders of `s` below index `n` whose index is not in `used`, in
/// input order.
pub open spec fn rejected(s: Seq<Order>, used: Set<int>, n: int) -> Seq<Order>
    decreases n,
{
    if n <= 0 {
        Seq::empty()
    } else {
        let prev = rejected(s, used, n - 1);
        if used.contains(n - 1) {
            prev
        } else {
            prev.push(s[n - 1])
        }
    }
}

/// When no two orders cross there is no partner for any order.
proof fn lemma_no_crossing_partner(s: Seq<Order>, i: int, used: Set<int>, j: int)
    requires
        no_crossing(s),
        0 <= i < s.len(),
        i < j,
    ensures
        first_partner(s, i, used, j) == None::<int>,
    decreases s.len() - j,
{
    if 0 <= j < s.len() {
        assert(!crossing(s[i], s[j]));
        lemma_no_crossing_partner(s, i, used, j + 1);
    }
}

/// When no two orders cross the matching engine selects no pairs at all.
pub proof fn lemma_no_crossing_no_pairs(s: Seq<Order>, i: int, used: Set<int>)
    requires
        no_crossing(s),
    ensures
        match_from(s, i, used) == Seq::<(int, int)>::empty(),
    decreases s.len() - i,
{
    if 0 <= i < s.len() {
        if !used.contains(i) {
            lemma_no_crossing_partner(s, i, used, i + 1);
        }
        lemma_no_crossing_no_pairs(s, i + 1, used);
    }
}

/// With nothing used, nothing is rejected: the rejection of the empty
/// set is the input itself.
proof fn lemma_rejected_empty(s: Seq<Order>, n: int)
    requires
        0 <= n <= s.len(),
    ensures
        rejected(s, Set::empty(), n) =~= s.take(n),
        selected(s, Set::empty(), n) =~= Seq::<Order>::empty(),
    decreases n,
{
    if n > 0 {
        lemma_rejected_empty(s, n - 1);
        assert(rejected(s, Set::empty(), n) =~= rejected(s, Set::empty(), n - 1).push(s[n - 1]));
    }
}

/// Every selected and every rejected order is an order of `s`.
pub proof fn lemma_partition_contains(s: Seq<Order>, used: Set<int>, n: int)
    requires
        0 <= n <= s.len(),
    ensures
        forall|k: int|
            0 <= k < selected(s, used, n).len() ==> s.contains(#[trigger] selected(s, used, n)[k]),
        forall|k: int|
            0 <= k < rejected(s, used, n).len() ==> s.contains(#[trigger] rejected(s, used, n)[k]),
    decreases n,
{
    if n > 0 {
        lemma_partition_contains(s, used, n - 1);
        let sel = selected(s, used, n);
        let prev_sel = selected(s, used, n - 1);
        let rej = rejected(s, used, n);
        let prev_rej = rejected(s, used, n - 1);
        assert forall|k: int| 0 <= k < sel.len() implies s.contains(#[trigger] sel[k]) by {
            if used.contains(n - 1) && k == sel.len() - 1 {
                assert(sel[k] == s[n - 1]);
            } else {
                assert(sel[k] == prev_sel[k]);
            }
        }
        assert forall|k: int| 0 <= k < rej.len() implies s.contains(#[trigger] rej[k]) by {
            if !used.contains(n - 1) && k == rej.len() - 1 {
                assert(rej[k] == s[n - 1]);
            } else {
                assert(rej[k] == prev_rej[k]);
            }
        }
    }
}

/// Selected and rejected orders together are exactly the first `n`
/// orders: the matching engine consumes each order at most once.
pub proof fn lemma_partition_multiset(s: Seq<Order>, used: Set<int>, n: int)
    requires
        0 <= n <= s.len(),
    ensures
        selected(s, used, n).to_multiset().add(rejected(s, used, n).to_multiset())
            =~= s.take(n).to_multiset(),
    decreases n,
{
    broadcast use vstd::seq_lib::group_to_multiset_ensures;
    broadcast use vstd::multiset::group_multiset_axioms;

    if n > 0 {
        lemma_partition_multiset(s, used, n - 1);
        assert(s.take(n) =~= s.take(n - 1).push(s[n - 1]));
        if used.contains(n - 1) {
            assert(selected(s, used, n) == selected(s, used, n - 1).push(s[n - 1]));
        } else {
            assert(rejected(s, used, n) == rejected(s, used, n - 1).push(s[n - 1]));
        }
    }
}

/// A found partner lies between `j` and the end, is free, and crosses
/// order `i`.
proof fn lemma_first_partner_props(s: Seq<Order>, i: int, used: Set<int>, j: int)
    requires
        first_partner(s, i, used, j) is Some,
    ensures
        ({
            let p = first_partner(s, i, used, j)->0;
            j <= p < s.len() && !used.contains(p) && crossing(s[i], s[p])
        }),
    decreases s.len() - j,
{
    if 0 <= j < s.len() {
        if !used.contains(j) && crossing(s[i], s[j]) {
        } else {
            lemma_first_partner_props(s, i, used, j + 1);
        }
    }
}

/// The indices a concatenation of pair lists uses are the union of what
/// each part uses.
proof fn lemma_pairs_used_concat(a: Seq<(int, int)>, b: Seq<(int, int)>)
    ensures
        pairs_used(a + b) =~= pairs_used(a).union(pairs_used(b)),
    decreases b.len(),
{
    if b.len() == 0 {
        assert(a + b =~= a);
    } else {
        assert((a + b).drop_last() =~= a + b.drop_last());
        assert((a + b).last() == b.last());
        lemma_pairs_used_concat(a, b.drop_last());
    }
}

/// Every index the greedy matcher consumes lies at or after its
/// starting point, inside the sequence, and outside what was already
/// used.
proof fn lemma_match_from_fresh(s: Seq<Order>, i: int, used: Set<int>)
    ensures
        forall|k: int|
            #[trigger] pairs_used(match_from(s, i, used)).contains(k) ==> i <= k < s.len()
                && !used.contains(k),
    decreases s.len() - i,
{
    if 0 <= i < s.len() {
        if used.contains(i) {
            lemma_match_from_fresh(s, i + 1, used);
            assert(match_from(s, i, used) == match_from(s, i + 1, used));
        } else {
            match first_partner(s, i, used, i + 1) {
                Some(j) => {
                    lemma_first_partner_props(s, i, used, i + 1);
                    let used2 = used.insert(i).insert(j);
                    let rest = match_from(s, i + 1, used2);
                    lemma_match_from_fresh(s, i + 1, used2);
                    let single: Seq<(int, int)> = seq![(i, j)];
                    lemma_pairs_used_concat(single, rest);
                    assert(single.len() == 1 && single.last() == (i, j));
                    assert(single.drop_last().len() == 0);
                    assert(pairs_used(single.drop_last()) =~= Set::<int>::empty());
                    assert(pairs_used(single) =~= Set::<int>::empty().insert(i).insert(j));
                    assert(single + rest == match_from(s, i, used));
                    assert forall|k: int| #[trigger]
                        pairs_used(match_from(s, i, used)).contains(k) implies i <= k < s.len()
                        && !used.contains(k) by {
                        if k != i && k != j {
                            assert(pairs_used(rest).contains(k));
                        }
                    }
                },
                None => {
                    lemma_match_from_fresh(s, i + 1, used);
                    assert(match_from(s, i, used) == match_from(s, i + 1, used));
                },
            }
        }
    }
}

/// Outgoing sums split over a concatenation of transfer lists.
proof fn lemma_outgoing_concat(a: Seq<Transfer>, b: Seq<Transfer>, key: (Seq<char>, ChainId))
    ensures
        crate::models::outgoing(a + b, key) == crate::models::outgoing(a, key)
            + crate::models::outgoing(b, key),
    decreases b.len(),
{
    if b.len() == 0 {
        assert(a + b =~= a);
    } else {
        assert((a + b).drop_last() =~= a + b.drop_last());
        assert((a + b).last() == b.last());
        lemma_outgoing_concat(a, b.drop_last(), key);
    }
}

/// Pair transfers split over a concatenation of pair lists.
proof fn lemma_pair_transfers_concat(s: Seq<Order>, a: Seq<(int, int)>, b: Seq<(int, int)>)
    ensures
        pair_transfers(s, a + b) == pair_transfers(s, a) + pair_transfers(s, b),
    decreases b.len(),
{
    if b.len() == 0 {
        assert(a + b =~= a);
        assert(pair_transfers(s, a) + pair_transfers(s, b) =~= pair_transfers(s, a));
    } else {
        assert((a + b).drop_last() =~= a + b.drop_last());
        assert((a + b).last() == b.last());
        lemma_pair_transfers_concat(s, a, b.drop_last());
        assert(pair_transfers(s, a) + pair_transfers(s, b.drop_last()) + transfers_of_pair(
            s,
            b.last(),
        ) =~= pair_transfers(s, a) + (pair_transfers(s, b.drop_last()) + transfers_of_pair(
            s,
            b.last(),
        )));
    }
}

/// What one order contributes to the sums for token `key`.
spec fn sell_contribution(s: Seq<Order>, i: int, key: (Seq<char>, ChainId)) -> int {
    if token_key(s[i].sell_token) == key {
        s[i].sell_amount as int
    } else {
        0
    }
}

/// Indices at or past the cut-off do not change the selection below it.
proof fn lemma_selected_high_insert(s: Seq<Order>, used: Set<int>, i: int, n: int)
    requires
        n <= i,
    ensures
        selected(s, used.insert(i), n) == selected(s, used, n),
    decreases n,
{
    if n > 0 {
        lemma_selected_high_insert(s, used, i, n - 1);
    }
}

/// Marking one more index as selected adds exactly that order's
/// contribution to the available volume.
proof fn lemma_selected_insert_one(
    s: Seq<Order>,
    used: Set<int>,
    i: int,
    n: int,
    key: (Seq<char>, ChainId),
)
    requires
        0 <= i < n <= s.len(),
        !used.contains(i),
    ensures
        available(selected(s, used.insert(i), n), key) == available(selected(s, used, n), key)
            + sell_contribution(s, i, key),
    decreases n,
{
    let used2 = used.insert(i);
    if i == n - 1 {
        lemma_selected_high_insert(s, used, i, n - 1);
        assert(selected(s, used2, n) == selected(s, used2, n - 1).push(s[n - 1]));
        assert(selected(s, used, n) == selected(s, used, n - 1));
        assert(selected(s, used2, n - 1).push(s[n - 1]).drop_last() =~= selected(s, used2, n - 1));
    } else {
        lemma_selected_insert_one(s, used, i, n - 1, key);
        if used.contains(n - 1) {
            assert(selected(s, used2, n) == selected(s, used2, n - 1).push(s[n - 1]));
            assert(selected(s, used, n) == selected(s, used, n - 1).push(s[n - 1]));
            assert(selected(s, used2, n - 1).push(s[n - 1]).drop_last() =~= selected(
                s,
                used2,
                n - 1,
            ));
            assert(selected(s, used, n - 1).push(s[n - 1]).drop_last() =~= selected(
                s,
                used,
                n - 1,
            ));
        }
    }
}

/// The two transfers of one pair move exactly the pair's sell amounts
/// out of user accounts.
proof fn lemma_pair_outgoing(s: Seq<Order>, p: (int, int), key: (Seq<char>, ChainId))
    ensures
        crate::models::outgoing(transfers_of_pair(s, p), key) == sell_contribution(s, p.0, key) + sell_contribution(
            s,
            p.1,
            key,
        ),
{
    let ts = transfers_of_pair(s, p);
    assert(ts.len() == 2);
    assert(ts[0].from is User && ts[0].token == s[p.0].sell_token && ts[0].amount == s[
        p.0].sell_amount);
    assert(ts[1].from is User && ts[1].token == s[p.1].sell_token && ts[1].amount == s[
        p.1].sell_amount);
    let shorter = ts.drop_last();
    assert(shorter.drop_last() =~= Seq::<Transfer>::empty());
    assert(shorter.last() == ts[0]);
    assert(ts.last() == ts[1]);
    assert(crate::models::outgoing(Seq::<Transfer>::empty(), key) == 0);
    assert(crate::models::outgoing(shorter, key) == sell_contribution(s, p.0, key));
}

/// The greedy matcher's transfers move, for every token, exactly the
/// volume that its matched orders make available: matched flows
/// conserve every token with nothing to spare.
proof fn lemma_match_from_conserves(s: Seq<Order>, i: int, used: Set<int>, key: (Seq<char>, ChainId))
    ensures
        crate::models::outgoing(pair_transfers(s, match_from(s, i, used)), key) == available(
            selected(s, pairs_used(match_from(s, i, used)), s.len() as int),
            key,
        ),
    decreases s.len() - i,
{
    let n = s.len() as int;
    if 0 <= i < s.len() {
        if used.contains(i) {
            lemma_match_from_conserves(s, i + 1, used, key);
        } else {
            match first_partner(s, i, used, i + 1) {
                Some(j) => {
                    lemma_first_partner_props(s, i, used, i + 1);
                    let used2 = used.insert(i).insert(j);
                    let rest = match_from(s, i + 1, used2);
                    let all = match_from(s, i, used);
                    assert(all == seq![(i, j)] + rest);
                    lemma_match_from_conserves(s, i + 1, used2, key);
                    let single: Seq<(int, int)> = seq![(i, j)];
                    lemma_pair_transfers_concat(s, single, rest);
                    assert(single.len() == 1 && single.last() == (i, j));
                    assert(single.drop_last().len() == 0);
                    assert(pair_transfers(s, single.drop_last()) =~= Seq::<Transfer>::empty());
                    assert(pair_transfers(s, single) =~= transfers_of_pair(s, (i, j)));
                    lemma_outgoing_concat(transfers_of_pair(s, (i, j)), pair_transfers(s, rest), key);
                    lemma_pair_outgoing(s, (i, j), key);
                    lemma_pairs_used_concat(single, rest);
                    assert(pairs_used(single.drop_last()) =~= Set::<int>::empty());
                    assert(pairs_used(single) =~= Set::<int>::empty().insert(i).insert(j));
                    let ru = pairs_used(rest);
                    lemma_match_from_fresh(s, i + 1, used2);
                    assert(!ru.contains(i) && !ru.contains(j));
                    assert(pairs_used(all) =~= ru.insert(j).insert(i));
                    lemma_selected_insert_one(s, ru, j, n, key);
                    lemma_selected_insert_one(s, ru.insert(j), i, n, key);
                },
                None => {
                    lemma_match_from_conserves(s, i + 1, used, key);
                },
            }
        }
    } else {
        assert(match_from(s, i, used) == Seq::<(int, int)>::empty());
        assert(pairs_used(Seq::<(int, int)>::empty()) =~= Set::<int>::empty());
        lemma_selected_none(s, n, key);
    }
}

/// Selecting nothing makes nothing available.
proof fn lemma_selected_none(s: Seq<Order>, n: int, key: (Seq<char>, ChainId))
    requires
        0 <= n,
    ensures
        available(selected(s, Set::empty(), n), key) == 0,
    decreases n,
{
    if n > 0 {
        lemma_selected_none(s, n - 1, key);
    }
}

/// For every batch, the matching engine's transfers conserve each
/// token exactly: what leaves user accounts equals what the matched
/// orders make available.
pub proof fn lemma_matched_flows_conserve(s: Seq<Order>)
    ensures
        forall|key: (Seq<char>, ChainId)| #[trigger]
            crate::models::outgoing(pair_transfers(s, spec_match(s)), key) == available(
                selected(s, pairs_used(spec_match(s)), s.len() as int),
                key,
            ),
{
    assert forall|key: (Seq<char>, ChainId)| #[trigger]
        crate::models::outgoing(pair_transfers(s, spec_match(s)), key) == available(
            selected(s, pairs_used(spec_match(s)), s.len() as int),
            key,
        ) by {
        lemma_match_from_conserves(s, 0, Set::empty(), key);
    }
}

/// The indices of `flags` that are set.
pub open spec fn flag_set(m: Seq<bool>) -> Set<int> {
    Set::new(|k: int| 0 <= k < m.len() && m[k])
}

/// What the matching engine produced for one batch: the netting
/// transfers, the orders they settle, and the unmatched residual.
pub struct MatchOutcome {
    pub transfers: Vec<Transfer>,
    pub matched: Vec<Order>,
    pub residual: Vec<Order>,
}

/// Net directly-opposing order pairs, greedily in input order.
///
/// Returns the transfers exchanging the matched pairs' full sell
/// amounts, the matched orders themselves, and the unmatched residual
/// orders whose whole sell amount remains for routing.
pub fn match_orders(orders: &Vec<Order>) -> (out: MatchOutcome)
    ensures
        out.transfers@ == pair_transfers(orders@, spec_match(orders@)),
        out.matched@ == selected(orders@, pairs_used(spec_match(orders@)), orders@.len() as int),
        out.residual@ == rejected(orders@, pairs_used(spec_match(orders@)), orders@.len() as int),
        no_crossing(orders@) ==> out.transfers@.len() == 0 && out.matched@.len() == 0
            && out.residual@ == orders@,
{
    let ghost s = orders@;
    let n = orders.len();
    let mut flags: Vec<bool> = Vec::new();
    let mut f: usize = 0;
    while f < n
        invariant
            0 <= f <= n,
            flags@.len() == f,
            forall|k: int| 0 <= k < f ==> !(#[trigger] flags@[k]),
        decreases n - f,
    {
        flags.push(false);
        f = f + 1;
    }
    let mut transfers: Vec<Transfer> = Vec::new();
    let ghost mut pairs_done: Seq<(int, int)> = Seq::empty();
    proof {
        assert(flag_set(flags@) =~= Set::<int>::empty());
        assert(pairs_used(pairs_done) =~= Set::<int>::empty());
    }
    let mut i: usize = 0;
    while i < n
        invariant
            orders@ == s,
            n == s.len(),
            0 <= i <= n,
            flags@.len() == n,
            flag_set(flags@) == pairs_used(pairs_done),
            spec_match(s) == pairs_done + match_from(s, i as int, flag_set(flags@)),
            transfers@ == pair_transfers(s, pairs_done),
        decreases n - i,
    {
        if !flags[i] {
            let mut j: usize = i + 1;
            let mut partner: Option<usize> = None;
            while j < n && partner.is_none()
                invariant
                    orders@ == s,
                    n == s.len(),
                    0 <= i < n,
                    i + 1 <= j <= n,
                    flags@.len() == n,
                    partner is None ==> first_partner(s, i as int, flag_set(flags@), i as int + 1)
                        == first_partner(s, i as int, flag_set(flags@), j as int),
                    partner matches Some(jj) ==> i < jj < n && jj == j && first_partner(
                        s,
                        i as int,
                        flag_set(flags@),
                        i as int + 1,
                    ) == Some(jj as int),
                decreases n - j, (if partner is None { 1int } else { 0int }),
            {
                let free = !flags[j];
                let a = &orders[i];
                let b = &orders[j];
                let sell_matches = a.sell_token.same_asset(&b.buy_token);
                let buy_matches = a.buy_token.same_asset(&b.sell_token);
                let covers = b.buy_amount <= a.sell_amount && a.buy_amount <= b.sell_amount;
                let positive = a.sell_amount > 0 && b.sell_amount > 0;
                if free && sell_matches && buy_matches && covers && positive {
                    assert(crossing(s[i as int], s[j as int]));
                    partner = Some(j);
                } else {
                    assert(first_partner(s, i as int, flag_set(flags@), j as int)
                        == first_partner(s, i as int, flag_set(flags@), j as int + 1));
                    j = j + 1;
                }
            }
            match partner {
                Some(jj) => {
                    let ghost used_before = flag_set(flags@);
                    let a_owner = orders[i].owner.clone();
                    let b_owner = orders[jj].owner.clone();
                    let t1 = Transfer {
                        from: Account::User(a_owner.clone()),
                        to: Account::User(b_owner.clone()),
                        token: orders[i].sell_token.clone(),
                        amount: orders[i].sell_amount,
                    };
                    let t2 = Transfer {
                        from: Account::User(b_owner),
                        to: Account::User(a_owner),
                        token: orders[jj].sell_token.clone(),
                        amount: orders[jj].sell_amount,
                    };
                    transfers.push(t1);
                    transfers.push(t2);
                    flags.set(i, true);
                    flags.set(jj, true);
                    proof {
                        let pr = (i as int, jj as int);
                        assert(match_from(s, i as int, used_before) == seq![pr] + match_from(
                            s,
                            i as int + 1,
                            used_before.insert(i as int).insert(jj as int),
                        ));
                        assert(flag_set(flags@) =~= used_before.insert(i as int).insert(
                            jj as int,
                        ));
                        let old_pairs = pairs_done;
                        pairs_done = pairs_done.push(pr);
                        assert(pairs_done.drop_last() =~= old_pairs);
                        assert(pairs_used(pairs_done) =~= pairs_used(old_pairs).insert(
                            i as int,
                        ).insert(jj as int));
                        assert(pair_transfers(s, pairs_done) =~= pair_transfers(s, old_pairs)
                            + transfers_of_pair(s, pr));
                        assert(transfers@ =~= pair_transfers(s, pairs_done));
                        assert(pairs_done + match_from(s, i as int + 1, flag_set(flags@))
                            =~= old_pairs + match_from(s, i as int, used_before));
                    }
                },
                None => {
                    proof {
                        assert(first_partner(s, i as int, flag_set(flags@), i as int + 1)
                            == None::<int>);
                        assert(match_from(s, i as int, flag_set(flags@)) == match_from(
                            s,
                            i as int + 1,
                            flag_set(flags@),
                        ));
                    }
                },
            }
        } else {
            proof {
                assert(flag_set(flags@).contains(i as int));
                assert(match_from(s, i as int, flag_set(flags@)) == match_from(
                    s,
                    i as int + 1,
                    flag_set(flags@),
                ));
            }
        }
        i = i + 1;
    }
    proof {
        assert(match_from(s, n as int, flag_set(flags@)) == Seq::<(int, int)>::empty());
        assert(spec_match(s) =~= pairs_done);
    }
    let ghost used = pairs_used(spec_match(s));
    let mut matched: Vec<Order> = Vec::new();
    let mut residual: Vec<Order> = Vec::new();
    let mut k: usize = 0;
    while k < n
        invariant
            orders@ == s,
            n == s.len(),
            0 <= k <= n,
            flags@.len() == n,
            flag_set(flags@) == used,
            matched@ == selected(s, used, k as int),
            residual@ == rejected(s, used, k as int),
        decreases n - k,
    {
        proof {
            assert(flag_set(flags@).contains(k as int) == flags@[k as int]);
        }
        if flags[k] {
            let o = orders[k].clone();
            matched.push(o);
        } else {
            let o = orders[k].clone();
            residual.push(o);
        }
        k = k + 1;
    }
    proof {
        if no_crossing(s) {
            lemma_no_crossing_no_pairs(s, 0, Set::empty());
            assert(pairs_used(spec_match(s)) =~= Set::<int>::empty());
            lemma_rejected_empty(s, n as int);
            assert(s.take(n as int) =~= s);
        }
    }
    MatchOutcome { transfers, matched, residual }
}

} // verus!
