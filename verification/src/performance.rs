//! Order normalization: deduplicate a raw order collection by id and put
//! it into canonical id order before any economic computation.
//!
//! For every set of orders sharing an id exactly one survives: the one
//! with the earliest expiration, ties broken by input position. The
//! result is sorted by id ascending, so a normalized collection is a
//! function of the input alone and normalizing twice changes nothing.

use vstd::prelude::*;
use vstd::multiset::Multiset;
use crate::models::Order;

verus! {

/// Order `i` survives deduplication: among all orders sharing its id it
/// has the earliest expiration, with ties broken by input position.
pub open spec fn wins(s: Seq<Order>, i: int) -> bool {
    &&& 0 <= i < s.len()
    &&& forall|j: int|
        0 <= j < s.len() && j != i && (#[trigger] s[j]).id == s[i].id ==> (s[i].expiration
            < s[j].expiration || (s[i].expiration == s[j].expiration && i < j))
}

/// The surviving orders among the first `n` of `s`, in input order.
pub open spec fn survivors_upto(s: Seq<Order>, n: int) -> Seq<Order>
    decreases n,
{
    if n <= 0 {
        Seq::empty()
    } else {
        let prev = survivors_upto(s, n - 1);
        if wins(s, n - 1) {
            prev.push(s[n - 1])
        } else {
            prev
        }
    }
}

/// The surviving orders of `s`, in input order.
pub open spec fn survivors(s: Seq<Order>) -> Seq<Order> {
    survivors_upto(s, s.len() as int)
}

/// No two orders of `s` share an id.
pub open spec fn unique_ids(s: Seq<Order>) -> bool {
    forall|p: int, q: int|
        0 <= p < q < s.len() ==> (#[trigger] s[p]).id != (#[trigger] s[q]).id
}

/// Sorted by id, ascending.
pub open spec fn id_sorted(s: Seq<Order>) -> bool {
    forall|p: int, q: int|
        0 <= p < q < s.len() ==> (#[trigger] s[p]).id <= (#[trigger] s[q]).id
}

/// Insert an order into an id-sorted sequence, keeping it sorted.
pub open spec fn insert_by_id(s: Seq<Order>, o: Order) -> Seq<Order>
    decreases s.len(),
{
    if s.len() == 0 {
        seq![o]
    } else if o.id <= s[0].id {
        seq![o] + s
    } else {
        seq![s[0]] + insert_by_id(s.drop_first(), o)
    }
}

/// Sort a sequence of orders by id, ascending.
pub open spec fn sort_ids(s: Seq<Order>) -> Seq<Order>
    decreases s.len(),
{
    if s.len() == 0 {
        Seq::empty()
    } else {
        insert_by_id(sort_ids(s.drop_first()), s[0])
    }
}

/// The normalized form of an order collection: its survivors, by id.
pub open spec fn spec_normalize(s: Seq<Order>) -> Seq<Order> {
    sort_ids(survivors(s))
}

proof fn lemma_insert_by_id_props(s: Seq<Order>, o: Order)
    requires
        id_sorted(s),
    ensures
        id_sorted(insert_by_id(s, o)),
        insert_by_id(s, o).to_multiset() == s.to_multiset().insert(o),
        insert_by_id(s, o).len() == s.len() + 1,
    decreases s.len(),
{
    broadcast use vstd::seq_lib::group_to_multiset_ensures;
    broadcast use vstd::seq_lib::lemma_multiset_commutative;
    broadcast use vstd::multiset::group_multiset_axioms;

    let r = insert_by_id(s, o);
    if s.len() == 0 {
        assert(r =~= Seq::empty().push(o));
        assert(r.to_multiset() =~= s.to_multiset().insert(o));
    } else if o.id <= s[0].id {
        assert(r =~= seq![o] + s);
        assert(seq![o] =~= Seq::empty().push(o));
        assert(seq![o].to_multiset() =~= Multiset::empty().insert(o));
        assert(r.to_multiset() =~= s.to_multiset().insert(o));
        assert forall|p: int, q: int| 0 <= p < q < r.len() implies r[p].id <= r[q].id by {
            if p > 0 {
                assert(r[p] == s[p - 1] && r[q] == s[q - 1]);
            }
        }
    } else {
        let tail = s.drop_first();
        lemma_insert_by_id_props(tail, o);
        let rt = insert_by_id(tail, o);
        assert(r =~= seq![s[0]] + rt);
        assert(seq![s[0]].to_multiset() =~= Multiset::empty().insert(s[0]));
        assert(s =~= seq![s[0]] + tail);
        assert(s.to_multiset() =~= seq![s[0]].to_multiset().add(tail.to_multiset()));
        assert(r.to_multiset() =~= seq![s[0]].to_multiset().add(rt.to_multiset()));
        assert(r.to_multiset() =~= s.to_multiset().insert(o));
        assert forall|p: int, q: int| 0 <= p < q < r.len() implies r[p].id <= r[q].id by {
            if p == 0 {
                // every element of rt is an element of tail or is o,
                // and all of those have id at least s[0].id
                assert(rt.to_multiset().count(r[q]) > 0);
                assert(rt.contains(r[q]));
                if r[q] == o {
                } else {
                    assert(tail.to_multiset().count(r[q]) > 0);
                    assert(tail.contains(r[q]));
                    let w = choose|w: int| 0 <= w < tail.len() && tail[w] == r[q];
                    assert(s[0].id <= s[w + 1].id);
                }
            } else {
                assert(r[p] == rt[p - 1] && r[q] == rt[q - 1]);
            }
        }
    }
}

proof fn lemma_sort_ids_props(s: Seq<Order>)
    ensures
        id_sorted(sort_ids(s)),
        sort_ids(s).to_multiset() == s.to_multiset(),
        sort_ids(s).len() == s.len(),
    decreases s.len(),
{
    broadcast use vstd::seq_lib::group_to_multiset_ensures;
    broadcast use vstd::multiset::group_multiset_axioms;

    if s.len() > 0 {
        let tail = s.drop_first();
        lemma_sort_ids_props(tail);
        lemma_insert_by_id_props(sort_ids(tail), s[0]);
        assert(tail =~= s.remove(0));
        assert(s.remove(0).to_multiset() == s.to_multiset().remove(s[0]));
        assert(s.contains(s[0]));
        assert(s.to_multiset().count(s[0]) > 0);
        assert(sort_ids(s).to_multiset() =~= s.to_multiset());
    }
}

/// Two orders of `s` that win with the same id would each have to expire
/// strictly before the other, so all survivors carry distinct ids. Each
/// survivor is an order of `s` at a winning index.
proof fn lemma_survivors_upto_props(s: Seq<Order>, n: int)
    requires
        0 <= n <= s.len(),
    ensures
        unique_ids(survivors_upto(s, n)),
        forall|p: int|
            0 <= p < survivors_upto(s, n).len() ==> exists|i: int|
                0 <= i < n && wins(s, i) && s[i] == #[trigger] survivors_upto(s, n)[p],
    decreases n,
{
    if n > 0 {
        lemma_survivors_upto_props(s, n - 1);
        let prev = survivors_upto(s, n - 1);
        let sv = survivors_upto(s, n);
        assert forall|p: int|
            0 <= p < sv.len() implies exists|i: int|
                0 <= i < n && wins(s, i) && s[i] == #[trigger] sv[p] by {
            if p < prev.len() {
                assert(sv[p] == prev[p]);
                let i = choose|i: int| 0 <= i < n - 1 && wins(s, i) && s[i] == prev[p];
                assert(0 <= i < n && wins(s, i) && s[i] == sv[p]);
            } else {
                assert(wins(s, n - 1) && sv[p] == s[n - 1]);
                assert(0 <= n - 1 < n && wins(s, n - 1) && s[n - 1] == sv[p]);
            }
        }
        if wins(s, n - 1) {
            assert forall|p: int, q: int|
                0 <= p < q < sv.len() implies (#[trigger] sv[p]).id != (#[trigger] sv[q]).id by {
                if q < prev.len() {
                    assert(sv[p] == prev[p] && sv[q] == prev[q]);
                } else {
                    assert(sv[q] == s[n - 1]);
                    assert(sv[p] == prev[p]);
                    let i = choose|i: int| 0 <= i < n - 1 && wins(s, i) && s[i] == prev[p];
                    if s[i].id == s[n - 1].id {
                        // wins(s, i) beats index n - 1, wins(s, n - 1) beats
                        // index i: impossible both ways round
                        assert(s[i].expiration < s[n - 1].expiration || (s[i].expiration == s[n
                            - 1].expiration && i < n - 1));
                        assert(s[n - 1].expiration < s[i].expiration || (s[n - 1].expiration
                            == s[i].expiration && n - 1 < i));
                        assert(false);
                    }
                }
            }
        }
    }
}

/// Distinct ids survive any rearrangement.
proof fn lemma_unique_ids_permutation(s1: Seq<Order>, s2: Seq<Order>)
    requires
        s1.to_multiset() == s2.to_multiset(),
        unique_ids(s1),
    ensures
        unique_ids(s2),
{
    broadcast use vstd::seq_lib::group_to_multiset_ensures;

    assert(s1.no_duplicates()) by {
        assert forall|p: int, q: int|
            0 <= p < s1.len() && 0 <= q < s1.len() && p != q implies s1[p] != s1[q] by {
            if p < q {
                assert(s1[p].id != s1[q].id);
            } else {
                assert(s1[q].id != s1[p].id);
            }
        }
    }
    s1.lemma_multiset_has_no_duplicates();
    s2.lemma_multiset_has_no_duplicates_conv();
    assert forall|p: int, q: int|
        0 <= p < q < s2.len() implies (#[trigger] s2[p]).id != (#[trigger] s2[q]).id by {
        assert(s2[p] != s2[q]);
        assert(s2.contains(s2[p]) && s2.contains(s2[q]));
        assert(s1.to_multiset().count(s2[p]) > 0 && s1.to_multiset().count(s2[q]) > 0);
        assert(s1.contains(s2[p]) && s1.contains(s2[q]));
        let a = choose|a: int| 0 <= a < s1.len() && s1[a] == s2[p];
        let b = choose|b: int| 0 <= b < s1.len() && s1[b] == s2[q];
        assert(a != b);
        if a < b {
            assert(s1[a].id != s1[b].id);
        } else {
            assert(s1[b].id != s1[a].id);
        }
    }
}

/// An id-sorted arrangement of orders with distinct ids is unique.
proof fn lemma_id_sorted_unique(s1: Seq<Order>, s2: Seq<Order>)
    requires
        s1.to_multiset() == s2.to_multiset(),
        id_sorted(s1),
        id_sorted(s2),
        unique_ids(s1),
    ensures
        s1 == s2,
    decreases s1.len(),
{
    broadcast use vstd::seq_lib::group_to_multiset_ensures;
    broadcast use vstd::multiset::group_multiset_axioms;

    if s1.len() == 0 {
        assert(s2.to_multiset().len() == 0);
        assert(s1 =~= s2);
    } else {
        assert(s1.len() == s1.to_multiset().len());
        assert(s2.len() == s1.len());
        assert(s1.contains(s1[0]) && s2.contains(s2[0]));
        assert(s2.to_multiset().count(s1[0]) > 0);
        assert(s2.contains(s1[0]));
        assert(s1.to_multiset().count(s2[0]) > 0);
        assert(s1.contains(s2[0]));
        let q = choose|q: int| 0 <= q < s1.len() && s1[q] == s2[0];
        let p = choose|p: int| 0 <= p < s2.len() && s2[p] == s1[0];
        if q != 0 && p != 0 {
            assert(s1[0].id <= s1[q].id);
            assert(s2[0].id <= s2[p].id);
            assert(s1[0].id == s1[q].id);
            assert(false);
        }
        assert(s1[0] == s2[0]);
        let t1 = s1.drop_first();
        let t2 = s2.drop_first();
        assert(t1 =~= s1.remove(0));
        assert(t2 =~= s2.remove(0));
        assert(t1.to_multiset() == s1.to_multiset().remove(s1[0]));
        assert(t2.to_multiset() == s2.to_multiset().remove(s2[0]));
        assert forall|a: int, b: int|
            0 <= a < b < t1.len() implies (#[trigger] t1[a]).id != (#[trigger] t1[b]).id by {
            assert(t1[a] == s1[a + 1] && t1[b] == s1[b + 1]);
        }
        assert forall|a: int, b: int|
            0 <= a < b < t1.len() implies (#[trigger] t1[a]).id <= (#[trigger] t1[b]).id by {
            assert(t1[a] == s1[a + 1] && t1[b] == s1[b + 1]);
        }
        assert forall|a: int, b: int|
            0 <= a < b < t2.len() implies (#[trigger] t2[a]).id <= (#[trigger] t2[b]).id by {
            assert(t2[a] == s2[a + 1] && t2[b] == s2[b + 1]);
        }
        lemma_id_sorted_unique(t1, t2);
        assert forall|i: int| 0 <= i < s1.len() implies s1[i] == s2[i] by {
            if i > 0 {
                assert(t1[i - 1] == s1[i] && t2[i - 1] == s2[i]);
            }
        }
        assert(s1 =~= s2);
    }
}

/// The survivors of `s` all carry distinct ids.
pub proof fn lemma_survivors_unique(s: Seq<Order>)
    ensures
        unique_ids(survivors(s)),
{
    lemma_survivors_upto_props(s, s.len() as int);
}

/// Normalization is idempotent: a normalized collection normalizes to
/// itself.
pub proof fn lemma_normalize_idempotent(s: Seq<Order>)
    ensures
        spec_normalize(spec_normalize(s)) == spec_normalize(s),
{
    let m = spec_normalize(s);
    lemma_survivors_unique(s);
    lemma_sort_ids_props(survivors(s));
    lemma_unique_ids_permutation(survivors(s), m);
    // with all ids distinct every order wins, so survivors(m) is m itself
    lemma_all_win_prefix(m, m.len() as int);
    assert(survivors(m) =~= m.take(m.len() as int));
    assert(m.take(m.len() as int) =~= m);
    lemma_sort_ids_props(m);
    lemma_unique_ids_permutation(survivors(s), sort_ids(m));
    lemma_id_sorted_unique(sort_ids(m), m);
}

/// In a collection with distinct ids every order wins, so the survivor
/// prefix is the prefix itself.
proof fn lemma_all_win_prefix(m: Seq<Order>, k: int)
    requires
        unique_ids(m),
        0 <= k <= m.len(),
    ensures
        survivors_upto(m, k) =~= m.take(k),
    decreases k,
{
    if k > 0 {
        lemma_all_win_prefix(m, k - 1);
        assert(wins(m, k - 1)) by {
            assert forall|j: int|
                0 <= j < m.len() && j != k - 1 && (#[trigger] m[j]).id == m[k - 1].id implies m[k
                - 1].expiration < m[j].expiration || (m[k - 1].expiration == m[j].expiration && k
                - 1 < j) by {
                if j < k - 1 {
                    assert(m[j].id != m[k - 1].id);
                } else {
                    assert(m[k - 1].id != m[j].id);
                }
            }
        }
        assert(survivors_upto(m, k) =~= survivors_upto(m, k - 1).push(m[k - 1]));
    }
}

/// One step of insertion sort: removing the element at `k` and putting
/// it back at its position `p` keeps the contents and sorts the prefix
/// one element further.
#[verifier::rlimit(60)]
proof fn lemma_sorted_insert_step(pre: Seq<Order>, k: int, p: int)
    requires
        0 <= p <= k < pre.len(),
        id_sorted(pre.remove(k).take(k)),
        forall|q: int| p <= q < k ==> (#[trigger] pre.remove(k)[q]).id > pre[k].id,
        p > 0 ==> pre.remove(k)[p - 1].id <= pre[k].id,
    ensures
        pre.remove(k).insert(p, pre[k]).to_multiset() == pre.to_multiset(),
        id_sorted(pre.remove(k).insert(p, pre[k]).take(k + 1)),
        pre.remove(k).insert(p, pre[k]).len() == pre.len(),
{
    broadcast use vstd::seq_lib::group_to_multiset_ensures;
    broadcast use vstd::seq_lib::to_multiset_insert;
    broadcast use vstd::multiset::group_multiset_axioms;

    let x = pre[k];
    let rem = pre.remove(k);
    let w = rem.insert(p, x);
    assert(rem.to_multiset() == pre.to_multiset().remove(x));
    assert(pre.contains(pre[k]));
    assert(pre.to_multiset().count(x) > 0);
    assert(w.to_multiset() == rem.to_multiset().insert(x));
    assert(w.to_multiset() =~= pre.to_multiset());
    rem.insert_ensures(p, x);
    assert forall|a: int, b: int|
        0 <= a < b <= k implies (#[trigger] w[a]).id <= (#[trigger] w[b]).id by {
        assert(forall|c: int, d: int|
            0 <= c < d < k ==> (#[trigger] rem[c]).id <= (#[trigger] rem[d]).id) by {
            assert(forall|c: int| 0 <= c < k ==> rem.take(k)[c] == #[trigger] rem[c]);
        }
        if a < p {
            assert(w[a] == rem[a]);
        } else if a == p {
            assert(w[a] == x);
        } else {
            assert(w[a] == rem[a - 1]);
        }
        if b < p {
            assert(w[b] == rem[b]);
        } else if b == p {
            assert(w[b] == x);
        } else {
            assert(w[b] == rem[b - 1]);
        }
        if b == p && a < p {
            assert(rem[a].id <= rem[p - 1].id);
            assert(rem[p - 1].id <= x.id);
        }
        if a == p && b > p {
            assert(rem[b - 1].id > x.id);
        }
    }
    assert forall|a: int, b: int|
        0 <= a < b < k + 1 implies (#[trigger] w.take(k + 1)[a]).id <= (#[trigger] w.take(k + 1)[
        b]).id by {
        assert(w.take(k + 1)[a] == w[a] && w.take(k + 1)[b] == w[b]);
    }
}

/// Deduplicate and canonically order a batch of orders.
///
/// For each id exactly one order survives — the one with the earliest
/// expiration, ties broken by input position — and the result is sorted
/// by id ascending.
#[verifier::rlimit(60)]
pub fn optimize_orders(orders: &mut Vec<Order>)
    ensures
        final(orders)@ == spec_normalize(old(orders)@),
        final(orders)@.to_multiset() == survivors(old(orders)@).to_multiset(),
        id_sorted(final(orders)@),
        unique_ids(final(orders)@),
{
    let ghost s = orders@;
    let n = orders.len();
    let mut winners: Vec<Order> = Vec::new();
    let mut i: usize = 0;
    while i < n
        invariant
            orders@ == s,
            n == s.len(),
            0 <= i <= n,
            winners@ == survivors_upto(s, i as int),
        decreases n - i,
    {
        let mut is_winner = true;
        let mut j: usize = 0;
        while j < n
            invariant
                orders@ == s,
                n == s.len(),
                0 <= i < n,
                0 <= j <= n,
                is_winner == (forall|jj: int|
                    0 <= jj < j && jj != i && (#[trigger] s[jj]).id == s[i as int].id ==> (s[
                        i as int].expiration < s[jj].expiration || (s[i as int].expiration
                        == s[jj].expiration && i < jj))),
            decreases n - j,
        {
            if j != i {
                let oj = &orders[j];
                let oi = &orders[i];
                if oj.id == oi.id && !(oi.expiration < oj.expiration || (oi.expiration
                    == oj.expiration && i < j)) {
                    is_winner = false;
                }
            }
            j = j + 1;
        }
        if is_winner {
            let o = orders[i].clone();
            winners.push(o);
        }
        i = i + 1;
    }
    // insertion sort by id
    let len = winners.len();
    let ghost sv = survivors(s);
    proof {
        assert(survivors_upto(s, n as int) == sv);
    }
    let mut k: usize = 1;
    while k < len
        invariant
            len == winners@.len(),
            1 <= k,
            k <= len || len == 0,
            winners@.to_multiset() == sv.to_multiset(),
            len == 0 || id_sorted(winners@.take(k as int)),
        decreases len - k,
    {
        let ghost before = winners@;
        let x = winners.remove(k);
        proof {
            broadcast use vstd::seq_lib::group_to_multiset_ensures;

            assert(winners@ =~= before.remove(k as int));
            assert(winners@.take(k as int) =~= before.take(k as int));
        }
        let mut p: usize = k;
        while p > 0 && winners[p - 1].id > x.id
            invariant
                0 <= p <= k,
                k < len,
                winners@.len() == len - 1,
                winners@ == before.remove(k as int),
                x == before[k as int],
                id_sorted(winners@.take(k as int)),
                forall|q: int| p <= q < k ==> (#[trigger] winners@[q]).id > x.id,
            decreases p,
        {
            p = p - 1;
        }
        let ghost after_remove = winners@;
        winners.insert(p, x);
        proof {
            lemma_sorted_insert_step(before, k as int, p as int);
            assert(winners@ == before.remove(k as int).insert(p as int, before[k as int]));
            assert(id_sorted(winners@.take(k as int + 1)));
        }
        k = k + 1;
    }
    proof {
        if len == 0 {
            assert(winners@ =~= winners@.take(len as int));
        } else {
            assert(winners@ =~= winners@.take(k as int));
        }
        lemma_survivors_unique(s);
        lemma_sort_ids_props(sv);
        lemma_unique_ids_permutation(sv, sort_ids(sv));
        lemma_id_sorted_unique(sort_ids(sv), winners@);
    }
    *orders = winners;
}

} // verus!
