//! The stable order of a list of texts: the indices of the list, by text, and
//! among equal texts by index.

use vstd::prelude::*;
use crate::text::{lemma_text_less_total, lemma_text_less_transitive, text_before, text_less, views};

verus! {

/// `order` with the index `k` put behind every index whose text does not come
/// after that of `k`.
pub open spec fn insert_by_key(keys: Seq<Seq<char>>, order: Seq<usize>, k: usize) -> Seq<usize>
    decreases order.len(),
{
    if order.len() == 0 {
        seq![k]
    } else if text_less(keys[k as int], keys[order.last() as int]) {
        insert_by_key(keys, order.drop_last(), k).push(order.last())
    } else {
        order.push(k)
    }
}

/// The first `n` indices of `keys` in stable order.
pub open spec fn stable_order(keys: Seq<Seq<char>>, n: nat) -> Seq<usize>
    decreases n,
{
    if n == 0 {
        Seq::empty()
    } else {
        insert_by_key(keys, stable_order(keys, (n - 1) as nat), (n - 1) as usize)
    }
}

/// Index `x` stands before index `y` in the stable order.
pub open spec fn goes_before(keys: Seq<Seq<char>>, x: usize, y: usize) -> bool {
    text_less(keys[x as int], keys[y as int]) || (keys[x as int] == keys[y as int] && x < y)
}

/// `order` lists indices below `n`, each before the ones that follow it.
pub open spec fn in_stable_order(keys: Seq<Seq<char>>, order: Seq<usize>, n: nat) -> bool {
    &&& forall|i: int| 0 <= i < order.len() ==> (#[trigger] order[i]) < n
    &&& forall|i: int, j: int|
        0 <= i < j < order.len() ==> goes_before(keys, #[trigger] order[i], #[trigger] order[j])
}

proof fn lemma_insert_by_key(keys: Seq<Seq<char>>, order: Seq<usize>, k: usize, n: nat)
    requires
        in_stable_order(keys, order, n),
        k == n,
        n < keys.len(),
    ensures
        in_stable_order(keys, insert_by_key(keys, order, k), n + 1),
        insert_by_key(keys, order, k).len() == order.len() + 1,
        insert_by_key(keys, order, k).contains(k),
        forall|x: usize| order.contains(x) ==> insert_by_key(keys, order, k).contains(x),
    decreases order.len(),
{
    let out = insert_by_key(keys, order, k);
    if order.len() == 0 {
        assert(out[0] == k);
    } else if text_less(keys[k as int], keys[order.last() as int]) {
        let front = order.drop_last();
        let inner = insert_by_key(keys, front, k);
        assert(in_stable_order(keys, front, n)) by {
            assert forall|i: int| 0 <= i < front.len() implies (#[trigger] front[i]) < n by {
                assert(front[i] == order[i]);
            }
            assert forall|i: int, j: int| 0 <= i < j < front.len() implies goes_before(
                keys,
                #[trigger] front[i],
                #[trigger] front[j],
            ) by {
                assert(front[i] == order[i] && front[j] == order[j]);
            }
        }
        lemma_insert_by_key(keys, front, k, n);
        assert forall|i: int| 0 <= i < inner.len() implies goes_before(
            keys,
            #[trigger] inner[i],
            order.last(),
        ) by {
            if inner[i] == k {
            } else {
                lemma_inserted_from(keys, front, k, i);
                let p = choose|p: int| 0 <= p < front.len() && front[p] == inner[i];
                assert(order[p] == front[p]);
                assert(goes_before(keys, order[p], order[order.len() - 1]));
            }
        }
        assert forall|i: int, j: int| 0 <= i < j < out.len() implies goes_before(
            keys,
            #[trigger] out[i],
            #[trigger] out[j],
        ) by {
            if j < inner.len() {
                assert(out[i] == inner[i] && out[j] == inner[j]);
            } else {
                assert(out[i] == inner[i]);
            }
        }
        let w = choose|w: int| 0 <= w < inner.len() && inner[w] == k;
        assert(out[w] == k);
        assert forall|x: usize| order.contains(x) implies out.contains(x) by {
            let p = choose|p: int| 0 <= p < order.len() && order[p] == x;
            if p < front.len() {
                assert(front[p] == x);
                assert(front.contains(x));
                let q = choose|q: int| 0 <= q < inner.len() && inner[q] == x;
                assert(out[q] == x);
            } else {
                assert(out[out.len() - 1] == x);
            }
        }
    } else {
        lemma_text_less_total(keys[k as int], keys[order.last() as int]);
        assert forall|i: int, j: int| 0 <= i < j < out.len() implies goes_before(
            keys,
            #[trigger] out[i],
            #[trigger] out[j],
        ) by {
            if j < order.len() {
                assert(out[i] == order[i] && out[j] == order[j]);
            } else {
                assert(out[i] == order[i]);
                if i < order.len() - 1 {
                    assert(goes_before(keys, order[i], order[order.len() - 1]));
                    let a = keys[order[i] as int];
                    let b = keys[order.last() as int];
                    let c = keys[k as int];
                    if text_less(a, b) {
                        if b != c {
                            lemma_text_less_transitive(a, b, c);
                        }
                    }
                }
            }
        }
        assert(out[out.len() - 1] == k);
        assert forall|x: usize| order.contains(x) implies out.contains(x) by {
            let p = choose|p: int| 0 <= p < order.len() && order[p] == x;
            assert(out[p] == x);
        }
    }
}

/// Every index of `insert_by_key(keys, order, k)` but `k` comes from `order`.
proof fn lemma_inserted_from(keys: Seq<Seq<char>>, order: Seq<usize>, k: usize, i: int)
    requires
        0 <= i < insert_by_key(keys, order, k).len(),
        insert_by_key(keys, order, k)[i] != k,
    ensures
        order.contains(insert_by_key(keys, order, k)[i]),
    decreases order.len(),
{
    let out = insert_by_key(keys, order, k);
    if order.len() == 0 {
    } else if text_less(keys[k as int], keys[order.last() as int]) {
        let front = order.drop_last();
        let inner = insert_by_key(keys, front, k);
        if i < inner.len() {
            lemma_inserted_from(keys, front, k, i);
            let p = choose|p: int| 0 <= p < front.len() && front[p] == inner[i];
            assert(order[p] == out[i]);
        } else {
            assert(order[order.len() - 1] == out[i]);
        }
    } else {
        assert(order[i] == out[i]);
    }
}

/// The stable order of the first `n` texts lists each index below `n` once:
/// by text, and among equal texts by index.
pub proof fn lemma_stable_order(keys: Seq<Seq<char>>, n: nat)
    requires
        n <= keys.len(),
        n <= usize::MAX,
    ensures
        stable_order(keys, n).len() == n,
        in_stable_order(keys, stable_order(keys, n), n),
        forall|k: usize| k < n ==> stable_order(keys, n).contains(k),
    decreases n,
{
    if n > 0 {
        let m = (n - 1) as nat;
        let before = stable_order(keys, m);
        lemma_stable_order(keys, m);
        lemma_insert_by_key(keys, before, m as usize, m);
        assert forall|k: usize| k < n implies stable_order(keys, n).contains(k) by {
            if k < m {
                assert(before.contains(k));
            }
        }
    }
}

/// The indices of `keys` in stable order.
pub fn sort_order(keys: &Vec<String>) -> (order: Vec<usize>)
    ensures
        order@ == stable_order(views(keys@), keys@.len()),
{
    let ghost ks = views(keys@);
    let mut order: Vec<usize> = Vec::new();
    let mut k: usize = 0;
    while k < keys.len()
        invariant
            k <= keys.len(),
            ks == views(keys@),
            order@ == stable_order(ks, k as nat),
        decreases keys.len() - k,
    {
        proof {
            lemma_stable_order(ks, k as nat);
            assert(order@.take(order@.len() as int) =~= order@);
            assert(insert_by_key(ks, order@, k) + order@.skip(order@.len() as int)
                =~= insert_by_key(ks, order@, k));
        }
        let mut p: usize = order.len();
        while p > 0 && text_before(keys[k].as_str(), keys[order[p - 1]].as_str())
            invariant
                p <= order.len(),
                k < keys.len(),
                ks == views(keys@),
                in_stable_order(ks, order@, k as nat),
                insert_by_key(ks, order@, k) == insert_by_key(ks, order@.take(p as int), k)
                    + order@.skip(p as int),
            decreases p,
        {
            proof {
                let cut = order@.take(p as int);
                assert(cut.last() == order@[p - 1]);
                assert(cut.drop_last() =~= order@.take(p - 1));
                assert(insert_by_key(ks, cut, k) == insert_by_key(ks, cut.drop_last(), k).push(
                    cut.last(),
                ));
                assert(insert_by_key(ks, cut.drop_last(), k).push(cut.last()) + order@.skip(
                    p as int,
                ) =~= insert_by_key(ks, cut.drop_last(), k) + order@.skip(p - 1));
            }
            p -= 1;
        }
        proof {
            let cut = order@.take(p as int);
            if p > 0 {
                assert(cut.last() == order@[p - 1]);
            }
            assert(insert_by_key(ks, cut, k) == cut.push(k));
            assert(cut.push(k) + order@.skip(p as int) =~= order@.insert(p as int, k));
        }
        order.insert(p, k);
        k += 1;
    }
    order
}

} // verus!
