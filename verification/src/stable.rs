//! Stable ordering by a key: the order in which the positions of a list
//! are visited so that keys never decrease and equal keys keep their
//! given order.

use vstd::prelude::*;

verus! {

/// `order` with position `idx` placed behind every position whose key is
/// not greater than its own.
pub open spec fn place(order: Seq<int>, keys: Seq<u64>, idx: int) -> Seq<int>
    decreases order.len(),
{
    if order.len() == 0 {
        seq![idx]
    } else if keys[order.last()] <= keys[idx] {
        order.push(idx)
    } else {
        place(order.drop_last(), keys, idx).push(order.last())
    }
}

/// The stable order of the first `n` positions of `keys`.
pub open spec fn stable_order(keys: Seq<u64>, n: int) -> Seq<int>
    decreases n,
{
    if n <= 0 {
        seq![]
    } else {
        place(stable_order(keys, n - 1), keys, n - 1)
    }
}

/// Position `a` comes before position `b` in a stable order.
pub open spec fn before(keys: Seq<u64>, a: int, b: int) -> bool {
    keys[a] < keys[b] || (keys[a] == keys[b] && a < b)
}

/// `order` visits positions below `n` of `keys`, each at most once, by
/// non-decreasing key and, among equal keys, by increasing position.
pub open spec fn is_stable(order: Seq<int>, keys: Seq<u64>, n: int) -> bool {
    &&& forall|i: int| 0 <= i < order.len() ==> 0 <= #[trigger] order[i] < n
    &&& forall|i: int, j: int|
        0 <= i < j < order.len() ==> before(keys, #[trigger] order[i], #[trigger] order[j])
}

/// Placing a new position keeps a stable order stable and adds exactly
/// that position.
pub proof fn lemma_place(order: Seq<int>, keys: Seq<u64>, idx: int)
    requires
        0 <= idx < keys.len(),
        is_stable(order, keys, idx),
    ensures
        is_stable(place(order, keys, idx), keys, idx + 1),
        place(order, keys, idx).len() == order.len() + 1,
        forall|v: int|
            #![trigger place(order, keys, idx).contains(v)]
            place(order, keys, idx).contains(v) <==> (order.contains(v) || v == idx),
    decreases order.len(),
{
    let r = place(order, keys, idx);
    if order.len() == 0 {
        assert(r[0] == idx);
    } else if keys[order.last()] <= keys[idx] {
        assert forall|i: int, j: int| 0 <= i < j < r.len() implies before(
            keys,
            #[trigger] r[i],
            #[trigger] r[j],
        ) by {
            if j == order.len() {
                if i < order.len() - 1 {
                    assert(before(keys, order[i], order[order.len() - 1]));
                }
            } else {
                assert(before(keys, order[i], order[j]));
            }
        }
        assert forall|v: int| r.contains(v) <==> (order.contains(v) || v == idx) by {
            if order.contains(v) {
                let i = choose|i: int| 0 <= i < order.len() && order[i] == v;
                assert(r[i] == v);
            }
            if v == idx {
                assert(r[order.len() as int] == v);
            }
        }
    } else {
        let front = order.drop_last();
        let last = order.last();
        assert forall|i: int, j: int| 0 <= i < j < front.len() implies before(
            keys,
            #[trigger] front[i],
            #[trigger] front[j],
        ) by {
            assert(before(keys, order[i], order[j]));
        }
        assert forall|i: int| 0 <= i < front.len() implies 0 <= #[trigger] front[i] < idx by {
            assert(0 <= order[i] < idx);
        }
        lemma_place(front, keys, idx);
        let inner = place(front, keys, idx);
        assert(0 <= order[order.len() - 1] < idx);
        assert forall|i: int| 0 <= i < inner.len() implies before(keys, #[trigger] inner[i], last) by {
            assert(inner.contains(inner[i]));
            if front.contains(inner[i]) {
                let k = choose|k: int| 0 <= k < front.len() && front[k] == inner[i];
                assert(before(keys, order[k], order[order.len() - 1]));
            }
        }
        assert forall|i: int, j: int| 0 <= i < j < r.len() implies before(
            keys,
            #[trigger] r[i],
            #[trigger] r[j],
        ) by {
            if j == inner.len() {
                assert(before(keys, inner[i], last));
            } else {
                assert(before(keys, inner[i], inner[j]));
            }
        }
        assert forall|i: int| 0 <= i < r.len() implies 0 <= #[trigger] r[i] < idx + 1 by {
            if i < inner.len() {
                assert(0 <= inner[i] < idx + 1);
            }
        }
        assert forall|v: int| r.contains(v) <==> (order.contains(v) || v == idx) by {
            if r.contains(v) {
                let i = choose|i: int| 0 <= i < r.len() && r[i] == v;
                if i < inner.len() {
                    assert(inner.contains(v));
                    if front.contains(v) {
                        let k = choose|k: int| 0 <= k < front.len() && front[k] == v;
                        assert(order[k] == v);
                    }
                } else {
                    assert(order[order.len() - 1] == v);
                }
            }
            if order.contains(v) {
                let k = choose|k: int| 0 <= k < order.len() && order[k] == v;
                if k < front.len() {
                    assert(front[k] == v);
                    assert(front.contains(v));
                    assert(inner.contains(v));
                    let i = choose|i: int| 0 <= i < inner.len() && inner[i] == v;
                    assert(r[i] == v);
                } else {
                    assert(r[r.len() - 1] == v);
                }
            }
            if v == idx {
                assert(inner.contains(idx));
                let i = choose|i: int| 0 <= i < inner.len() && inner[i] == v;
                assert(r[i] == v);
            }
        }
    }
}

/// The stable order of the first `n` positions visits each of them once,
/// by non-decreasing key, equal keys in their given order.
pub proof fn lemma_stable_order(keys: Seq<u64>, n: int)
    requires
        0 <= n <= keys.len(),
    ensures
        is_stable(stable_order(keys, n), keys, n),
        stable_order(keys, n).len() == n,
        forall|v: int|
            #![trigger stable_order(keys, n).contains(v)]
            stable_order(keys, n).contains(v) <==> 0 <= v < n,
    decreases n,
{
    if n > 0 {
        lemma_stable_order(keys, n - 1);
        lemma_place(stable_order(keys, n - 1), keys, n - 1);
        assert forall|v: int| stable_order(keys, n).contains(v) <==> 0 <= v < n by {
            assert(stable_order(keys, n - 1).contains(v) <==> 0 <= v < n - 1);
        }
    } else {
        assert forall|v: int| stable_order(keys, n).contains(v) <==> 0 <= v < n by {
            if stable_order(keys, n).contains(v) {
                let i = choose|i: int| 0 <= i < stable_order(keys, n).len() && stable_order(keys, n)[i] == v;
            }
        }
    }
}

/// Where every position from `p` on has a greater key than `idx` and the
/// one before `p` has not, placing `idx` is inserting it at `p`.
pub proof fn lemma_place_at(order: Seq<int>, keys: Seq<u64>, idx: int, p: int)
    requires
        0 <= p <= order.len(),
        forall|i: int| p <= i < order.len() ==> keys[idx] < keys[#[trigger] order[i]],
        p > 0 ==> keys[order[p - 1]] <= keys[idx],
    ensures
        place(order, keys, idx) == order.insert(p, idx),
    decreases order.len(),
{
    if order.len() == 0 {
        assert(seq![idx] =~= order.insert(p, idx));
    } else if p == order.len() {
        assert(order.push(idx) =~= order.insert(p, idx));
    } else {
        assert(keys[idx] < keys[order[order.len() - 1]]);
        let front = order.drop_last();
        assert forall|i: int| p <= i < front.len() implies keys[idx] < keys[#[trigger] front[i]] by {
            assert(front[i] == order[i]);
        }
        lemma_place_at(front, keys, idx, p);
        assert(front.insert(p, idx).push(order.last()) =~= order.insert(p, idx));
    }
}

/// The positions held in `order`, as mathematical integers.
pub open spec fn positions(order: Seq<usize>) -> Seq<int> {
    order.map_values(|v: usize| v as int)
}

/// The order in which to visit the positions of `keys` so that keys never
/// decrease and equal keys keep their given order.
pub fn sort_order(keys: &Vec<u64>) -> (order: Vec<usize>)
    ensures
        positions(order@) == stable_order(keys@, keys.len() as int),
        order.len() == keys.len(),
        forall|i: int| 0 <= i < order.len() ==> order@[i] < keys.len(),
        forall|i: int, j: int|
            0 <= i < j < order.len() ==> keys@[order@[i] as int] <= keys@[order@[j] as int],
{
    let mut order: Vec<usize> = Vec::new();
    let mut n: usize = 0;
    assert(positions(order@) =~= stable_order(keys@, 0));
    while n < keys.len()
        invariant
            n <= keys.len(),
            order.len() == n,
            positions(order@) == stable_order(keys@, n as int),
            forall|i: int| 0 <= i < order.len() ==> order@[i] < n,
        decreases keys.len() - n,
    {
        let ghost prev = positions(order@);
        proof {
            lemma_stable_order(keys@, n as int);
        }
        let key = keys[n];
        let mut p: usize = order.len();
        while p > 0 && keys[order[p - 1]] > key
            invariant
                p <= order.len(),
                order.len() == n,
                n < keys.len(),
                key == keys@[n as int],
                prev == positions(order@),
                is_stable(prev, keys@, n as int),
                forall|i: int| 0 <= i < order.len() ==> order@[i] < n,
                forall|i: int| p <= i < order.len() ==> key < keys@[#[trigger] prev[i]],
            decreases p,
        {
            assert(prev[p - 1] == order@[p - 1] as int);
            p -= 1;
        }
        proof {
            if p > 0 {
                assert(prev[p - 1] == order@[p - 1] as int);
            }
            lemma_place_at(prev, keys@, n as int, p as int);
        }
        order.insert(p, n);
        assert(positions(order@) =~= prev.insert(p as int, n as int));
        n += 1;
    }
    proof {
        lemma_stable_order(keys@, n as int);
        let full = stable_order(keys@, n as int);
        assert forall|i: int| 0 <= i < order.len() implies order@[i] < keys.len() by {
            assert(0 <= full[i] < n);
            assert(positions(order@)[i] == order@[i] as int);
        }
        assert forall|i: int, j: int| 0 <= i < j < order.len() implies keys@[order@[i] as int]
            <= keys@[order@[j] as int] by {
            assert(before(keys@, full[i], full[j]));
            assert(positions(order@)[i] == order@[i] as int);
            assert(positions(order@)[j] == order@[j] as int);
        }
    }
    order
}

} // verus!
