//! Sets of integers kept as strictly increasing sequences.

use vstd::prelude::*;

verus! {

/// The values of `s` as mathematical integers.
pub open spec fn ints(s: Seq<i32>) -> Seq<int> {
    s.map_values(|v: i32| v as int)
}

/// Every element is smaller than the one after it.
pub open spec fn strictly_increasing(s: Seq<int>) -> bool {
    forall|i: int, j: int| 0 <= i < j < s.len() ==> s[i] < s[j]
}

/// `s`, strictly increasing, with `x` put in its place unless it is there.
pub open spec fn insert_unique(s: Seq<int>, x: int) -> Seq<int>
    decreases s.len(),
{
    if s.len() == 0 {
        seq![x]
    } else if s.last() < x {
        s.push(x)
    } else if s.last() == x {
        s
    } else {
        insert_unique(s.drop_last(), x).push(s.last())
    }
}

/// The distinct values of `s` in increasing order.
pub open spec fn sort_dedup(s: Seq<int>) -> Seq<int>
    decreases s.len(),
{
    if s.len() == 0 {
        seq![]
    } else {
        insert_unique(sort_dedup(s.drop_last()), s.last())
    }
}

/// Putting `x` into a strictly increasing sequence keeps it strictly
/// increasing and adds exactly `x` to its values.
pub proof fn lemma_insert_unique(s: Seq<int>, x: int)
    requires
        strictly_increasing(s),
    ensures
        strictly_increasing(insert_unique(s, x)),
        forall|y: int|
            #![trigger insert_unique(s, x).contains(y)]
            insert_unique(s, x).contains(y) <==> (s.contains(y) || y == x),
        s.len() <= insert_unique(s, x).len() <= s.len() + 1,
        insert_unique(s, x).len() > 0,
        s.len() > 0 ==> insert_unique(s, x).last() == (if s.last() < x {
            x
        } else {
            s.last()
        }),
        s.len() > 0 ==> insert_unique(s, x)[0] == (if x < s[0] {
            x
        } else {
            s[0]
        }),
    decreases s.len(),
{
    let r = insert_unique(s, x);
    if s.len() == 0 {
        assert(r[0] == x);
        assert forall|y: int| r.contains(y) <==> (s.contains(y) || y == x) by {
            if y == x {
                assert(r[0] == y);
            }
        }
    } else if s.last() < x {
        assert forall|y: int| r.contains(y) <==> (s.contains(y) || y == x) by {
            if s.contains(y) {
                let i = choose|i: int| 0 <= i < s.len() && s[i] == y;
                assert(r[i] == y);
            }
            if y == x {
                assert(r[s.len() as int] == y);
            }
        }
    } else if s.last() == x {
        assert(s[s.len() - 1] == x);
    } else {
        let front = s.drop_last();
        assert(strictly_increasing(front));
        lemma_insert_unique(front, x);
        let inner = insert_unique(front, x);
        assert forall|i: int| 0 <= i < inner.len() implies inner[i] < s.last() by {
            assert(inner.contains(inner[i]));
            if front.contains(inner[i]) {
                let k = choose|k: int| 0 <= k < front.len() && front[k] == inner[i];
                assert(s[k] < s[s.len() - 1]);
            }
        }
        assert forall|y: int| r.contains(y) <==> (s.contains(y) || y == x) by {
            if r.contains(y) {
                let i = choose|i: int| 0 <= i < r.len() && r[i] == y;
                if i < inner.len() {
                    assert(inner.contains(y));
                    if front.contains(y) {
                        let k = choose|k: int| 0 <= k < front.len() && front[k] == y;
                        assert(s[k] == y);
                    }
                } else {
                    assert(s[s.len() - 1] == y);
                }
            }
            if s.contains(y) {
                let k = choose|k: int| 0 <= k < s.len() && s[k] == y;
                if k < front.len() {
                    assert(front[k] == y);
                    assert(inner.contains(y));
                    let i = choose|i: int| 0 <= i < inner.len() && inner[i] == y;
                    assert(r[i] == y);
                } else {
                    assert(r[r.len() - 1] == y);
                }
            }
            if y == x {
                assert(inner.contains(x));
                let i = choose|i: int| 0 <= i < inner.len() && inner[i] == x;
                assert(r[i] == y);
            }
        }
        if front.len() > 0 {
            assert(front[0] == s[0]);
        } else {
            assert(inner[0] == x);
        }
    }
}

/// The distinct values of a sequence in increasing order are strictly
/// increasing and are exactly the values of the sequence.
pub proof fn lemma_sort_dedup(s: Seq<int>)
    ensures
        strictly_increasing(sort_dedup(s)),
        forall|y: int|
            #![trigger sort_dedup(s).contains(y)]
            sort_dedup(s).contains(y) <==> s.contains(y),
        sort_dedup(s).len() <= s.len(),
        s.len() > 0 ==> sort_dedup(s).len() > 0,
    decreases s.len(),
{
    if s.len() > 0 {
        let front = s.drop_last();
        lemma_sort_dedup(front);
        lemma_insert_unique(sort_dedup(front), s.last());
        assert forall|y: int| sort_dedup(s).contains(y) <==> s.contains(y) by {
            if s.contains(y) {
                let k = choose|k: int| 0 <= k < s.len() && s[k] == y;
                if k < front.len() {
                    assert(front[k] == y);
                }
            }
            if front.contains(y) {
                let k = choose|k: int| 0 <= k < front.len() && front[k] == y;
                assert(s[k] == y);
            }
            if y == s.last() {
                assert(s[s.len() - 1] == y);
            }
        }
    }
}

/// Where `x` stands between the first `p` values and the rest, putting it
/// into the sequence is inserting it at `p`.
pub proof fn lemma_insert_unique_at(s: Seq<int>, x: int, p: int)
    requires
        0 <= p <= s.len(),
        forall|i: int| 0 <= i < p ==> s[i] < x,
        forall|i: int| p <= i < s.len() ==> x < s[i],
    ensures
        insert_unique(s, x) == s.insert(p, x),
    decreases s.len(),
{
    if s.len() == 0 {
        assert(seq![x] =~= s.insert(p, x));
    } else if p == s.len() {
        assert(s.push(x) =~= s.insert(p, x));
    } else {
        lemma_insert_unique_at(s.drop_last(), x, p);
        assert(s.drop_last().insert(p, x).push(s.last()) =~= s.insert(p, x));
    }
}

/// Putting a value into a strictly increasing sequence that holds it
/// changes nothing.
pub proof fn lemma_insert_unique_present(s: Seq<int>, x: int, p: int)
    requires
        strictly_increasing(s),
        0 <= p < s.len(),
        s[p] == x,
    ensures
        insert_unique(s, x) == s,
    decreases s.len(),
{
    if p == s.len() - 1 {
    } else {
        assert(s[p] < s[s.len() - 1]);
        lemma_insert_unique_present(s.drop_last(), x, p);
        assert(s.drop_last().push(s.last()) =~= s);
    }
}

/// Puts `x` into the strictly increasing `out` unless it is there.
pub fn insert_sorted(out: &mut Vec<i32>, x: i32)
    requires
        strictly_increasing(ints(old(out)@)),
    ensures
        ints(final(out)@) == insert_unique(ints(old(out)@), x as int),
        strictly_increasing(ints(final(out)@)),
{
    let ghost before = ints(out@);
    let mut p: usize = out.len();
    while p > 0 && out[p - 1] > x
        invariant
            p <= out.len(),
            out@ == old(out)@,
            forall|i: int| p <= i < out.len() ==> x < out@[i],
        decreases p,
    {
        p -= 1;
    }
    if p > 0 && out[p - 1] == x {
        proof {
            lemma_insert_unique_present(before, x as int, p - 1);
        }
    } else {
        proof {
            assert forall|i: int| 0 <= i < p implies before[i] < x by {
                if p > 0 {
                    assert(before[p - 1] < x);
                    if i < p - 1 {
                        assert(before[i] < before[p - 1]);
                    }
                }
            }
            lemma_insert_unique_at(before, x as int, p as int);
            lemma_insert_unique(before, x as int);
        }
        out.insert(p, x);
        assert(ints(out@) =~= before.insert(p as int, x as int));
    }
}

/// The distinct values of `vals`, in increasing order.
pub fn remove_duplicates(vals: &[i32]) -> (result: Vec<i32>)
    ensures
        ints(result@) == sort_dedup(ints(vals@)),
        strictly_increasing(ints(result@)),
        forall|y: int| ints(result@).contains(y) <==> ints(vals@).contains(y),
{
    let mut out: Vec<i32> = Vec::new();
    let mut i: usize = 0;
    assert(ints(vals@).take(0) =~= Seq::<int>::empty());
    assert(ints(out@) =~= Seq::<int>::empty());
    while i < vals.len()
        invariant
            i <= vals.len(),
            ints(out@) == sort_dedup(ints(vals@).take(i as int)),
            strictly_increasing(ints(out@)),
        decreases vals.len() - i,
    {
        assert(ints(vals@).take(i + 1).drop_last() =~= ints(vals@).take(i as int));
        insert_sorted(&mut out, vals[i]);
        i += 1;
    }
    proof {
        assert(ints(vals@).take(i as int) =~= ints(vals@));
        lemma_sort_dedup(ints(vals@));
    }
    out
}

} // verus!
