//! Padding a set of integers to a wanted size: first by spreading new
//! values evenly inside the gaps between neighbours, then by growing the
//! set below its smallest and above its largest value in turn.

use vstd::prelude::*;
use vstd::arithmetic::div_mod::lemma_div_is_ordered;
use crate::numbers::{ints, lemma_sort_dedup, remove_duplicates, sort_dedup, strictly_increasing};

verus! {

/// The `j`-th of `k` values spread over the `gap` free integers above
/// `a`: `a + j * gap / (k + 1)`, rounded to the nearest integer, halves
/// upwards.
pub open spec fn spread_value(a: int, gap: int, k: int, j: int) -> int {
    a + (2 * j * gap + (k + 1)) / (2 * (k + 1))
}

/// The values that the first `j` of `k` spread values add above `a`: each
/// in turn, unless it is `a` or was added before.
pub open spec fn spread(a: int, gap: int, k: int, j: int) -> Seq<int>
    decreases j,
{
    if j <= 0 {
        seq![]
    } else {
        let placed = spread(a, gap, k, j - 1);
        let v = spread_value(a, gap, k, j);
        if v == a || placed.contains(v) {
            placed
        } else {
            placed.push(v)
        }
    }
}

/// A set while its gaps are filled: the values so far, in increasing
/// order, and how many values are still wanted.
pub struct Filling {
    pub out: Seq<int>,
    pub needed: int,
}

/// The filling after the first `i` gaps of `base`: it holds `base[0..=i]`
/// and, in each gap, as many spread values as are wanted and fit.
pub open spec fn fill(base: Seq<int>, i: int, needed: int) -> Filling
    decreases i,
{
    if i <= 0 {
        Filling { out: seq![base[0]], needed }
    } else {
        let before = fill(base, i - 1, needed);
        let a = base[i - 1];
        let gap = base[i] - a - 1;
        let k = if before.needed < gap {
            before.needed
        } else {
            gap
        };
        let added = spread(a, gap, k, k);
        Filling { out: before.out + added + seq![base[i]], needed: before.needed - added.len() }
    }
}

/// The `count` integers below `first`, in increasing order.
pub open spec fn run_below(first: int, count: int) -> Seq<int> {
    Seq::new(count as nat, |t: int| first - count + t)
}

/// The `count` integers above `last`, in increasing order.
pub open spec fn run_above(last: int, count: int) -> Seq<int> {
    Seq::new(count as nat, |t: int| last + 1 + t)
}

/// `nums` padded to `n` values.
///
/// The distinct values of `nums` in increasing order, cut to the first `n`
/// if they are that many. Otherwise the gaps between neighbours are filled
/// from the lowest gap up while values are wanted, and what is then still
/// wanted is added outside: the first, third, ... new value below the
/// smallest, the second, fourth, ... above the largest. Nothing can be
/// added to no values: without values the result is empty.
pub open spec fn padded(nums: Seq<int>, n: int) -> Seq<int> {
    let base = sort_dedup(nums);
    if base.len() >= n {
        base.take(n)
    } else if base.len() == 0 {
        seq![]
    } else {
        let filled = fill(base, base.len() - 1, n - base.len());
        run_below(base[0], (filled.needed + 1) / 2) + filled.out + run_above(
            base.last(),
            filled.needed / 2,
        )
    }
}

/// A spread value lies above `a` by at most `gap`, and is no smaller than
/// the one before it.
pub proof fn lemma_spread_value(a: int, gap: int, k: int, j: int)
    requires
        0 <= gap,
        0 <= k,
        1 <= j <= k,
    ensures
        a <= spread_value(a, gap, k, j) <= a + gap,
        spread_value(a, gap, k, j - 1) <= spread_value(a, gap, k, j),
{
    let d = 2 * (k + 1);
    let x = 2 * j * gap + (k + 1);
    let y = 2 * (j - 1) * gap + (k + 1);
    assert(0 <= y <= x) by (nonlinear_arith)
        requires
            y == 2 * (j - 1) * gap + (k + 1),
            x == 2 * j * gap + (k + 1),
            0 <= gap,
            1 <= j,
            0 <= k,
    ;
    lemma_div_is_ordered(y, x, d);
    lemma_div_is_ordered(0, y, d);
    assert(x <= gap * d + (d - 1)) by (nonlinear_arith)
        requires
            x == 2 * j * gap + (k + 1),
            d == 2 * (k + 1),
            0 <= gap,
            1 <= j <= k,
    ;
    lemma_div_is_ordered(x, gap * d + (d - 1), d);
    assert((gap * d + (d - 1)) / d == gap) by (nonlinear_arith)
        requires
            d > 0,
    ;
}

/// The values of a spread are strictly increasing, lie inside the gap, and
/// are no more than the spread values considered.
pub proof fn lemma_spread(a: int, gap: int, k: int, j: int)
    requires
        0 <= gap,
        0 <= j <= k,
    ensures
        strictly_increasing(spread(a, gap, k, j)),
        spread(a, gap, k, j).len() <= j,
        forall|i: int|
            0 <= i < spread(a, gap, k, j).len() ==> a < #[trigger] spread(a, gap, k, j)[i] <= a
                + gap,
        forall|i: int|
            0 <= i < spread(a, gap, k, j).len() ==> #[trigger] spread(a, gap, k, j)[i]
                <= spread_value(a, gap, k, j),
        j > 0 ==> spread(a, gap, k, j) == (if spread_value(a, gap, k, j) == a || (spread(
            a,
            gap,
            k,
            j - 1,
        ).len() > 0 && spread(a, gap, k, j - 1).last() == spread_value(a, gap, k, j)) {
            spread(a, gap, k, j - 1)
        } else {
            spread(a, gap, k, j - 1).push(spread_value(a, gap, k, j))
        }),
    decreases j,
{
    if j > 0 {
        lemma_spread(a, gap, k, j - 1);
        lemma_spread_value(a, gap, k, j);
        let placed = spread(a, gap, k, j - 1);
        let v = spread_value(a, gap, k, j);
        if placed.contains(v) {
            let i = choose|i: int| 0 <= i < placed.len() && placed[i] == v;
            assert(placed[i] <= spread_value(a, gap, k, j - 1));
            if i < placed.len() - 1 {
                assert(placed[i] < placed[placed.len() - 1]);
                assert(placed[placed.len() - 1] <= spread_value(a, gap, k, j - 1));
            }
        }
        if placed.len() > 0 && placed.last() == v {
            assert(placed[placed.len() - 1] == v);
        }
        if !(v == a || placed.contains(v)) {
            let r = placed.push(v);
            assert forall|x: int, y: int| 0 <= x < y < r.len() implies r[x] < r[y] by {
                if y == placed.len() {
                    assert(placed[x] <= spread_value(a, gap, k, j - 1));
                    assert(placed.contains(placed[x]));
                } else {
                    assert(placed[x] < placed[y]);
                }
            }
        }
    }
}

/// A filling is strictly increasing from `base[0]` to `base[i]`, and holds
/// one value more for each value that is no longer wanted.
pub proof fn lemma_fill(base: Seq<int>, i: int, needed: int)
    requires
        strictly_increasing(base),
        0 <= i < base.len(),
        0 <= needed,
    ensures
        strictly_increasing(fill(base, i, needed).out),
        fill(base, i, needed).out.len() > 0,
        fill(base, i, needed).out[0] == base[0],
        fill(base, i, needed).out.last() == base[i],
        0 <= fill(base, i, needed).needed <= needed,
        fill(base, i, needed).out.len() == i + 1 + needed - fill(base, i, needed).needed,
    decreases i,
{
    if i > 0 {
        lemma_fill(base, i - 1, needed);
        let before = fill(base, i - 1, needed);
        let a = base[i - 1];
        let gap = base[i] - a - 1;
        assert(base[i - 1] < base[i]);
        let k = if before.needed < gap {
            before.needed
        } else {
            gap
        };
        lemma_spread(a, gap, k, k);
        let added = spread(a, gap, k, k);
        let out = before.out + added + seq![base[i]];
        assert forall|x: int, y: int| 0 <= x < y < out.len() implies out[x] < out[y] by {
            let m = before.out.len() as int;
            let e = m + added.len();
            if x < m {
                assert(out[x] == before.out[x]);
                if x < m - 1 {
                    assert(before.out[x] < before.out[m - 1]);
                }
            } else if x < e {
                assert(out[x] == added[x - m]);
            }
            if y < m {
                assert(out[y] == before.out[y]);
                assert(before.out[x] < before.out[y]);
            } else if y < e {
                assert(out[y] == added[y - m]);
                if x >= m {
                    assert(added[x - m] < added[y - m]);
                }
            } else {
                assert(out[y] == base[i]);
            }
        }
        assert(out[0] == before.out[0]);
    }
}

/// Padding gives a strictly increasing sequence. It has exactly `n` values
/// unless values are wanted and there is none to start from, and where the
/// distinct values given are `n` or more it is the first `n` of them.
pub proof fn lemma_padded(nums: Seq<int>, n: int)
    requires
        0 <= n,
    ensures
        strictly_increasing(padded(nums, n)),
        nums.len() > 0 || n == 0 ==> padded(nums, n).len() == n,
        sort_dedup(nums).len() >= n ==> padded(nums, n) == sort_dedup(nums).take(n),
{
    lemma_sort_dedup(nums);
    let base = sort_dedup(nums);
    if base.len() >= n {
        assert forall|x: int, y: int| 0 <= x < y < base.take(n).len() implies base.take(n)[x]
            < base.take(n)[y] by {
            assert(base[x] < base[y]);
        }
    } else if base.len() > 0 {
        lemma_fill(base, base.len() - 1, n - base.len());
        let filled = fill(base, base.len() - 1, n - base.len());
        let low = run_below(base[0], (filled.needed + 1) / 2);
        let high = run_above(base.last(), filled.needed / 2);
        let r = low + filled.out + high;
        assert forall|x: int, y: int| 0 <= x < y < r.len() implies r[x] < r[y] by {
            let m = low.len() as int;
            let e = m + filled.out.len();
            if y < m {
            } else if y < e {
                if x >= m {
                    assert(filled.out[x - m] < filled.out[y - m]);
                } else if y > m {
                    assert(filled.out[0] < filled.out[y - m]);
                }
            } else {
                if x >= e {
                } else if x >= m {
                    if x - m < filled.out.len() - 1 {
                        assert(filled.out[x - m] < filled.out[filled.out.len() - 1]);
                    }
                }
            }
        }
    }
}

/// Every value of a padding lies between the smallest value given less
/// `n` and the largest value given plus `n`.
pub proof fn lemma_padded_bounds(nums: Seq<int>, n: int, low: int, high: int)
    requires
        0 <= n,
        forall|i: int| 0 <= i < nums.len() ==> low + n <= #[trigger] nums[i] <= high - n,
    ensures
        forall|i: int| 0 <= i < padded(nums, n).len() ==> low <= #[trigger] padded(nums, n)[i] <= high,
{
    lemma_sort_dedup(nums);
    let base = sort_dedup(nums);
    assert forall|i: int| 0 <= i < base.len() implies low + n <= #[trigger] base[i] <= high - n by {
        assert(base.contains(base[i]));
        assert(nums.contains(base[i]));
        let w = choose|w: int| 0 <= w < nums.len() && nums[w] == base[i];
        assert(low + n <= nums[w] <= high - n);
    }
    if base.len() >= n {
    } else if base.len() > 0 {
        lemma_fill(base, base.len() - 1, n - base.len());
        let filled = fill(base, base.len() - 1, n - base.len());
        let below = run_below(base[0], (filled.needed + 1) / 2);
        let above = run_above(base.last(), filled.needed / 2);
        let r = below + filled.out + above;
        assert forall|i: int| 0 <= i < r.len() implies low <= #[trigger] r[i] <= high by {
            let m = below.len() as int;
            let e = m + filled.out.len();
            if i < m {
            } else if i < e {
                let x = i - m;
                if x > 0 {
                    assert(filled.out[0] < filled.out[x]);
                }
                if x < filled.out.len() - 1 {
                    assert(filled.out[x] < filled.out[filled.out.len() - 1]);
                }
            } else {
            }
        }
    }
}

/// Pads the values of `nums` to `target_len` values: see [`padded`].
#[verifier::rlimit(60)]
pub fn pad_nums(nums: &Vec<i32>, target_len: usize) -> (result: Vec<i32>)
    requires
        forall|i: int|
            0 <= i < padded(ints(nums@), target_len as int).len() ==> i32::MIN <= #[trigger] padded(
                ints(nums@),
                target_len as int,
            )[i] <= i32::MAX,
    ensures
        ints(result@) == padded(ints(nums@), target_len as int),
        strictly_increasing(ints(result@)),
        nums.len() > 0 || target_len == 0 ==> result.len() == target_len,
{
    let ghost given = ints(nums@);
    let ghost goal = padded(given, target_len as int);
    proof {
        lemma_padded(given, target_len as int);
        lemma_sort_dedup(given);
    }
    let mut base = remove_duplicates(nums.as_slice());
    let ghost sorted = ints(base@);
    if base.len() >= target_len {
        base.truncate(target_len);
        assert(ints(base@) =~= sorted.take(target_len as int));
        return base;
    }
    if base.len() == 0 {
        assert(ints(base@) =~= Seq::<int>::empty());
        return base;
    }
    let wanted: usize = target_len - base.len();
    let mut needed: usize = wanted;
    let mut mid: Vec<i32> = Vec::new();
    mid.push(base[0]);
    assert(ints(mid@) =~= seq![sorted[0]]);
    let mut i: usize = 1;
    while i < base.len()
        invariant
            1 <= i <= base.len(),
            sorted == ints(base@),
            strictly_increasing(sorted),
            ints(mid@) == fill(sorted, i - 1, wanted as int).out,
            needed == fill(sorted, i - 1, wanted as int).needed,
        decreases base.len() - i,
    {
        let ghost before = fill(sorted, i - 1, wanted as int);
        let a: i64 = base[i - 1] as i64;
        let b: i64 = base[i] as i64;
        assert(sorted[i - 1] < sorted[i as int]);
        assert(sorted[i - 1] == a && sorted[i as int] == b);
        let gap: i64 = b - a - 1;
        let k: u64 = if (needed as u64) < gap as u64 {
            needed as u64
        } else {
            gap as u64
        };
        let mut j: u64 = 0;
        let mut any: bool = false;
        let mut last: i64 = a;
        proof {
            lemma_fill(sorted, i - 1, wanted as int);
            assert(ints(mid@) =~= before.out + spread(a as int, gap as int, k as int, 0));
        }
        while j < k
            invariant
                j <= k,
                0 <= gap < 0x1_0000_0000,
                k <= gap,
                i32::MIN <= a,
                a + gap + 1 <= i32::MAX,
                ints(mid@) == before.out + spread(a as int, gap as int, k as int, j as int),
                needed + spread(a as int, gap as int, k as int, j as int).len() == before.needed,
                k <= before.needed,
                any == (spread(a as int, gap as int, k as int, j as int).len() > 0),
                any ==> last == spread(a as int, gap as int, k as int, j as int).last(),
            decreases k - j,
        {
            let ghost placed = spread(a as int, gap as int, k as int, j as int);
            j += 1;
            proof {
                lemma_spread(a as int, gap as int, k as int, j as int);
                lemma_spread_value(a as int, gap as int, k as int, j as int);
            }
            assert(2 * (j as int) * (gap as int) + (k + 1) <= 0x2_0000_0000_0000_0000_0000) by (nonlinear_arith)
                requires
                    0 <= j <= k,
                    k <= gap,
                    gap < 0x1_0000_0000,
            ;
            assert(0 <= 2 * (j as int) * (gap as int)) by (nonlinear_arith)
                requires
                    0 <= j,
                    0 <= gap,
            ;
            let top: u128 = 2 * (j as u128) * (gap as u128) + (k as u128 + 1);
            let q: u128 = top / (2 * (k as u128 + 1));
            let v: i64 = a + q as i64;
            assert(v == spread_value(a as int, gap as int, k as int, j as int));
            if v != a && !(any && v == last) {
                let ghost was = ints(mid@);
                mid.push(v as i32);
                needed = needed - 1;
                any = true;
                last = v;
                assert(ints(mid@) =~= was.push(v as int));
                assert(ints(mid@) =~= before.out + placed.push(v as int));
            }
        }
        let ghost was = ints(mid@);
        mid.push(base[i]);
        assert(ints(mid@) =~= was + seq![sorted[i as int]]);
        i += 1;
    }
    let ghost filled = fill(sorted, sorted.len() - 1, wanted as int);
    proof {
        lemma_fill(sorted, sorted.len() - 1, wanted as int);
    }
    let below: usize = needed / 2 + needed % 2;
    let above: usize = needed / 2;
    let first: i64 = base[0] as i64;
    let top: i64 = base[base.len() - 1] as i64;
    let ghost low = run_below(first as int, below as int);
    let ghost high = run_above(top as int, above as int);
    assert(goal == low + filled.out + high);
    proof {
        if below > 0 {
            assert(goal[0] == low[0]);
            assert(i32::MIN <= goal[0]);
        }
        if above > 0 {
            assert(goal[goal.len() - 1] == high[above - 1]);
            assert(goal[goal.len() - 1] <= i32::MAX);
        }
    }
    let mut result: Vec<i32> = Vec::new();
    let mut t: usize = 0;
    assert(ints(result@) =~= low.take(0));
    while t < below
        invariant
            t <= below,
            below > 0 ==> i32::MIN <= first - below,
            first <= i32::MAX,
            low == run_below(first as int, below as int),
            ints(result@) == low.take(t as int),
        decreases below - t,
    {
        let ghost was = ints(result@);
        let value: i64 = first - below as i64 + t as i64;
        result.push(value as i32);
        assert(ints(result@) =~= was.push(value as int));
        assert(ints(result@) =~= low.take(t + 1));
        t += 1;
    }
    assert(low.take(below as int) =~= low);
    let mut m: usize = 0;
    while m < mid.len()
        invariant
            m <= mid.len(),
            ints(result@) == low + ints(mid@).take(m as int),
        decreases mid.len() - m,
    {
        let ghost was = ints(result@);
        result.push(mid[m]);
        assert(ints(result@) =~= was.push(mid@[m as int] as int));
        assert(ints(result@) =~= low + ints(mid@).take(m + 1));
        m += 1;
    }
    assert(ints(mid@).take(mid.len() as int) =~= ints(mid@));
    let mut u: usize = 0;
    assert(ints(result@) =~= low + filled.out + high.take(0));
    while u < above
        invariant
            u <= above,
            above > 0 ==> top + above <= i32::MAX,
            i32::MIN <= top,
            high == run_above(top as int, above as int),
            ints(result@) == low + filled.out + high.take(u as int),
        decreases above - u,
    {
        let ghost was = ints(result@);
        let value: i64 = top + 1 + u as i64;
        result.push(value as i32);
        assert(ints(result@) =~= was.push(value as int));
        assert(ints(result@) =~= low + filled.out + high.take(u + 1));
        u += 1;
    }
    assert(high.take(above as int) =~= high);
    result
}

} // verus!
