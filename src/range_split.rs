//! Splitting a range node's listings between two halves by value.
use vstd::prelude::*;

verus! {

/// The identifiers among the first `n` whose value is at most `mid`, in order.
pub open spec fn split_low(ids: Seq<u64>, values: Seq<u64>, mid: u64, n: int) -> Seq<u64>
    decreases n,
{
    if n <= 0 {
        Seq::empty()
    } else if values[n - 1] <= mid {
        split_low(ids, values, mid, n - 1).push(ids[n - 1])
    } else {
        split_low(ids, values, mid, n - 1)
    }
}

/// The identifiers among the first `n` whose value is above `mid`, in order.
pub open spec fn split_high(ids: Seq<u64>, values: Seq<u64>, mid: u64, n: int) -> Seq<u64>
    decreases n,
{
    if n <= 0 {
        Seq::empty()
    } else if values[n - 1] > mid {
        split_high(ids, values, mid, n - 1).push(ids[n - 1])
    } else {
        split_high(ids, values, mid, n - 1)
    }
}

proof fn lemma_split_prefix(ids: Seq<u64>, values: Seq<u64>, mid: u64, n: int)
    requires
        0 <= n <= ids.len(),
        values.len() == ids.len(),
        ids.no_duplicates(),
    ensures
        split_low(ids, values, mid, n).no_duplicates(),
        split_high(ids, values, mid, n).no_duplicates(),
        split_low(ids, values, mid, n).len() + split_high(ids, values, mid, n).len() == n,
        forall|x: u64|
            #[trigger] split_low(ids, values, mid, n).contains(x) ==> exists|i: int|
                0 <= i < n && ids[i] == x && values[i] <= mid,
        forall|x: u64|
            #[trigger] split_high(ids, values, mid, n).contains(x) ==> exists|i: int|
                0 <= i < n && ids[i] == x && values[i] > mid,
        forall|i: int|
            0 <= i < n ==> (if values[i] <= mid {
                split_low(ids, values, mid, n).contains(#[trigger] ids[i])
            } else {
                split_high(ids, values, mid, n).contains(ids[i])
            }),
    decreases n,
{
    if n > 0 {
        lemma_split_prefix(ids, values, mid, n - 1);
        let lo = split_low(ids, values, mid, n - 1);
        let hi = split_high(ids, values, mid, n - 1);
        let x = ids[n - 1];
        if lo.contains(x) {
            let i = choose|i: int| 0 <= i < n - 1 && ids[i] == x && values[i] <= mid;
            assert(ids[i] == ids[n - 1]);
        }
        if hi.contains(x) {
            let i = choose|i: int| 0 <= i < n - 1 && ids[i] == x && values[i] > mid;
            assert(ids[i] == ids[n - 1]);
        }
        let lo2 = split_low(ids, values, mid, n);
        let hi2 = split_high(ids, values, mid, n);
        assert forall|y: u64| #[trigger] lo2.contains(y) implies exists|i: int|
            0 <= i < n && ids[i] == y && values[i] <= mid by {
            if !lo.contains(y) {
                let j = choose|j: int| 0 <= j < lo2.len() && lo2[j] == y;
                assert(j == lo.len());
            }
        }
        assert forall|y: u64| #[trigger] hi2.contains(y) implies exists|i: int|
            0 <= i < n && ids[i] == y && values[i] > mid by {
            if !hi.contains(y) {
                let j = choose|j: int| 0 <= j < hi2.len() && hi2[j] == y;
                assert(j == hi.len());
            }
        }
        assert forall|i: int| 0 <= i < n implies (if values[i] <= mid {
            lo2.contains(#[trigger] ids[i])
        } else {
            hi2.contains(ids[i])
        }) by {
            if i < n - 1 {
                if values[i] <= mid {
                    let j = choose|j: int| 0 <= j < lo.len() && lo[j] == ids[i];
                    assert(lo2[j] == ids[i]);
                } else {
                    let j = choose|j: int| 0 <= j < hi.len() && hi[j] == ids[i];
                    assert(hi2[j] == ids[i]);
                }
            } else if values[i] <= mid {
                assert(lo2[lo.len() as int] == ids[i]);
            } else {
                assert(hi2[hi.len() as int] == ids[i]);
            }
        }
    }
}

/// Splitting a duplicate-free list by value loses and duplicates nothing:
/// every listed identifier lands in exactly one half, each half is
/// duplicate-free, the halves together are as long as the list, and each
/// half holds only identifiers whose value belongs to it.
pub proof fn lemma_split_partitions(ids: Seq<u64>, values: Seq<u64>, mid: u64)
    requires
        values.len() == ids.len(),
        ids.no_duplicates(),
    ensures
        ({
            let low = split_low(ids, values, mid, ids.len() as int);
            let high = split_high(ids, values, mid, ids.len() as int);
            &&& low.no_duplicates()
            &&& high.no_duplicates()
            &&& low.len() + high.len() == ids.len()
            &&& forall|x: u64|
                ids.contains(x) <==> (#[trigger] low.contains(x) || high.contains(x))
            &&& forall|x: u64| !(#[trigger] low.contains(x) && high.contains(x))
            &&& forall|i: int| 0 <= i < ids.len() && #[trigger] low.contains(ids[i]) ==> values[i] <= mid
            &&& forall|i: int|
                0 <= i < ids.len() && #[trigger] high.contains(ids[i]) ==> values[i] > mid
        }),
{
    let n = ids.len() as int;
    lemma_split_prefix(ids, values, mid, n);
    let low = split_low(ids, values, mid, n);
    let high = split_high(ids, values, mid, n);
    assert forall|x: u64| ids.contains(x) <==> (#[trigger] low.contains(x) || high.contains(x)) by {
        if ids.contains(x) {
            let i = choose|i: int| 0 <= i < n && ids[i] == x;
            assert(if values[i] <= mid {
                low.contains(ids[i])
            } else {
                high.contains(ids[i])
            });
        }
        if low.contains(x) {
            let i = choose|i: int| 0 <= i < n && ids[i] == x && values[i] <= mid;
            assert(ids[i] == x);
        }
        if high.contains(x) {
            let i = choose|i: int| 0 <= i < n && ids[i] == x && values[i] > mid;
            assert(ids[i] == x);
        }
    }
    assert forall|x: u64| !(#[trigger] low.contains(x) && high.contains(x)) by {
        if low.contains(x) && high.contains(x) {
            let i = choose|i: int| 0 <= i < n && ids[i] == x && values[i] <= mid;
            let j = choose|j: int| 0 <= j < n && ids[j] == x && values[j] > mid;
            assert(i != j);
        }
    }
    assert forall|i: int| 0 <= i < n && #[trigger] low.contains(ids[i]) implies values[i] <= mid by {
        let j = choose|j: int| 0 <= j < n && ids[j] == ids[i] && values[j] <= mid;
        assert(i == j);
    }
    assert forall|i: int| 0 <= i < n && #[trigger] high.contains(ids[i]) implies values[i] > mid by {
        let j = choose|j: int| 0 <= j < n && ids[j] == ids[i] && values[j] > mid;
        assert(i == j);
    }
}

/// The two halves of a split, one after the other, are a rearrangement of
/// the list: as long, duplicate-free, and holding the same identifiers.
pub proof fn lemma_split_is_permutation(ids: Seq<u64>, values: Seq<u64>, mid: u64)
    requires
        values.len() == ids.len(),
        ids.no_duplicates(),
    ensures
        ({
            let both = split_low(ids, values, mid, ids.len() as int) + split_high(
                ids,
                values,
                mid,
                ids.len() as int,
            );
            &&& both.len() == ids.len()
            &&& both.no_duplicates()
            &&& forall|x: u64| #[trigger] both.contains(x) <==> ids.contains(x)
        }),
{
    lemma_split_partitions(ids, values, mid);
    let low = split_low(ids, values, mid, ids.len() as int);
    let high = split_high(ids, values, mid, ids.len() as int);
    let both = low + high;
    assert forall|x: u64| #[trigger] both.contains(x) <==> (low.contains(x) || high.contains(x)) by {
        if both.contains(x) {
            let k = choose|k: int| 0 <= k < both.len() && both[k] == x;
            if k < low.len() {
                assert(low[k] == x);
            } else {
                assert(high[k - low.len()] == x);
            }
        }
        if low.contains(x) {
            let k = choose|k: int| 0 <= k < low.len() && low[k] == x;
            assert(both[k] == x);
        }
        if high.contains(x) {
            let k = choose|k: int| 0 <= k < high.len() && high[k] == x;
            assert(both[k + low.len()] == x);
        }
    }
    assert forall|i: int, j: int| 0 <= i < both.len() && 0 <= j < both.len() && i != j implies both[i]
        != both[j] by {
        if i < low.len() && j < low.len() {
        } else if i >= low.len() && j >= low.len() {
            assert(both[i] == high[i - low.len()] && both[j] == high[j - low.len()]);
        } else if i < low.len() {
            assert(low.contains(both[i]));
            assert(high.contains(both[j])) by {
                assert(high[j - low.len()] == both[j]);
            }
        } else {
            assert(low.contains(both[j]));
            assert(high.contains(both[i])) by {
                assert(high[i - low.len()] == both[i]);
            }
        }
    }
}

/// Splits `ids` by `values` (the value of `ids[i]` is `values[i]`): those
/// at most `mid` and those above.
pub fn split_by_value(ids: &Vec<u64>, values: &Vec<u64>, mid: u64) -> (r: (Vec<u64>, Vec<u64>))
    requires
        values@.len() == ids@.len(),
    ensures
        r.0@ == split_low(ids@, values@, mid, ids@.len() as int),
        r.1@ == split_high(ids@, values@, mid, ids@.len() as int),
{
    let mut low: Vec<u64> = Vec::new();
    let mut high: Vec<u64> = Vec::new();
    let mut i: usize = 0;
    while i < ids.len()
        invariant
            values@.len() == ids@.len(),
            i <= ids@.len(),
            low@ == split_low(ids@, values@, mid, i as int),
            high@ == split_high(ids@, values@, mid, i as int),
        decreases ids@.len() - i,
    {
        if values[i] <= mid {
            low.push(ids[i]);
        } else {
            high.push(ids[i]);
        }
        i = i + 1;
    }
    (low, high)
}

/// The largest power of two at most `p`, or `p` itself when `p <= 1`.
pub open spec fn floor_pow2(p: nat) -> nat
    decreases p,
{
    if p <= 1 {
        p
    } else {
        2 * floor_pow2(p / 2)
    }
}

/// The largest power of two at most `p`, or `p` itself when `p <= 1`.
pub fn floor_power_of_two(p: u64) -> (r: u64)
    ensures
        r == floor_pow2(p as nat),
        r <= p,
{
    if p <= 1 {
        return p;
    }
    let mut r: u64 = 1;
    let mut temp: u64 = p;
    while temp > 1
        invariant
            1 <= temp,
            1 <= r,
            r * temp <= p,
            floor_pow2(p as nat) == r * floor_pow2(temp as nat),
        decreases temp,
    {
        assert(r * 2 <= r * temp) by (nonlinear_arith)
            requires
                temp >= 2,
                r >= 1,
        ;
        assert((r * 2) * (temp / 2) <= r * temp) by (nonlinear_arith)
            requires
                temp >= 2,
                r >= 1,
        ;
        assert(floor_pow2(temp as nat) == 2 * floor_pow2((temp / 2) as nat));
        assert(r * (2 * floor_pow2((temp / 2) as nat)) == (r * 2) * floor_pow2((temp / 2) as nat)) by (nonlinear_arith);
        r = r * 2;
        temp = temp / 2;
    }
    r
}

} // verus!
