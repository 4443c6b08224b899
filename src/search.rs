//! Search parameters, results and sorted identifier lists.
use vstd::prelude::*;
use crate::address::Address;

verus! {

/// Order of search results.
#[derive(Clone, Copy, Debug, PartialEq, Eq, Structural)]
pub enum SortOrder {
    Ascending,
    Descending,
}

/// Constraints a search applies.
pub struct SearchFilter {
    pub price_min: Option<u64>,
    pub price_max: Option<u64>,
    pub sales_min: Option<u32>,
    pub sales_max: Option<u32>,
    pub merchant: Option<Address>,
    pub keywords: Option<Vec<String>>,
    pub is_active_only: bool,
}

impl Default for SearchFilter {
    /// No constraint but active listings only.
    fn default() -> (r: Self)
        ensures
            r.price_min is None,
            r.price_max is None,
            r.sales_min is None,
            r.sales_max is None,
            r.merchant is None,
            r.keywords is None,
            r.is_active_only,
    {
        SearchFilter {
            price_min: None,
            price_max: None,
            sales_min: None,
            sales_max: None,
            merchant: None,
            keywords: None,
            is_active_only: true,
        }
    }
}

/// A page of search results.
pub struct SearchResult {
    pub product_ids: Vec<u64>,
    pub total_count: u32,
    pub has_more: bool,
    pub next_offset: u32,
}

impl SearchResult {
    /// The page `product_ids` found at `offset` with page size `limit`
    /// among `total_count` results; the next page starts after it, or at
    /// the end when there is none.
    pub fn new(product_ids: Vec<u64>, total_count: u32, offset: u32, limit: u16) -> (r: Self)
        ensures
            r.product_ids == product_ids,
            r.total_count == total_count,
            r.has_more == (offset + limit < total_count),
            r.next_offset == if offset + limit < total_count {
                offset + limit
            } else {
                total_count as int
            },
    {
        let has_more = (offset as u64) + (limit as u64) < total_count as u64;
        let next_offset = if has_more {
            offset + limit as u32
        } else {
            total_count
        };
        SearchResult { product_ids, total_count, has_more, next_offset }
    }
}

/// Counters of one query.
pub struct PerformanceStats {
    pub query_time_ms: u64,
    pub total_shards_searched: u32,
    pub bloom_filter_hits: u32,
    pub exact_matches: u32,
    pub false_positives: u32,
}

impl Default for PerformanceStats {
    /// All counters at zero.
    fn default() -> (r: Self)
        ensures
            r.query_time_ms == 0,
            r.total_shards_searched == 0,
            r.bloom_filter_hits == 0,
            r.exact_matches == 0,
            r.false_positives == 0,
    {
        PerformanceStats {
            query_time_ms: 0,
            total_shards_searched: 0,
            bloom_filter_hits: 0,
            exact_matches: 0,
            false_positives: 0,
        }
    }
}

/// Record counts and sizes.
pub struct MemoryStats {
    pub total_accounts: u32,
    pub total_size_bytes: u64,
    pub keyword_indexes: u32,
    pub price_indexes: u32,
    pub sales_indexes: u32,
    pub product_accounts: u32,
}

/// `x` rotated left by 13 bits.
pub open spec fn rotl13(x: u64) -> u64 {
    (x << 13u64) | (x >> 51u64)
}

/// A seed mixed from `base` and `salt`.
pub open spec fn seed_spec(base: u64, salt: u64) -> u64 {
    rotl13(base.wrapping_mul(0x9e3779b97f4a7c15).wrapping_add(salt).wrapping_mul(0x85ebca6b))
}

/// Mixes `base` and `salt` into a seed.
pub fn generate_seed(base: u64, salt: u64) -> (r: u64)
    ensures
        r == seed_spec(base, salt),
{
    let h = base.wrapping_mul(0x9e3779b97f4a7c15).wrapping_add(salt).wrapping_mul(0x85ebca6b);
    (h << 13u64) | (h >> 51u64)
}

/// Each entry is at most the next.
pub open spec fn sorted_seq(s: Seq<u64>) -> bool {
    forall|i: int| 0 <= i < s.len() - 1 ==> #[trigger] s[i] <= s[i + 1]
}

/// Each entry is below every later one.
pub open spec fn strictly_sorted(s: Seq<u64>) -> bool {
    forall|i: int, j: int| 0 <= i < j < s.len() ==> #[trigger] s[i] < #[trigger] s[j]
}

/// Whether each entry is at most the next.
pub fn is_sorted(vec: &[u64]) -> (r: bool)
    ensures
        r == sorted_seq(vec@),
{
    let mut i: usize = 1;
    if vec.len() == 0 {
        return true;
    }
    while i < vec.len()
        invariant
            1 <= i <= vec@.len(),
            forall|k: int| 0 <= k < i - 1 ==> #[trigger] vec@[k] <= vec@[k + 1],
        decreases vec@.len() - i,
    {
        if vec[i - 1] > vec[i] {
            return false;
        }
        i = i + 1;
    }
    true
}

/// The identifiers found in both lists, walking them side by side. For
/// strictly increasing lists the result is strictly increasing and holds
/// exactly the identifiers common to both.
pub fn intersect_sorted_vecs(a: &[u64], b: &[u64]) -> (r: Vec<u64>)
    ensures
        strictly_sorted(a@) && strictly_sorted(b@) ==> strictly_sorted(r@) && forall|x: u64|
            #[trigger] r@.contains(x) <==> (a@.contains(x) && b@.contains(x)),
{
    let ghost ok = strictly_sorted(a@) && strictly_sorted(b@);
    let mut result: Vec<u64> = Vec::new();
    let mut i: usize = 0;
    let mut j: usize = 0;
    while i < a.len() && j < b.len()
        invariant
            i <= a@.len(),
            j <= b@.len(),
            ok == (strictly_sorted(a@) && strictly_sorted(b@)),
            ok ==> strictly_sorted(result@),
            ok ==> forall|x: u64|
                #[trigger] result@.contains(x) <==> (a@.subrange(0, i as int).contains(x)
                    && b@.contains(x)),
            ok ==> forall|k: int| 0 <= k < i && j < b@.len() ==> #[trigger] a@[k] < b@[j as int],
            ok ==> forall|k: int| 0 <= k < j && i < a@.len() ==> #[trigger] b@[k] < a@[i as int],
            ok ==> forall|k: int|
                0 <= k < result@.len() && i < a@.len() ==> #[trigger] result@[k] < a@[i as int],
        decreases a@.len() - i + b@.len() - j,
    {
        let ghost r0 = result@;
        let ghost i0 = i as int;
        let ghost j0 = j as int;
        if a[i] == b[j] {
            result.push(a[i]);
            i = i + 1;
            j = j + 1;
            proof {
                if ok {
                    assert forall|x: u64| #[trigger] result@.contains(x) <==> (a@.subrange(
                        0,
                        i as int,
                    ).contains(x) && b@.contains(x)) by {
                        if result@.contains(x) && x != a@[i0] {
                            let k = choose|k: int| 0 <= k < result@.len() && result@[k] == x;
                            assert(r0[k] == x);
                        }
                        if a@.subrange(0, i as int).contains(x) && x != a@[i0] {
                            let k = choose|k: int| 0 <= k < i && a@.subrange(0, i as int)[k] == x;
                            assert(a@.subrange(0, i0).contains(x)) by {
                                assert(a@.subrange(0, i0)[k] == x);
                            }
                        }
                        if x == a@[i0] {
                            assert(result@[r0.len() as int] == x);
                            assert(a@.subrange(0, i as int)[i0] == x);
                            assert(b@[j0] == x);
                        }
                        if r0.contains(x) {
                            let k = choose|k: int| 0 <= k < r0.len() && r0[k] == x;
                            assert(result@[k] == x);
                        }
                    }
                    assert forall|k: int| 0 <= k < i && j < b@.len() implies #[trigger] a@[k]
                        < b@[j as int] by {
                        assert(b@[j0] < b@[j as int]);
                        if k < i0 {
                            assert(a@[k] < a@[i0]);
                        }
                    }
                    assert forall|k: int| 0 <= k < j && i < a@.len() implies #[trigger] b@[k]
                        < a@[i as int] by {
                        assert(a@[i0] < a@[i as int]);
                        if k < j0 {
                            assert(b@[k] < b@[j0]);
                        }
                    }
                    assert forall|k: int| 0 <= k < result@.len() && i < a@.len() implies #[trigger] result@[k]
                        < a@[i as int] by {
                        assert(a@[i0] < a@[i as int]);
                        if k < r0.len() {
                            assert(r0[k] < a@[i0]);
                        }
                    }
                }
            }
        } else if a[i] < b[j] {
            i = i + 1;
            proof {
                if ok {
                    assert(!b@.contains(a@[i0])) by {
                        if b@.contains(a@[i0]) {
                            let m = choose|m: int| 0 <= m < b@.len() && b@[m] == a@[i0];
                            if m < j0 {
                                assert(b@[m] < a@[i0]);
                            } else if m > j0 {
                                assert(b@[j0] < b@[m]);
                            }
                        }
                    }
                    assert forall|x: u64| #[trigger] result@.contains(x) <==> (a@.subrange(
                        0,
                        i as int,
                    ).contains(x) && b@.contains(x)) by {
                        if a@.subrange(0, i as int).contains(x) && x != a@[i0] {
                            let k = choose|k: int| 0 <= k < i && a@.subrange(0, i as int)[k] == x;
                            assert(a@.subrange(0, i0)[k] == x);
                        }
                        if a@.subrange(0, i0).contains(x) {
                            let k = choose|k: int| 0 <= k < i0 && a@.subrange(0, i0)[k] == x;
                            assert(a@.subrange(0, i as int)[k] == x);
                        }
                    }
                    assert forall|k: int| 0 <= k < j && i < a@.len() implies #[trigger] b@[k]
                        < a@[i as int] by {
                        assert(a@[i0] < a@[i as int]);
                    }
                    assert forall|k: int| 0 <= k < result@.len() && i < a@.len() implies #[trigger] result@[k]
                        < a@[i as int] by {
                        assert(a@[i0] < a@[i as int]);
                    }
                }
            }
        } else {
            j = j + 1;
            proof {
                if ok {
                    assert forall|k: int| 0 <= k < i && j < b@.len() implies #[trigger] a@[k]
                        < b@[j as int] by {
                        assert(b@[j0] < b@[j as int]);
                    }
                }
            }
        }
    }
    proof {
        if ok {
            assert forall|x: u64| #[trigger] result@.contains(x) <==> (a@.contains(x) && b@.contains(x)) by {
                if a@.contains(x) && b@.contains(x) {
                    let k = choose|k: int| 0 <= k < a@.len() && a@[k] == x;
                    if k < i {
                        assert(a@.subrange(0, i as int)[k] == x);
                    } else {
                        let m = choose|m: int| 0 <= m < b@.len() && b@[m] == x;
                        assert(j == b@.len());
                        assert(b@[m] < a@[i as int]);
                        if k > i {
                            assert(a@[i as int] < a@[k]);
                        }
                    }
                }
                if a@.subrange(0, i as int).contains(x) {
                    let k = choose|k: int| 0 <= k < i && a@.subrange(0, i as int)[k] == x;
                    assert(a@[k] == x);
                }
            }
        }
    }
    result
}

/// The identifiers found in either list, merged side by side. For
/// strictly increasing lists the result is strictly increasing and holds
/// exactly the identifiers of either.
pub fn union_sorted_vecs(a: &[u64], b: &[u64]) -> (r: Vec<u64>)
    ensures
        strictly_sorted(a@) && strictly_sorted(b@) ==> strictly_sorted(r@) && forall|x: u64|
            #[trigger] r@.contains(x) <==> (a@.contains(x) || b@.contains(x)),
{
    let ghost ok = strictly_sorted(a@) && strictly_sorted(b@);
    let mut result: Vec<u64> = Vec::new();
    let mut i: usize = 0;
    let mut j: usize = 0;
    while i < a.len() || j < b.len()
        invariant
            i <= a@.len(),
            j <= b@.len(),
            ok == (strictly_sorted(a@) && strictly_sorted(b@)),
            ok ==> strictly_sorted(result@),
            ok ==> forall|x: u64|
                #[trigger] result@.contains(x) <==> (a@.subrange(0, i as int).contains(x)
                    || b@.subrange(0, j as int).contains(x)),
            ok ==> forall|k: int|
                0 <= k < result@.len() && i < a@.len() ==> #[trigger] result@[k] < a@[i as int],
            ok ==> forall|k: int|
                0 <= k < result@.len() && j < b@.len() ==> #[trigger] result@[k] < b@[j as int],
        decreases a@.len() - i + b@.len() - j,
    {
        let ghost r0 = result@;
        let ghost i0 = i as int;
        let ghost j0 = j as int;
        let take_a = j >= b.len() || (i < a.len() && a[i] <= b[j]);
        let take_b = i >= a.len() || (j < b.len() && b[j] <= a[i]);
        let x = if take_a {
            a[i]
        } else {
            b[j]
        };
        result.push(x);
        if take_a {
            i = i + 1;
        }
        if take_b {
            j = j + 1;
        }
        proof {
            if ok {
                assert forall|y: u64| #[trigger] result@.contains(y) <==> (a@.subrange(
                    0,
                    i as int,
                ).contains(y) || b@.subrange(0, j as int).contains(y)) by {
                    if result@.contains(y) && y != x {
                        let k = choose|k: int| 0 <= k < result@.len() && result@[k] == y;
                        assert(r0[k] == y);
                        assert(r0.contains(y));
                        if a@.subrange(0, i0).contains(y) {
                            let m = choose|m: int| 0 <= m < i0 && a@.subrange(0, i0)[m] == y;
                            assert(a@.subrange(0, i as int)[m] == y);
                        } else {
                            let m = choose|m: int| 0 <= m < j0 && b@.subrange(0, j0)[m] == y;
                            assert(b@.subrange(0, j as int)[m] == y);
                        }
                    }
                    if y == x {
                        assert(result@[r0.len() as int] == y);
                        if take_a {
                            assert(a@.subrange(0, i as int)[i0] == y);
                        } else {
                            assert(b@.subrange(0, j as int)[j0] == y);
                        }
                    }
                    if a@.subrange(0, i as int).contains(y) && y != x {
                        let m = choose|m: int| 0 <= m < i && a@.subrange(0, i as int)[m] == y;
                        if m < i0 {
                            assert(a@.subrange(0, i0)[m] == y);
                            assert(r0.contains(y));
                            let k = choose|k: int| 0 <= k < r0.len() && r0[k] == y;
                            assert(result@[k] == y);
                        } else {
                            assert(take_a && a@[i0] == y);
                        }
                    }
                    if b@.subrange(0, j as int).contains(y) && y != x {
                        let m = choose|m: int| 0 <= m < j && b@.subrange(0, j as int)[m] == y;
                        if m < j0 {
                            assert(b@.subrange(0, j0)[m] == y);
                            assert(r0.contains(y));
                            let k = choose|k: int| 0 <= k < r0.len() && r0[k] == y;
                            assert(result@[k] == y);
                        } else {
                            assert(take_b && b@[j0] == y);
                        }
                    }
                }
                assert forall|p: int, q: int| 0 <= p < q < result@.len() implies #[trigger] result@[p]
                    < #[trigger] result@[q] by {
                    if q == r0.len() {
                        assert(result@[p] == r0[p]);
                        if take_a {
                            assert(r0[p] < a@[i0]);
                        } else {
                            assert(r0[p] < b@[j0]);
                        }
                    } else {
                        assert(r0[p] < r0[q]);
                    }
                }
                assert forall|k: int| 0 <= k < result@.len() && i < a@.len() implies #[trigger] result@[k]
                    < a@[i as int] by {
                    if take_a {
                        assert(a@[i0] < a@[i as int]);
                        if k < r0.len() {
                            assert(r0[k] < a@[i0]);
                        }
                    } else {
                        assert(x < a@[i0]);
                        if k < r0.len() {
                            assert(r0[k] < a@[i0]);
                        }
                    }
                }
                assert forall|k: int| 0 <= k < result@.len() && j < b@.len() implies #[trigger] result@[k]
                    < b@[j as int] by {
                    if take_b {
                        assert(b@[j0] < b@[j as int]);
                        if k < r0.len() {
                            assert(r0[k] < b@[j0]);
                        }
                    } else {
                        assert(x < b@[j0]);
                        if k < r0.len() {
                            assert(r0[k] < b@[j0]);
                        }
                    }
                }
            }
        }
    }
    proof {
        assert(a@.subrange(0, i as int) =~= a@);
        assert(b@.subrange(0, j as int) =~= b@);
    }
    result
}

/// Index of the first entry at least `target`, in a sorted list.
fn lower_bound(vec: &[u64], target: u64) -> (r: usize)
    requires
        forall|i: int, j: int| 0 <= i <= j < vec@.len() ==> #[trigger] vec@[i] <= #[trigger] vec@[j],
    ensures
        r <= vec@.len(),
        forall|k: int| 0 <= k < r ==> #[trigger] vec@[k] < target,
        forall|k: int| r <= k < vec@.len() ==> #[trigger] vec@[k] >= target,
{
    let mut lo: usize = 0;
    let mut hi: usize = vec.len();
    while lo < hi
        invariant
            forall|i: int, j: int| 0 <= i <= j < vec@.len() ==> #[trigger] vec@[i] <= #[trigger] vec@[j],
            0 <= lo <= hi <= vec@.len(),
            forall|k: int| 0 <= k < lo ==> #[trigger] vec@[k] < target,
            forall|k: int| hi <= k < vec@.len() ==> #[trigger] vec@[k] >= target,
        decreases hi - lo,
    {
        let mid = lo + (hi - lo) / 2;
        if vec[mid] < target {
            assert forall|k: int| 0 <= k <= mid implies #[trigger] vec@[k] < target by {
                assert(vec@[k] <= vec@[mid as int]);
            }
            lo = mid + 1;
        } else {
            assert forall|k: int| mid <= k < vec@.len() implies #[trigger] vec@[k] >= target by {
                assert(vec@[mid as int] <= vec@[k]);
            }
            hi = mid;
        }
    }
    lo
}

/// The index range `start .. end` of the entries within `min ..= max` of a
/// sorted list.
pub fn binary_search_range(vec: &[u64], min: u64, max: u64) -> (r: (usize, usize))
    requires
        max < u64::MAX,
        forall|i: int, j: int| 0 <= i <= j < vec@.len() ==> #[trigger] vec@[i] <= #[trigger] vec@[j],
    ensures
        r.0 <= vec@.len(),
        r.1 <= vec@.len(),
        forall|k: int| 0 <= k < r.0 ==> #[trigger] vec@[k] < min,
        forall|k: int| r.0 <= k < vec@.len() ==> #[trigger] vec@[k] >= min,
        forall|k: int| 0 <= k < r.1 ==> #[trigger] vec@[k] <= max,
        forall|k: int| r.1 <= k < vec@.len() ==> #[trigger] vec@[k] > max,
{
    let start = lower_bound(vec, min);
    let end = lower_bound(vec, max + 1);
    (start, end)
}

} // verus!
