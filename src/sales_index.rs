//! Sales range index with a cached top-seller list.
//!
//! Structured like the price index, keyed by sales count in fixed-width
//! buckets of `SALES_INTERVAL`. Each node also keeps `top_items`: at most
//! `TOP_ITEMS_CAPACITY` entries, one per listing, sorted by sales from the
//! highest; an update re-ranks one entry without sorting the whole list.
use vstd::prelude::*;
use crate::address::{seeds_view, u32_le, u32_seed, Address};
use crate::clock::get_current_timestamp;
use crate::error::ErrorCode;
use crate::id_list::{contains_id, inserted_ids, lemma_inserted_no_duplicates, lemma_removed_no_duplicates, page, page_of, remove_id, removed_ids};
use crate::price_index::NODE_CAPACITY;
use crate::range_split::{lemma_split_partitions, split_by_value, split_high, split_low};

verus! {

/// Most entries in a node's top-seller list.
pub const TOP_ITEMS_CAPACITY: usize = 20;

/// Width of the sales buckets.
pub const SALES_INTERVAL: u32 = 1000;

/// Listings above which a node is worth splitting.
pub const SALES_SPLIT_THRESHOLD: usize = 100;

/// An entry of a top-seller list.
pub struct ProductSales {
    pub product_id: u64,
    pub merchant: Address,
    pub name: String,
    pub price: u64,
    pub sales: u32,
    pub last_update: i64,
}

/// A node of the sales index: the listings whose sales count lies within
/// `sales_range_start ..= sales_range_end`, and its top sellers.
pub struct SalesIndexNode {
    pub sales_range_start: u32,
    pub sales_range_end: u32,
    pub product_ids: Vec<u64>,
    pub top_items: Vec<ProductSales>,
    pub left_child: Option<Address>,
    pub right_child: Option<Address>,
    pub parent: Option<Address>,
    pub height: u8,
    pub bump: u8,
}

/// Seed tag of sales nodes, the bytes of `sales_index`.
pub open spec fn sales_index_tag() -> Seq<u8> {
    seq![115u8, 97, 108, 101, 115, 95, 105, 110, 100, 101, 120]
}

/// Entries sorted by sales, highest first.
pub open spec fn sorted_by_sales(items: Seq<ProductSales>) -> bool {
    forall|i: int, j: int| 0 <= i < j < items.len() ==> #[trigger] items[i].sales >= #[trigger] items[j].sales
}

/// No two entries for the same listing.
pub open spec fn distinct_products(items: Seq<ProductSales>) -> bool {
    forall|i: int, j: int|
        0 <= i < items.len() && 0 <= j < items.len() && i != j ==> #[trigger] items[i].product_id
            != #[trigger] items[j].product_id
}

/// Whether some entry is for listing `id`.
pub open spec fn has_entry(items: Seq<ProductSales>, id: u64) -> bool {
    exists|i: int| 0 <= i < items.len() && #[trigger] items[i].product_id == id
}

/// Where the entry for `id` is.
pub open spec fn entry_index(items: Seq<ProductSales>, id: u64) -> int {
    choose|i: int| 0 <= i < items.len() && #[trigger] items[i].product_id == id
}

/// The list without the entry for `id`.
pub open spec fn without_entry(items: Seq<ProductSales>, id: u64) -> Seq<ProductSales> {
    if has_entry(items, id) {
        items.remove(entry_index(items, id))
    } else {
        items
    }
}

/// `p` splits the list into the entries with at least `sales` and those
/// with fewer.
pub open spec fn rank_boundary(items: Seq<ProductSales>, sales: u32, p: int) -> bool {
    &&& 0 <= p <= items.len()
    &&& forall|i: int| 0 <= i < p ==> #[trigger] items[i].sales >= sales
    &&& forall|i: int| p <= i < items.len() ==> #[trigger] items[i].sales < sales
}

/// Where an entry with `sales` goes: after every entry with as many sales
/// or more, before every entry with fewer.
pub open spec fn rank_position(items: Seq<ProductSales>, sales: u32) -> int {
    choose|p: int| rank_boundary(items, sales, p)
}

/// The list cut to `TOP_ITEMS_CAPACITY` entries.
pub open spec fn truncated(items: Seq<ProductSales>) -> Seq<ProductSales> {
    if items.len() > TOP_ITEMS_CAPACITY {
        items.subrange(0, TOP_ITEMS_CAPACITY as int)
    } else {
        items
    }
}

/// The list after entry `e` is ranked in: any old entry for the same
/// listing leaves, `e` goes in at its rank, and the list is cut to
/// capacity.
pub open spec fn rank_insert(items: Seq<ProductSales>, e: ProductSales) -> Seq<ProductSales> {
    let base = without_entry(items, e.product_id);
    truncated(base.insert(rank_position(base, e.sales), e))
}

/// The entry an update writes: the listing, its sales and the time; the
/// display fields are left blank.
pub open spec fn fresh_entry(e: ProductSales, id: u64, sales: u32, now: i64) -> bool {
    &&& e.product_id == id
    &&& e.sales == sales
    &&& e.last_update == now
    &&& e.price == 0
    &&& e.name@.len() == 0
    &&& e.merchant@ == Seq::new(32, |i: int| 0u8)
}

/// `new` is `old` with listing `id` ranked in at `sales`, stamped `now`.
pub open spec fn top_updated(old: Seq<ProductSales>, new: Seq<ProductSales>, id: u64, sales: u32, now: i64) -> bool {
    exists|e: ProductSales| fresh_entry(e, id, sales, now) && new == rank_insert(old, e)
}

/// A list sorted by sales with one entry per listing.
pub open spec fn ranked_ok(items: Seq<ProductSales>) -> bool {
    &&& sorted_by_sales(items)
    &&& distinct_products(items)
}

/// A ranked, bounded list with one entry per listing.
pub open spec fn top_list_ok(items: Seq<ProductSales>) -> bool {
    &&& items.len() <= TOP_ITEMS_CAPACITY
    &&& ranked_ok(items)
}

proof fn lemma_rank_boundary_unique(items: Seq<ProductSales>, sales: u32, p: int)
    requires
        rank_boundary(items, sales, p),
    ensures
        rank_position(items, sales) == p,
{
    let q = rank_position(items, sales);
    assert(rank_boundary(items, sales, q));
    if q < p {
        assert(items[q].sales >= sales);
    } else if q > p {
        assert(items[p].sales >= sales);
    }
}

proof fn lemma_without_entry(items: Seq<ProductSales>, id: u64)
    requires
        ranked_ok(items),
    ensures
        ranked_ok(without_entry(items, id)),
        without_entry(items, id).len() <= items.len(),
        !has_entry(without_entry(items, id), id),
        forall|x: ProductSales| #[trigger] without_entry(items, id).contains(x) ==> items.contains(x),
{
    if has_entry(items, id) {
        let k = entry_index(items, id);
        let r = items.remove(k);
        assert forall|i: int, j: int| 0 <= i < j < r.len() implies #[trigger] r[i].sales
            >= #[trigger] r[j].sales by {
            let ii = if i < k { i } else { i + 1 };
            let jj = if j < k { j } else { j + 1 };
            assert(items[ii].sales >= items[jj].sales);
        }
        assert forall|i: int, j: int|
            0 <= i < r.len() && 0 <= j < r.len() && i != j implies #[trigger] r[i].product_id
            != #[trigger] r[j].product_id by {
            let ii = if i < k { i } else { i + 1 };
            let jj = if j < k { j } else { j + 1 };
            assert(items[ii].product_id != items[jj].product_id);
        }
        if has_entry(r, id) {
            let i = choose|i: int| 0 <= i < r.len() && #[trigger] r[i].product_id == id;
            let ii = if i < k { i } else { i + 1 };
            assert(items[ii].product_id == items[k].product_id);
        }
        assert forall|x: ProductSales| #[trigger] r.contains(x) implies items.contains(x) by {
            let i = choose|i: int| 0 <= i < r.len() && r[i] == x;
            let ii = if i < k { i } else { i + 1 };
            assert(items[ii] == x);
        }
    }
}

/// Placing an entry at its rank in a ranked list without it keeps the list
/// ranked.
proof fn lemma_place(base: Seq<ProductSales>, e: ProductSales)
    requires
        ranked_ok(base),
        !has_entry(base, e.product_id),
    ensures
        ranked_ok(base.insert(rank_position(base, e.sales), e)),
        base.insert(rank_position(base, e.sales), e).len() == base.len() + 1,
        0 <= rank_position(base, e.sales) <= base.len(),
{
    let p = rank_position(base, e.sales);
    lemma_count_prefix(base, e.sales);
    lemma_rank_boundary_unique(base, e.sales, count_prefix(base, e.sales));
    assert(rank_boundary(base, e.sales, p));
    let placed = base.insert(p, e);
    assert forall|i: int, j: int| 0 <= i < j < placed.len() implies #[trigger] placed[i].sales
        >= #[trigger] placed[j].sales by {
        if j < p {
            assert(placed[i] == base[i] && placed[j] == base[j]);
        } else if j == p {
            assert(placed[i] == base[i]);
        } else if i < p {
            assert(placed[i] == base[i] && placed[j] == base[j - 1]);
        } else if i == p {
            assert(placed[j] == base[j - 1]);
        } else {
            assert(placed[i] == base[i - 1] && placed[j] == base[j - 1]);
        }
    }
    assert forall|i: int, j: int|
        0 <= i < placed.len() && 0 <= j < placed.len() && i != j implies #[trigger] placed[i].product_id
        != #[trigger] placed[j].product_id by {
        if i != p && j != p {
            let ii = if i < p { i } else { i - 1 };
            let jj = if j < p { j } else { j - 1 };
            assert(placed[i] == base[ii] && placed[j] == base[jj]);
        } else if i == p {
            let jj = if j < p { j } else { j - 1 };
            assert(placed[j] == base[jj]);
        } else {
            let ii = if i < p { i } else { i - 1 };
            assert(placed[i] == base[ii]);
        }
    }
}

proof fn lemma_rank_insert(items: Seq<ProductSales>, e: ProductSales)
    requires
        top_list_ok(items),
    ensures
        top_list_ok(rank_insert(items, e)),
{
    lemma_without_entry(items, e.product_id);
    let base = without_entry(items, e.product_id);
    lemma_place(base, e);
    let placed = base.insert(rank_position(base, e.sales), e);
    if placed.len() > TOP_ITEMS_CAPACITY {
        let t = placed.subrange(0, TOP_ITEMS_CAPACITY as int);
        assert forall|i: int, j: int| 0 <= i < j < t.len() implies #[trigger] t[i].sales
            >= #[trigger] t[j].sales by {
            assert(placed[i].sales >= placed[j].sales);
        }
        assert forall|i: int, j: int|
            0 <= i < t.len() && 0 <= j < t.len() && i != j implies #[trigger] t[i].product_id
            != #[trigger] t[j].product_id by {
            assert(placed[i].product_id != placed[j].product_id);
        }
    }
}

/// Number of leading entries with at least `sales`.
spec fn count_prefix(items: Seq<ProductSales>, sales: u32) -> int
    decreases items.len(),
{
    if items.len() == 0 || items[0].sales < sales {
        0
    } else {
        1 + count_prefix(items.subrange(1, items.len() as int), sales)
    }
}

proof fn lemma_count_prefix(items: Seq<ProductSales>, sales: u32)
    requires
        sorted_by_sales(items),
    ensures
        rank_boundary(items, sales, count_prefix(items, sales)),
    decreases items.len(),
{
    if items.len() > 0 && items[0].sales >= sales {
        let rest = items.subrange(1, items.len() as int);
        assert forall|i: int, j: int| 0 <= i < j < rest.len() implies #[trigger] rest[i].sales
            >= #[trigger] rest[j].sales by {
            assert(items[i + 1].sales >= items[j + 1].sales);
        }
        lemma_count_prefix(rest, sales);
        let c = count_prefix(rest, sales);
        assert forall|i: int| 0 <= i < 1 + c implies #[trigger] items[i].sales >= sales by {
            if i > 0 {
                assert(items[i] == rest[i - 1]);
            }
        }
        assert forall|i: int| 1 + c <= i < items.len() implies #[trigger] items[i].sales < sales by {
            assert(items[i] == rest[i - 1]);
        }
    } else if items.len() > 0 {
        assert forall|i: int| 0 <= i < items.len() implies #[trigger] items[i].sales < sales by {
            if i > 0 {
                assert(items[0].sales >= items[i].sales);
            }
        }
    }
}

/// A copy of the entry.
fn copy_entry(e: &ProductSales) -> (r: ProductSales)
    ensures
        r == *e,
{
    ProductSales {
        product_id: e.product_id,
        merchant: e.merchant,
        name: e.name.clone(),
        price: e.price,
        sales: e.sales,
        last_update: e.last_update,
    }
}

/// Where the entry for `id` is.
fn entry_position(items: &Vec<ProductSales>, id: u64) -> (r: Option<usize>)
    ensures
        match r {
            Some(i) => i < items@.len() && items@[i as int].product_id == id,
            None => !has_entry(items@, id),
        },
{
    let mut i: usize = 0;
    while i < items.len()
        invariant
            i <= items@.len(),
            forall|j: int| 0 <= j < i ==> #[trigger] items@[j].product_id != id,
        decreases items@.len() - i,
    {
        if items[i].product_id == id {
            return Some(i);
        }
        i = i + 1;
    }
    None
}

/// Binary search for the rank of `sales` in a list sorted by sales.
fn rank_slot(items: &Vec<ProductSales>, sales: u32) -> (r: usize)
    requires
        sorted_by_sales(items@),
    ensures
        rank_boundary(items@, sales, r as int),
{
    let mut lo: usize = 0;
    let mut hi: usize = items.len();
    while lo < hi
        invariant
            sorted_by_sales(items@),
            0 <= lo <= hi <= items@.len(),
            forall|i: int| 0 <= i < lo ==> #[trigger] items@[i].sales >= sales,
            forall|i: int| hi <= i < items@.len() ==> #[trigger] items@[i].sales < sales,
        decreases hi - lo,
    {
        let mid = lo + (hi - lo) / 2;
        if items[mid].sales >= sales {
            assert forall|i: int| 0 <= i <= mid implies #[trigger] items@[i].sales >= sales by {
                if i < mid {
                    assert(items@[i].sales >= items@[mid as int].sales);
                }
            }
            lo = mid + 1;
        } else {
            assert forall|i: int| mid <= i < items@.len() implies #[trigger] items@[i].sales < sales by {
                if i > mid {
                    assert(items@[mid as int].sales >= items@[i].sales);
                }
            }
            hi = mid;
        }
    }
    lo
}

/// Removes the entry for `id`, if any, from a ranked list.
fn remove_entry(items: &mut Vec<ProductSales>, id: u64)
    requires
        ranked_ok(old(items)@),
    ensures
        final(items)@ == without_entry(old(items)@, id),
        ranked_ok(final(items)@),
        final(items)@.len() <= old(items)@.len(),
{
    proof {
        lemma_without_entry(items@, id);
    }
    match entry_position(items, id) {
        Some(i) => {
            proof {
                let k = entry_index(items@, id);
                assert(has_entry(items@, id));
                assert(items@[k].product_id == id);
                assert(k == i);
            }
            items.remove(i);
        },
        None => {},
    }
}

/// Ranks listing `id` into the list at `sales`, stamped `now`.
fn rank_entry(items: &mut Vec<ProductSales>, id: u64, sales: u32, now: i64)
    requires
        top_list_ok(old(items)@),
    ensures
        top_updated(old(items)@, final(items)@, id, sales, now),
        top_list_ok(final(items)@),
{
    let e = ProductSales {
        product_id: id,
        merchant: [0u8; 32],
        name: String::new(),
        price: 0,
        sales,
        last_update: now,
    };
    let ghost ge = e;
    assert(ge.merchant@ =~= Seq::new(32, |i: int| 0u8));
    let ghost old_items = items@;
    proof {
        lemma_rank_insert(old_items, ge);
    }
    remove_entry(items, id);
    let pos = rank_slot(items, sales);
    proof {
        lemma_rank_boundary_unique(items@, sales, pos as int);
    }
    items.insert(pos, e);
    if items.len() > TOP_ITEMS_CAPACITY {
        items.truncate(TOP_ITEMS_CAPACITY);
    }
    assert(items@ == rank_insert(old_items, ge));
    assert(fresh_entry(ge, id, sales, now));
}

/// What adding listing `id` at `sales`, stamped `now`, does to a node:
/// the listing is listed and ranked when new and in range; a failure
/// changes nothing.
pub open spec fn node_add_post(
    old: SalesIndexNode,
    new: SalesIndexNode,
    r: Result<(), ErrorCode>,
    id: u64,
    sales: u32,
    now: i64,
) -> bool {
    match r {
        Ok(()) => {
            &&& old.holds_sales(sales)
            &&& new.same_but_lists(&old)
            &&& new.product_ids@ == inserted_ids(old.product_ids@, id)
            &&& if old.product_ids@.contains(id) {
                new.top_items == old.top_items
            } else {
                top_updated(old.top_items@, new.top_items@, id, sales, now)
            }
        },
        Err(e) => {
            &&& new == old
            &&& if !old.holds_sales(sales) {
                e == ErrorCode::InvalidSalesRange
            } else {
                &&& e == ErrorCode::ShardIsFull
                &&& !old.product_ids@.contains(id)
                &&& old.product_ids@.len() >= NODE_CAPACITY
            }
        },
    }
}

impl SalesIndexNode {
    /// The list is bounded and duplicate-free and the top list is ranked.
    pub open spec fn wf(&self) -> bool {
        &&& self.product_ids@.len() <= NODE_CAPACITY
        &&& self.product_ids@.no_duplicates()
        &&& top_list_ok(self.top_items@)
    }

    /// Whether `sales` lies in the node's range.
    pub open spec fn holds_sales(&self, sales: u32) -> bool {
        self.sales_range_start <= sales <= self.sales_range_end
    }

    /// The node with another listing list and top list, all else equal.
    pub open spec fn same_but_lists(&self, other: &SalesIndexNode) -> bool {
        *self == (SalesIndexNode {
            product_ids: self.product_ids,
            top_items: self.top_items,
            ..*other
        })
    }

    /// Seeds of the node for `sales_range_start ..= sales_range_end`.
    pub fn seeds(sales_range_start: u32, sales_range_end: u32) -> (r: Vec<Vec<u8>>)
        ensures
            seeds_view(r@) == seq![sales_index_tag(), u32_le(sales_range_start), u32_le(sales_range_end)],
    {
        let tag = vec![115u8, 97, 108, 101, 115, 95, 105, 110, 100, 101, 120];
        let r = vec![tag, u32_seed(sales_range_start), u32_seed(sales_range_end)];
        assert(seeds_view(r@) =~= seq![
            sales_index_tag(),
            u32_le(sales_range_start),
            u32_le(sales_range_end),
        ]);
        r
    }

    /// Makes this an empty leaf for `sales_range_start ..= sales_range_end`.
    pub fn initialize(&mut self, sales_range_start: u32, sales_range_end: u32, bump: u8)
        ensures
            final(self).wf(),
            final(self).sales_range_start == sales_range_start,
            final(self).sales_range_end == sales_range_end,
            final(self).product_ids@.len() == 0,
            final(self).top_items@.len() == 0,
            final(self).left_child is None,
            final(self).right_child is None,
            final(self).parent is None,
            final(self).height == 1,
            final(self).bump == bump,
    {
        self.sales_range_start = sales_range_start;
        self.sales_range_end = sales_range_end;
        self.product_ids = Vec::new();
        self.top_items = Vec::new();
        self.left_child = None;
        self.right_child = None;
        self.parent = None;
        self.height = 1;
        self.bump = bump;
    }

    /// Ranks listing `product_id` into the top list at `sales`, stamped `now`.
    pub fn update_top_items_at(&mut self, product_id: u64, sales: u32, now: i64)
        requires
            old(self).wf(),
        ensures
            final(self).wf(),
            final(self).product_ids == old(self).product_ids,
            final(self).same_but_lists(old(self)),
            top_updated(old(self).top_items@, final(self).top_items@, product_id, sales, now),
    {
        rank_entry(&mut self.top_items, product_id, sales, now);
    }

    /// Ranks listing `product_id` into the top list at `sales`, stamped with
    /// the cluster clock. Fails with `InvalidTimestamp`, changing nothing,
    /// when the clock cannot be read.
    pub fn update_top_items(&mut self, product_id: u64, sales: u32) -> (r: Result<(), ErrorCode>)
        requires
            old(self).wf(),
        ensures
            final(self).wf(),
            match r {
                Ok(()) => {
                    &&& final(self).product_ids == old(self).product_ids
                    &&& final(self).same_but_lists(old(self))
                    &&& exists|now: i64|
                        top_updated(old(self).top_items@, final(self).top_items@, product_id, sales, now)
                },
                Err(e) => e == ErrorCode::InvalidTimestamp && *final(self) == *old(self),
            },
    {
        let now = match get_current_timestamp() {
            Ok(now) => now,
            Err(e) => {
                return Err(e);
            },
        };
        self.update_top_items_at(product_id, sales, now);
        Ok(())
    }

    /// Drops the top-list entry of `product_id`, if any.
    pub fn remove_from_top_items(&mut self, product_id: u64)
        requires
            old(self).wf(),
        ensures
            final(self).wf(),
            final(self).product_ids == old(self).product_ids,
            final(self).same_but_lists(old(self)),
            final(self).top_items@ == without_entry(old(self).top_items@, product_id),
    {
        remove_entry(&mut self.top_items, product_id);
    }

    /// Lists `product_id` at `sales` and ranks it into the top list, stamped
    /// `now`; nothing changes when it is already listed. Fails, changing
    /// nothing, with `InvalidSalesRange` for sales outside the node and
    /// `ShardIsFull` when a new listing finds the node full.
    pub fn add_product_at(&mut self, product_id: u64, sales: u32, now: i64) -> (r: Result<(), ErrorCode>)
        requires
            old(self).wf(),
        ensures
            final(self).wf(),
            node_add_post(*old(self), *final(self), r, product_id, sales, now),
    {
        if sales < self.sales_range_start || sales > self.sales_range_end {
            return Err(ErrorCode::InvalidSalesRange);
        }
        if contains_id(&self.product_ids, product_id) {
            return Ok(());
        }
        if self.product_ids.len() >= NODE_CAPACITY {
            return Err(ErrorCode::ShardIsFull);
        }
        proof {
            lemma_inserted_no_duplicates(self.product_ids@, product_id);
        }
        self.product_ids.push(product_id);
        self.update_top_items_at(product_id, sales, now);
        Ok(())
    }

    /// Unlists `product_id` and drops its top-list entry, if it has one;
    /// true when it was listed.
    pub fn remove_product(&mut self, product_id: u64) -> (r: Result<bool, ErrorCode>)
        requires
            old(self).wf(),
        ensures
            final(self).wf(),
            r == Ok::<bool, ErrorCode>(old(self).product_ids@.contains(product_id)),
            final(self).same_but_lists(old(self)),
            final(self).product_ids@ == removed_ids(old(self).product_ids@, product_id),
            final(self).top_items@ == without_entry(old(self).top_items@, product_id),
    {
        proof {
            lemma_removed_no_duplicates(self.product_ids@, product_id);
        }
        let found = remove_id(&mut self.product_ids, product_id);
        self.remove_from_top_items(product_id);
        Ok(found)
    }

    /// Re-ranks a listed `product_id` at `new_sales`, stamped `now`; an
    /// unlisted one changes nothing.
    pub fn update_product_sales_at(&mut self, product_id: u64, new_sales: u32, now: i64)
        requires
            old(self).wf(),
        ensures
            final(self).wf(),
            final(self).product_ids == old(self).product_ids,
            final(self).same_but_lists(old(self)),
            if old(self).product_ids@.contains(product_id) {
                top_updated(old(self).top_items@, final(self).top_items@, product_id, new_sales, now)
            } else {
                final(self).top_items == old(self).top_items
            },
    {
        if contains_id(&self.product_ids, product_id) {
            self.update_top_items_at(product_id, new_sales, now);
        }
    }

    /// Whether `sales` lies in the node's range.
    pub fn contains_sales(&self, sales: u32) -> (r: bool)
        ensures
            r == self.holds_sales(sales),
    {
        sales >= self.sales_range_start && sales <= self.sales_range_end
    }

    /// Whether the node has no child.
    pub fn is_leaf(&self) -> (r: bool)
        ensures
            r == (self.left_child is None && self.right_child is None),
    {
        self.left_child.is_none() && self.right_child.is_none()
    }

    /// Whether the node holds over `SALES_SPLIT_THRESHOLD` listings;
    /// advisory only.
    pub fn needs_split(&self) -> (r: bool)
        ensures
            r == (self.product_ids@.len() > SALES_SPLIT_THRESHOLD),
    {
        self.product_ids.len() > SALES_SPLIT_THRESHOLD
    }

    /// Whether the node holds under a quarter of `SALES_SPLIT_THRESHOLD`
    /// listings; advisory only.
    pub fn needs_merge(&self) -> (r: bool)
        ensures
            r == (self.product_ids@.len() < SALES_SPLIT_THRESHOLD / 4),
    {
        self.product_ids.len() < SALES_SPLIT_THRESHOLD / 4
    }

    /// The node's height on the side of each child present, right minus
    /// left.
    pub fn balance_factor(&self) -> (r: i8)
        requires
            self.height < 128,
        ensures
            r == (if self.right_child is Some { self.height as int } else { 0 }) - (if self.left_child is Some {
                self.height as int
            } else {
                0
            }),
    {
        let left_height: u8 = if self.left_child.is_some() {
            self.height
        } else {
            0
        };
        let right_height: u8 = if self.right_child.is_some() {
            self.height
        } else {
            0
        };
        (right_height as i8) - (left_height as i8)
    }

    /// Sets the height to one more than the taller child.
    pub fn update_height(&mut self, left_height: u8, right_height: u8)
        requires
            left_height < 255,
            right_height < 255,
        ensures
            final(self).height == 1 + if left_height > right_height {
                left_height
            } else {
                right_height
            },
            *final(self) == (SalesIndexNode { height: final(self).height, ..*old(self) }),
    {
        let taller = if left_height > right_height {
            left_height
        } else {
            right_height
        };
        self.height = 1 + taller;
    }

    /// All listings of the node when its range meets `min_sales ..= max_sales`,
    /// none otherwise.
    pub fn get_products_in_range(&self, min_sales: u32, max_sales: u32) -> (r: Vec<u64>)
        ensures
            r@ == if min_sales <= self.sales_range_end && max_sales >= self.sales_range_start {
                self.product_ids@
            } else {
                Seq::empty()
            },
    {
        if min_sales <= self.sales_range_end && max_sales >= self.sales_range_start {
            self.product_ids.clone()
        } else {
            Vec::new()
        }
    }

    /// The first `limit` entries of the top list.
    pub fn get_top_products(&self, limit: usize) -> (r: Vec<ProductSales>)
        ensures
            r@ == if limit < self.top_items@.len() {
                self.top_items@.subrange(0, limit as int)
            } else {
                self.top_items@
            },
    {
        let n = if limit < self.top_items.len() {
            limit
        } else {
            self.top_items.len()
        };
        let mut r: Vec<ProductSales> = Vec::new();
        let mut i: usize = 0;
        while i < n
            invariant
                n <= self.top_items@.len(),
                i <= n,
                r@ == self.top_items@.subrange(0, i as int),
            decreases n - i,
        {
            r.push(copy_entry(&self.top_items[i]));
            i = i + 1;
            assert(r@ =~= self.top_items@.subrange(0, i as int));
        }
        assert(r@ =~= if limit < self.top_items@.len() {
            self.top_items@.subrange(0, limit as int)
        } else {
            self.top_items@
        });
        r
    }
}

impl SalesIndexNode {
    /// Adds listing `product_id` at `sales` as `add_product_at` does,
    /// stamped with the cluster clock. Fails with `InvalidTimestamp`,
    /// changing nothing, when the clock cannot be read.
    pub fn add_product(&mut self, product_id: u64, sales: u32) -> (r: Result<(), ErrorCode>)
        requires
            old(self).wf(),
        ensures
            final(self).wf(),
            r == Err::<(), ErrorCode>(ErrorCode::InvalidTimestamp) ==> *final(self) == *old(self),
            r != Err::<(), ErrorCode>(ErrorCode::InvalidTimestamp) ==> exists|now: i64|
                node_add_post(*old(self), *final(self), r, product_id, sales, now),
    {
        let now = match get_current_timestamp() {
            Ok(now) => now,
            Err(e) => {
                return Err(e);
            },
        };
        self.add_product_at(product_id, sales, now)
    }

    /// Re-ranks a listed `product_id` at `new_sales` as
    /// `update_product_sales_at` does, stamped with the cluster clock. Fails
    /// with `InvalidTimestamp`, changing nothing, when the clock cannot be
    /// read.
    pub fn update_product_sales(&mut self, product_id: u64, new_sales: u32) -> (r: Result<(), ErrorCode>)
        requires
            old(self).wf(),
        ensures
            final(self).wf(),
            match r {
                Ok(()) => {
                    &&& final(self).product_ids == old(self).product_ids
                    &&& final(self).same_but_lists(old(self))
                    &&& if old(self).product_ids@.contains(product_id) {
                        exists|now: i64|
                            top_updated(old(self).top_items@, final(self).top_items@, product_id, new_sales, now)
                    } else {
                        final(self).top_items == old(self).top_items
                    }
                },
                Err(e) => e == ErrorCode::InvalidTimestamp && *final(self) == *old(self),
            },
    {
        let now = match get_current_timestamp() {
            Ok(now) => now,
            Err(e) => {
                return Err(e);
            },
        };
        self.update_product_sales_at(product_id, new_sales, now);
        Ok(())
    }
}

impl Default for SalesIndexNode {
    /// A node not set up yet: range `[0, 0]`, no listing, no top seller.
    fn default() -> (r: Self)
        ensures
            r.wf(),
            r.sales_range_start == 0,
            r.sales_range_end == 0,
            r.product_ids@.len() == 0,
            r.top_items@.len() == 0,
    {
        SalesIndexNode {
            sales_range_start: 0,
            sales_range_end: 0,
            product_ids: Vec::new(),
            top_items: Vec::new(),
            left_child: None,
            right_child: None,
            parent: None,
            height: 0,
            bump: 0,
        }
    }
}

/// The sales bucket of `sales`: `SALES_INTERVAL` counts starting at a
/// multiple of `SALES_INTERVAL`.
pub fn find_sales_node_for_sales(sales: u32) -> (r: (u32, u32))
    requires
        sales / SALES_INTERVAL * SALES_INTERVAL + SALES_INTERVAL - 1 <= u32::MAX,
    ensures
        r.0 == sales / SALES_INTERVAL * SALES_INTERVAL,
        r.1 == r.0 + SALES_INTERVAL - 1,
{
    let range_start = (sales / SALES_INTERVAL) * SALES_INTERVAL;
    (range_start, range_start + SALES_INTERVAL - 1)
}

/// A node whose range is `[0, 0]` and which lists nothing has not been set
/// up yet.
pub open spec fn is_fresh_sales_node(node: &SalesIndexNode) -> bool {
    node.sales_range_start == 0 && node.sales_range_end == 0 && node.product_ids@.len() == 0
}

/// Sets the node up, empty, for `sales_range_start ..= sales_range_end`
/// when it is fresh; a node already set up is left as it is.
pub fn initialize_sales_index_if_needed(
    sales_index: &mut SalesIndexNode,
    sales_range_start: u32,
    sales_range_end: u32,
    bump: u8,
)
    requires
        old(sales_index).wf(),
    ensures
        final(sales_index).wf(),
        if is_fresh_sales_node(old(sales_index)) {
            &&& final(sales_index).sales_range_start == sales_range_start
            &&& final(sales_index).sales_range_end == sales_range_end
            &&& final(sales_index).product_ids@.len() == 0
            &&& final(sales_index).top_items@.len() == 0
            &&& final(sales_index).left_child is None
            &&& final(sales_index).right_child is None
            &&& final(sales_index).parent is None
            &&& final(sales_index).height == 0
            &&& final(sales_index).bump == bump
        } else {
            *final(sales_index) == *old(sales_index)
        },
{
    if sales_index.sales_range_start == 0 && sales_index.sales_range_end == 0
        && sales_index.product_ids.len() == 0 {
        sales_index.sales_range_start = sales_range_start;
        sales_index.sales_range_end = sales_range_end;
        sales_index.product_ids = Vec::new();
        sales_index.top_items = Vec::new();
        sales_index.left_child = None;
        sales_index.right_child = None;
        sales_index.parent = None;
        sales_index.height = 0;
        sales_index.bump = bump;
    }
}

/// What inserting listing `id` at `sales` into the node for
/// `start ..= end`, stamped `now`, does: a fresh node is set up for that
/// range; the listing is added when new, and ranked when its sales are
/// positive. A failure changes nothing.
pub open spec fn index_add_post(
    old: SalesIndexNode,
    new: SalesIndexNode,
    r: Result<(), ErrorCode>,
    start: u32,
    end: u32,
    id: u64,
    sales: u32,
    now: i64,
    bump: u8,
) -> bool {
    let fresh = is_fresh_sales_node(&old);
    let lo = if fresh { start } else { old.sales_range_start };
    let hi = if fresh { end } else { old.sales_range_end };
    let listed = if fresh { Seq::empty() } else { old.product_ids@ };
    let ranked = if fresh { Seq::empty() } else { old.top_items@ };
    match r {
        Ok(()) => {
            &&& lo <= sales <= hi
            &&& new.sales_range_start == lo
            &&& new.sales_range_end == hi
            &&& new.product_ids@ == inserted_ids(listed, id)
            &&& if listed.contains(id) || sales == 0 {
                new.top_items@ == ranked
            } else {
                top_updated(ranked, new.top_items@, id, sales, now)
            }
            &&& if fresh {
                &&& new.left_child is None
                &&& new.right_child is None
                &&& new.parent is None
                &&& new.height == 0
                &&& new.bump == bump
            } else {
                new.same_but_lists(&old)
            }
        },
        Err(e) => {
            &&& new == old
            &&& if !(lo <= sales <= hi) {
                e == ErrorCode::InvalidSalesRange
            } else {
                &&& e == ErrorCode::ShardIsFull
                &&& !listed.contains(id)
                &&& listed.len() >= NODE_CAPACITY
            }
        },
    }
}

/// Inserts listing `product_id` at `sales` into the node for
/// `sales_range_start ..= sales_range_end`, stamped `now`; see
/// `index_add_post`. Fails with `InvalidSalesRange` for sales outside the
/// node and `ShardIsFull` when a new listing finds it full.
pub fn add_product_to_sales_index_at(
    sales_index: &mut SalesIndexNode,
    sales_range_start: u32,
    sales_range_end: u32,
    product_id: u64,
    sales: u32,
    now: i64,
    bump: u8,
) -> (r: Result<(), ErrorCode>)
    requires
        old(sales_index).wf(),
    ensures
        final(sales_index).wf(),
        index_add_post(
            *old(sales_index),
            *final(sales_index),
            r,
            sales_range_start,
            sales_range_end,
            product_id,
            sales,
            now,
            bump,
        ),
{
    let fresh = sales_index.sales_range_start == 0 && sales_index.sales_range_end == 0
        && sales_index.product_ids.len() == 0;
    let (lo, hi) = if fresh {
        (sales_range_start, sales_range_end)
    } else {
        (sales_index.sales_range_start, sales_index.sales_range_end)
    };
    if sales < lo || sales > hi {
        return Err(ErrorCode::InvalidSalesRange);
    }
    let listed = !fresh && contains_id(&sales_index.product_ids, product_id);
    if !listed && !fresh && sales_index.product_ids.len() >= NODE_CAPACITY {
        return Err(ErrorCode::ShardIsFull);
    }
    let ghost listed_ids: Seq<u64> = if fresh { Seq::empty() } else { old(sales_index).product_ids@ };
    let ghost ranked: Seq<ProductSales> = if fresh { Seq::empty() } else { old(sales_index).top_items@ };
    initialize_sales_index_if_needed(sales_index, sales_range_start, sales_range_end, bump);
    assert(sales_index.product_ids@ =~= listed_ids);
    assert(sales_index.top_items@ =~= ranked);
    if listed {
        return Ok(());
    }
    proof {
        lemma_inserted_no_duplicates(sales_index.product_ids@, product_id);
    }
    sales_index.product_ids.push(product_id);
    assert(sales_index.product_ids@ =~= inserted_ids(listed_ids, product_id));
    if sales > 0 {
        sales_index.update_top_items_at(product_id, sales, now);
    }
    Ok(())
}

/// Inserts listing `product_id` as `add_product_to_sales_index_at` does,
/// stamped with the cluster clock. Fails with `InvalidTimestamp`, changing
/// nothing, when the clock cannot be read.
pub fn add_product_to_sales_index_if_needed(
    sales_index: &mut SalesIndexNode,
    sales_range_start: u32,
    sales_range_end: u32,
    product_id: u64,
    sales: u32,
    bump: u8,
) -> (r: Result<(), ErrorCode>)
    requires
        old(sales_index).wf(),
    ensures
        final(sales_index).wf(),
        r == Err::<(), ErrorCode>(ErrorCode::InvalidTimestamp) ==> *final(sales_index) == *old(sales_index),
        r != Err::<(), ErrorCode>(ErrorCode::InvalidTimestamp) ==> exists|now: i64|
            index_add_post(
                *old(sales_index),
                *final(sales_index),
                r,
                sales_range_start,
                sales_range_end,
                product_id,
                sales,
                now,
                bump,
            ),
{
    let now = match get_current_timestamp() {
        Ok(now) => now,
        Err(e) => {
            return Err(e);
        },
    };
    add_product_to_sales_index_at(sales_index, sales_range_start, sales_range_end, product_id, sales, now, bump)
}

/// Unlists `product_id` from the node and drops its top-list entry, if it
/// has one; true when it was listed.
pub fn remove_product_from_sales_index(sales_node: &mut SalesIndexNode, product_id: u64) -> (r: Result<
    bool,
    ErrorCode,
>)
    requires
        old(sales_node).wf(),
    ensures
        final(sales_node).wf(),
        r == Ok::<bool, ErrorCode>(old(sales_node).product_ids@.contains(product_id)),
        final(sales_node).same_but_lists(old(sales_node)),
        final(sales_node).product_ids@ == removed_ids(old(sales_node).product_ids@, product_id),
        final(sales_node).top_items@ == without_entry(old(sales_node).top_items@, product_id),
{
    sales_node.remove_product(product_id)
}

/// One page of the node's listings when its range meets
/// `min_sales ..= max_sales`: `limit` entries from `offset` on. Fails with
/// `InvalidSalesRange` when `min_sales > max_sales`.
pub fn search_sales_range(
    sales_node: &SalesIndexNode,
    min_sales: u32,
    max_sales: u32,
    offset: u32,
    limit: u16,
) -> (r: Result<Vec<u64>, ErrorCode>)
    ensures
        match r {
            Ok(ids) => min_sales <= max_sales && ids@ == page_of(
                if min_sales <= sales_node.sales_range_end && max_sales >= sales_node.sales_range_start {
                    sales_node.product_ids@
                } else {
                    Seq::empty()
                },
                offset as int,
                limit as int,
            ),
            Err(e) => e == ErrorCode::InvalidSalesRange && min_sales > max_sales,
        },
{
    if min_sales > max_sales {
        return Err(ErrorCode::InvalidSalesRange);
    }
    let all_products = sales_node.get_products_in_range(min_sales, max_sales);
    Ok(page(&all_products, offset, limit))
}

/// The node's top sellers, at most `limit` of them, highest first.
pub fn get_top_selling_products(sales_root: &SalesIndexNode, limit: u16) -> (r: Vec<ProductSales>)
    ensures
        r@ == if (limit as int) < sales_root.top_items@.len() {
            sales_root.top_items@.subrange(0, limit as int)
        } else {
            sales_root.top_items@
        },
{
    sales_root.get_top_products(limit as usize)
}

/// What moving listing `id` from `old_sales` to `new_sales`, stamped
/// `now`, does to the nodes of the two counts. Within one bucket only the
/// old node changes: the listing is re-ranked. Across buckets the listing
/// leaves the old node (and its top list) and joins the new node, ranked
/// there. A failure changes nothing.
pub open spec fn sales_move_post(
    old_a: SalesIndexNode,
    new_a: SalesIndexNode,
    old_b: SalesIndexNode,
    new_b: SalesIndexNode,
    r: Result<(), ErrorCode>,
    id: u64,
    old_sales: u32,
    new_sales: u32,
    now: i64,
) -> bool {
    if old_sales / SALES_INTERVAL == new_sales / SALES_INTERVAL {
        match r {
            Ok(()) => {
                &&& old_a.holds_sales(old_sales) && old_a.holds_sales(new_sales)
                &&& new_a.product_ids == old_a.product_ids
                &&& new_a.same_but_lists(&old_a)
                &&& top_updated(old_a.top_items@, new_a.top_items@, id, new_sales, now)
                &&& new_b == old_b
            },
            Err(e) => {
                &&& e == ErrorCode::InvalidSalesRange
                &&& !(old_a.holds_sales(old_sales) && old_a.holds_sales(new_sales))
                &&& new_a == old_a
                &&& new_b == old_b
            },
        }
    } else {
        match r {
            Ok(()) => {
                &&& old_a.holds_sales(old_sales)
                &&& old_b.holds_sales(new_sales)
                &&& new_a.same_but_lists(&old_a)
                &&& new_a.product_ids@ == removed_ids(old_a.product_ids@, id)
                &&& new_a.top_items@ == without_entry(old_a.top_items@, id)
                &&& new_b.same_but_lists(&old_b)
                &&& new_b.product_ids@ == inserted_ids(old_b.product_ids@, id)
                &&& top_updated(old_b.top_items@, new_b.top_items@, id, new_sales, now)
            },
            Err(e) => {
                &&& new_a == old_a
                &&& new_b == old_b
                &&& if !old_a.holds_sales(old_sales) || !old_b.holds_sales(new_sales) {
                    e == ErrorCode::InvalidSalesRange
                } else {
                    &&& e == ErrorCode::ShardIsFull
                    &&& !old_b.product_ids@.contains(id)
                    &&& old_b.product_ids@.len() >= NODE_CAPACITY
                }
            },
        }
    }
}

/// Moves listing `product_id` from the bucket of `old_sales` to that of
/// `new_sales`, stamped `now`; see `sales_move_post`. Fails with
/// `InvalidSalesRange` when a node does not hold its count and
/// `ShardIsFull` when the new node has no room.
pub fn update_product_sales_index_at(
    old_sales_node: &mut SalesIndexNode,
    new_sales_node: &mut SalesIndexNode,
    product_id: u64,
    old_sales: u32,
    new_sales: u32,
    now: i64,
) -> (r: Result<(), ErrorCode>)
    requires
        old(old_sales_node).wf(),
        old(new_sales_node).wf(),
    ensures
        final(old_sales_node).wf(),
        final(new_sales_node).wf(),
        sales_move_post(
            *old(old_sales_node),
            *final(old_sales_node),
            *old(new_sales_node),
            *final(new_sales_node),
            r,
            product_id,
            old_sales,
            new_sales,
            now,
        ),
{
    if old_sales / SALES_INTERVAL == new_sales / SALES_INTERVAL {
        if !old_sales_node.contains_sales(old_sales) || !old_sales_node.contains_sales(new_sales) {
            return Err(ErrorCode::InvalidSalesRange);
        }
        old_sales_node.update_top_items_at(product_id, new_sales, now);
        return Ok(());
    }
    if !old_sales_node.contains_sales(old_sales) || !new_sales_node.contains_sales(new_sales) {
        return Err(ErrorCode::InvalidSalesRange);
    }
    let listed = contains_id(&new_sales_node.product_ids, product_id);
    if !listed && new_sales_node.product_ids.len() >= NODE_CAPACITY {
        return Err(ErrorCode::ShardIsFull);
    }
    let _ = old_sales_node.remove_product(product_id);
    if !listed {
        proof {
            lemma_inserted_no_duplicates(new_sales_node.product_ids@, product_id);
        }
        new_sales_node.product_ids.push(product_id);
    }
    new_sales_node.update_top_items_at(product_id, new_sales, now);
    Ok(())
}

/// Moves listing `product_id` as `update_product_sales_index_at` does,
/// stamped with the cluster clock. Fails with `InvalidTimestamp`, changing
/// nothing, when the clock cannot be read.
pub fn update_product_sales_index(
    old_sales_node: &mut SalesIndexNode,
    new_sales_node: &mut SalesIndexNode,
    product_id: u64,
    old_sales: u32,
    new_sales: u32,
) -> (r: Result<(), ErrorCode>)
    requires
        old(old_sales_node).wf(),
        old(new_sales_node).wf(),
    ensures
        final(old_sales_node).wf(),
        final(new_sales_node).wf(),
        r == Err::<(), ErrorCode>(ErrorCode::InvalidTimestamp) ==> *final(old_sales_node) == *old(
            old_sales_node,
        ) && *final(new_sales_node) == *old(new_sales_node),
        r != Err::<(), ErrorCode>(ErrorCode::InvalidTimestamp) ==> exists|now: i64|
            sales_move_post(
                *old(old_sales_node),
                *final(old_sales_node),
                *old(new_sales_node),
                *final(new_sales_node),
                r,
                product_id,
                old_sales,
                new_sales,
                now,
            ),
{
    let now = match get_current_timestamp() {
        Ok(now) => now,
        Err(e) => {
            return Err(e);
        },
    };
    update_product_sales_index_at(old_sales_node, new_sales_node, product_id, old_sales, new_sales, now)
}

/// Most entries in the ranking across nodes.
pub const BESTSELLER_LIMIT: usize = 100;

/// `list` after entry `e` is offered: kept as it is when it already has an
/// entry for the listing with at least as many sales, otherwise `e` takes
/// that listing's place at its rank.
pub open spec fn keep_best(list: Seq<ProductSales>, e: ProductSales) -> Seq<ProductSales> {
    if has_entry(list, e.product_id) && list[entry_index(list, e.product_id)].sales >= e.sales {
        list
    } else {
        let base = without_entry(list, e.product_id);
        base.insert(rank_position(base, e.sales), e)
    }
}

/// The ranking built by offering `entries` in turn to an empty list.
pub open spec fn best_of(entries: Seq<ProductSales>) -> Seq<ProductSales>
    decreases entries.len(),
{
    if entries.len() == 0 {
        Seq::empty()
    } else {
        keep_best(best_of(entries.drop_last()), entries.last())
    }
}

/// The top lists of the nodes, one after the other.
pub open spec fn all_top_entries(nodes: Seq<SalesIndexNode>) -> Seq<ProductSales>
    decreases nodes.len(),
{
    if nodes.len() == 0 {
        Seq::empty()
    } else {
        all_top_entries(nodes.drop_last()) + nodes.last().top_items@
    }
}

/// The first `n` entries.
pub open spec fn cut_to(items: Seq<ProductSales>, n: int) -> Seq<ProductSales> {
    if items.len() > n {
        items.subrange(0, n)
    } else {
        items
    }
}

proof fn lemma_keep_best_ranked(list: Seq<ProductSales>, e: ProductSales)
    requires
        ranked_ok(list),
    ensures
        ranked_ok(keep_best(list, e)),
{
    if !(has_entry(list, e.product_id) && list[entry_index(list, e.product_id)].sales >= e.sales) {
        lemma_without_entry(list, e.product_id);
        lemma_place(without_entry(list, e.product_id), e);
    }
}

proof fn lemma_cut_ranked(items: Seq<ProductSales>, n: int)
    requires
        ranked_ok(items),
        0 <= n,
    ensures
        ranked_ok(cut_to(items, n)),
{
    if items.len() > n {
        let t = items.subrange(0, n);
        assert forall|i: int, j: int| 0 <= i < j < t.len() implies #[trigger] t[i].sales
            >= #[trigger] t[j].sales by {
            assert(items[i].sales >= items[j].sales);
        }
        assert forall|i: int, j: int|
            0 <= i < t.len() && 0 <= j < t.len() && i != j implies #[trigger] t[i].product_id
            != #[trigger] t[j].product_id by {
            assert(items[i].product_id != items[j].product_id);
        }
    }
}

/// The ranking across nodes is sorted by sales with one entry per listing,
/// and every listing offered keeps an entry with at least the sales of
/// each of its offers.
pub proof fn lemma_best_of(entries: Seq<ProductSales>)
    ensures
        ranked_ok(best_of(entries)),
        forall|i: int|
            0 <= i < entries.len() ==> has_entry(best_of(entries), #[trigger] entries[i].product_id)
                && best_of(entries)[entry_index(best_of(entries), entries[i].product_id)].sales
                >= entries[i].sales,
    decreases entries.len(),
{
    if entries.len() > 0 {
        let prefix = entries.drop_last();
        let e = entries.last();
        lemma_best_of(prefix);
        let list = best_of(prefix);
        lemma_keep_best_ranked(list, e);
        let next = keep_best(list, e);
        assert(best_of(entries) == next);
        let kept = has_entry(list, e.product_id) && list[entry_index(list, e.product_id)].sales
            >= e.sales;
        if !kept {
            lemma_without_entry(list, e.product_id);
            let base = without_entry(list, e.product_id);
            lemma_place(base, e);
            let p = rank_position(base, e.sales);
            assert(next[p] == e);
            assert(has_entry(next, e.product_id));
        }
        assert forall|i: int| 0 <= i < entries.len() implies has_entry(
            next,
            #[trigger] entries[i].product_id,
        ) && next[entry_index(next, entries[i].product_id)].sales >= entries[i].sales by {
            let id = entries[i].product_id;
            if i < entries.len() - 1 {
                assert(prefix[i] == entries[i]);
            }
            if kept {
                if i == entries.len() - 1 {
                    assert(entries[i] == e);
                }
            } else {
                let base = without_entry(list, e.product_id);
                let p = rank_position(base, e.sales);
                let k = entry_index(next, id);
                if id == e.product_id {
                    assert(next[p].product_id == id);
                    assert(k == p);
                    if i < entries.len() - 1 {
                        assert(has_entry(list, e.product_id));
                    }
                } else {
                    let j = entry_index(list, id);
                    assert(has_entry(list, id));
                    assert(list[j].product_id == id);
                    let jb = if has_entry(list, e.product_id) && j > entry_index(list, e.product_id) {
                        j - 1
                    } else {
                        j
                    };
                    assert(base[jb] == list[j]);
                    let jn = if jb < p { jb } else { jb + 1 };
                    assert(next[jn] == base[jb]);
                    assert(next[k].product_id == id);
                    assert(k == jn);
                }
            }
        }
    }
}

/// Offers entry `e` to a ranking.
fn offer_entry(list: &mut Vec<ProductSales>, e: ProductSales)
    requires
        ranked_ok(old(list)@),
    ensures
        final(list)@ == keep_best(old(list)@, e),
        ranked_ok(final(list)@),
{
    proof {
        lemma_keep_best_ranked(list@, e);
    }
    match entry_position(list, e.product_id) {
        Some(i) => {
            proof {
                let k = entry_index(list@, e.product_id);
                assert(has_entry(list@, e.product_id));
                assert(list@[k].product_id == e.product_id);
                assert(k == i);
            }
            if list[i].sales >= e.sales {
                return;
            }
        },
        None => {},
    }
    remove_entry(list, e.product_id);
    let pos = rank_slot(list, e.sales);
    proof {
        lemma_rank_boundary_unique(list@, e.sales, pos as int);
    }
    list.insert(pos, e);
}

/// The best sellers across nodes: every top-list entry is offered in node
/// order, each listing keeps its entry with the most sales (the first one
/// offered among equals), the ranking is sorted by sales with equal sales
/// in the order of arrival, and it is cut to `BESTSELLER_LIMIT` entries.
pub fn update_global_bestsellers(sales_nodes: &Vec<SalesIndexNode>) -> (r: Vec<ProductSales>)
    ensures
        r@ == cut_to(best_of(all_top_entries(sales_nodes@)), BESTSELLER_LIMIT as int),
        ranked_ok(r@),
{
    let mut best: Vec<ProductSales> = Vec::new();
    let mut i: usize = 0;
    assert(best@ =~= best_of(all_top_entries(sales_nodes@.subrange(0, 0))));
    while i < sales_nodes.len()
        invariant
            i <= sales_nodes@.len(),
            best@ == best_of(all_top_entries(sales_nodes@.subrange(0, i as int))),
            ranked_ok(best@),
        decreases sales_nodes@.len() - i,
    {
        let node = &sales_nodes[i];
        let ghost done = all_top_entries(sales_nodes@.subrange(0, i as int));
        let mut j: usize = 0;
        assert(done + node.top_items@.subrange(0, 0) =~= done);
        while j < node.top_items.len()
            invariant
                j <= node.top_items@.len(),
                best@ == best_of(done + node.top_items@.subrange(0, j as int)),
                ranked_ok(best@),
            decreases node.top_items@.len() - j,
        {
            let ghost before = done + node.top_items@.subrange(0, j as int);
            let ghost after = done + node.top_items@.subrange(0, j + 1);
            assert(after.drop_last() =~= before);
            assert(after.last() == node.top_items@[j as int]);
            offer_entry(&mut best, copy_entry(&node.top_items[j]));
            j = j + 1;
        }
        proof {
            let upto = sales_nodes@.subrange(0, i + 1);
            assert(upto.drop_last() =~= sales_nodes@.subrange(0, i as int));
            assert(upto.last() == sales_nodes@[i as int]);
            assert(node.top_items@.subrange(0, j as int) =~= node.top_items@);
        }
        i = i + 1;
    }
    assert(sales_nodes@.subrange(0, i as int) =~= sales_nodes@);
    proof {
        lemma_cut_ranked(best@, BESTSELLER_LIMIT as int);
    }
    if best.len() > BESTSELLER_LIMIT {
        best.truncate(BESTSELLER_LIMIT);
    }
    best
}

/// The entries of `items`, in order, whose listing is among `moved`
/// (`keep_moved`) or is not (`!keep_moved`).
pub open spec fn top_filter(items: Seq<ProductSales>, moved: Seq<u64>, keep_moved: bool) -> Seq<ProductSales>
    decreases items.len(),
{
    if items.len() == 0 {
        Seq::empty()
    } else {
        let rest = top_filter(items.drop_last(), moved, keep_moved);
        if moved.contains(items.last().product_id) == keep_moved {
            rest.push(items.last())
        } else {
            rest
        }
    }
}

/// Sales counts as 64-bit values.
pub open spec fn widen(sales: Seq<u32>) -> Seq<u64> {
    Seq::new(sales.len(), |i: int| sales[i] as u64)
}

proof fn lemma_top_filter(items: Seq<ProductSales>, moved: Seq<u64>, keep_moved: bool)
    requires
        ranked_ok(items),
    ensures
        ranked_ok(top_filter(items, moved, keep_moved)),
        top_filter(items, moved, keep_moved).len() <= items.len(),
        forall|k: int|
            0 <= k < top_filter(items, moved, keep_moved).len() ==> exists|j: int|
                0 <= j < items.len() && items[j] == #[trigger] top_filter(items, moved, keep_moved)[k],
    decreases items.len(),
{
    if items.len() > 0 {
        let prefix = items.drop_last();
        assert forall|i: int, j: int| 0 <= i < j < prefix.len() implies #[trigger] prefix[i].sales
            >= #[trigger] prefix[j].sales by {
            assert(items[i].sales >= items[j].sales);
        }
        assert forall|i: int, j: int|
            0 <= i < prefix.len() && 0 <= j < prefix.len() && i != j implies #[trigger] prefix[i].product_id
            != #[trigger] prefix[j].product_id by {
            assert(items[i].product_id != items[j].product_id);
        }
        lemma_top_filter(prefix, moved, keep_moved);
        let rest = top_filter(prefix, moved, keep_moved);
        let last = items.last();
        let f = top_filter(items, moved, keep_moved);
        if moved.contains(last.product_id) == keep_moved {
            assert forall|i: int, j: int| 0 <= i < j < f.len() implies #[trigger] f[i].sales
                >= #[trigger] f[j].sales by {
                if j == rest.len() {
                    let m = choose|m: int| 0 <= m < prefix.len() && prefix[m] == #[trigger] rest[i];
                    assert(items[m].sales >= items[items.len() - 1].sales);
                } else {
                    assert(rest[i].sales >= rest[j].sales);
                }
            }
            assert forall|i: int, j: int|
                0 <= i < f.len() && 0 <= j < f.len() && i != j implies #[trigger] f[i].product_id
                != #[trigger] f[j].product_id by {
                if i == rest.len() {
                    let m = choose|m: int| 0 <= m < prefix.len() && prefix[m] == #[trigger] rest[j];
                    assert(items[m].product_id != items[items.len() - 1].product_id);
                } else if j == rest.len() {
                    let m = choose|m: int| 0 <= m < prefix.len() && prefix[m] == #[trigger] rest[i];
                    assert(items[m].product_id != items[items.len() - 1].product_id);
                } else {
                    assert(rest[i].product_id != rest[j].product_id);
                }
            }
            assert forall|k: int| 0 <= k < f.len() implies exists|j: int|
                0 <= j < items.len() && items[j] == #[trigger] f[k] by {
                if k == rest.len() {
                    assert(items[items.len() - 1] == f[k]);
                } else {
                    let m = choose|m: int| 0 <= m < prefix.len() && prefix[m] == #[trigger] rest[k];
                    assert(items[m] == f[k]);
                }
            }
        } else {
            assert forall|k: int| 0 <= k < f.len() implies exists|j: int|
                0 <= j < items.len() && items[j] == #[trigger] f[k] by {
                let m = choose|m: int| 0 <= m < prefix.len() && prefix[m] == #[trigger] rest[k];
                assert(items[m] == f[k]);
            }
        }
    }
}

/// The entries of `items` whose listing is among `moved` (`keep_moved`) or
/// is not.
fn filter_top(items: &Vec<ProductSales>, moved: &Vec<u64>, keep_moved: bool) -> (r: Vec<ProductSales>)
    ensures
        r@ == top_filter(items@, moved@, keep_moved),
{
    let mut r: Vec<ProductSales> = Vec::new();
    let mut i: usize = 0;
    while i < items.len()
        invariant
            i <= items@.len(),
            r@ == top_filter(items@.subrange(0, i as int), moved@, keep_moved),
        decreases items@.len() - i,
    {
        proof {
            assert(items@.subrange(0, i + 1).drop_last() =~= items@.subrange(0, i as int));
        }
        if contains_id(moved, items[i].product_id) == keep_moved {
            r.push(copy_entry(&items[i]));
        }
        i = i + 1;
    }
    assert(items@.subrange(0, i as int) =~= items@);
    r
}

/// Splits the node for `sales_range_start ..= sales_range_end` at its
/// midpoint `mid = (start + end) / 2`: the node keeps `start ..= mid`, the
/// listings with sales up to `mid` and their top-list entries; the returned
/// new node covers `mid + 1 ..= end` with the others and their entries, in
/// the same order. `sales[i]` is the current sales count of the node's
/// `i`-th listing. Fails with `InvalidSalesRange`, changing nothing, when
/// the node's range is not the one given or has a single count, or the
/// counts do not match the listings or leave the range.
pub fn split_sales_node(
    sales_node: &mut SalesIndexNode,
    sales: &Vec<u32>,
    sales_range_start: u32,
    sales_range_end: u32,
    bump: u8,
) -> (r: Result<SalesIndexNode, ErrorCode>)
    requires
        old(sales_node).wf(),
    ensures
        final(sales_node).wf(),
        match r {
            Ok(new_node) => {
                let mid = (sales_range_start + sales_range_end) / 2;
                let ids = old(sales_node).product_ids@;
                let high = split_high(ids, widen(sales@), mid as u64, ids.len() as int);
                &&& old(sales_node).sales_range_start == sales_range_start
                &&& old(sales_node).sales_range_end == sales_range_end
                &&& sales_range_start < sales_range_end
                &&& sales@.len() == ids.len()
                &&& forall|i: int| 0 <= i < sales@.len() ==> sales_range_start <= #[trigger] sales@[i] <= sales_range_end
                &&& *final(sales_node) == (SalesIndexNode {
                    sales_range_end: mid as u32,
                    product_ids: final(sales_node).product_ids,
                    top_items: final(sales_node).top_items,
                    ..*old(sales_node)
                })
                &&& final(sales_node).product_ids@ == split_low(ids, widen(sales@), mid as u64, ids.len() as int)
                &&& final(sales_node).top_items@ == top_filter(old(sales_node).top_items@, high, false)
                &&& new_node.wf()
                &&& new_node.sales_range_start == mid + 1
                &&& new_node.sales_range_end == sales_range_end
                &&& new_node.product_ids@ == high
                &&& new_node.top_items@ == top_filter(old(sales_node).top_items@, high, true)
                &&& new_node.left_child is None
                &&& new_node.right_child is None
                &&& new_node.parent is None
                &&& new_node.height == 1
                &&& new_node.bump == bump
            },
            Err(e) => {
                &&& e == ErrorCode::InvalidSalesRange
                &&& *final(sales_node) == *old(sales_node)
                &&& (old(sales_node).sales_range_start != sales_range_start
                    || old(sales_node).sales_range_end != sales_range_end || sales_range_start
                    >= sales_range_end || sales@.len() != old(sales_node).product_ids@.len()
                    || exists|i: int| 0 <= i < sales@.len() && !(sales_range_start <= #[trigger] sales@[i] <= sales_range_end))
            },
        },
{
    if sales_node.sales_range_start != sales_range_start || sales_node.sales_range_end != sales_range_end
        || sales_range_start >= sales_range_end || sales.len() != sales_node.product_ids.len() {
        return Err(ErrorCode::InvalidSalesRange);
    }
    let mut values: Vec<u64> = Vec::new();
    let mut i: usize = 0;
    while i < sales.len()
        invariant
            *sales_node == *old(sales_node),
            sales_node.wf(),
            i <= sales@.len(),
            values@ == widen(sales@.subrange(0, i as int)),
            forall|k: int| 0 <= k < i ==> sales_range_start <= #[trigger] sales@[k] <= sales_range_end,
        decreases sales@.len() - i,
    {
        if sales[i] < sales_range_start || sales[i] > sales_range_end {
            assert(!(sales_range_start <= sales@[i as int] <= sales_range_end));
            return Err(ErrorCode::InvalidSalesRange);
        }
        values.push(sales[i] as u64);
        i = i + 1;
        assert(values@ =~= widen(sales@.subrange(0, i as int)));
    }
    assert(sales@.subrange(0, i as int) =~= sales@);
    let split_point = sales_range_start + (sales_range_end - sales_range_start) / 2;
    let (low, high) = split_by_value(&sales_node.product_ids, &values, split_point as u64);
    proof {
        lemma_split_partitions(sales_node.product_ids@, values@, split_point as u64);
        lemma_top_filter(sales_node.top_items@, high@, false);
        lemma_top_filter(sales_node.top_items@, high@, true);
    }
    let low_top = filter_top(&sales_node.top_items, &high, false);
    let high_top = filter_top(&sales_node.top_items, &high, true);
    sales_node.sales_range_end = split_point;
    sales_node.product_ids = low;
    sales_node.top_items = low_top;
    Ok(
        SalesIndexNode {
            sales_range_start: split_point + 1,
            sales_range_end,
            product_ids: high,
            top_items: high_top,
            left_child: None,
            right_child: None,
            parent: None,
            height: 1,
            bump,
        },
    )
}

} // verus!
