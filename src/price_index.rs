//! Price range index.
//!
//! Listings are bucketed by price into power-of-two ranges: a price `p`
//! belongs to `[2^n, 2^(n+1)]` with `2^n <= p < 2^(n+1)`, and prices 0 and 1
//! form the buckets `[0, 0]` and `[1, 1]`. A node holds the listings of its
//! range; it can be split in two at the midpoint, given each listing's
//! current price.
use vstd::prelude::*;
use crate::address::{seeds_view, u64_le, u64_seed, Address};
use crate::error::ErrorCode;
use crate::id_list::{contains_id, inserted_ids, lemma_inserted_no_duplicates, lemma_removed_no_duplicates, page, page_of, remove_id, removed_ids};
use crate::range_split::{floor_pow2, floor_power_of_two, lemma_split_partitions, split_by_value, split_high, split_low};

verus! {

/// Most listings a range node holds, in the price and the sales index alike.
pub const NODE_CAPACITY: usize = 1000;

/// Listings above which a node is worth splitting.
pub const SPLIT_THRESHOLD: usize = 100;

/// A node of the price index: the listings priced within
/// `price_range_start ..= price_range_end`.
pub struct PriceIndexNode {
    pub price_range_start: u64,
    pub price_range_end: u64,
    pub product_ids: Vec<u64>,
    pub left_child: Option<Address>,
    pub right_child: Option<Address>,
    pub parent: Option<Address>,
    pub height: u8,
    pub bump: u8,
}

/// Seed tag of price nodes, the bytes of `price_index`.
pub open spec fn price_index_tag() -> Seq<u8> {
    seq![112u8, 114, 105, 99, 101, 95, 105, 110, 100, 101, 120]
}

/// First price of the power-of-two bucket of `price`.
pub open spec fn price_bucket_start(price: u64) -> int {
    floor_pow2(price as nat) as int
}

/// Last price of the power-of-two bucket of `price`.
pub open spec fn price_bucket_end(price: u64) -> int {
    if price <= 1 {
        price as int
    } else {
        2 * floor_pow2(price as nat) as int
    }
}

/// Every price of the list of a node is within its range.
pub open spec fn prices_within(values: Seq<u64>, start: u64, end: u64) -> bool {
    forall|i: int| 0 <= i < values.len() ==> start <= #[trigger] values[i] <= end
}

/// First price of the bucket of `price`: the largest power of two not above
/// it, or the price itself when it is 0 or 1.
pub fn calculate_price_range_start(price: u64) -> (r: u64)
    ensures
        r == price_bucket_start(price),
{
    floor_power_of_two(price)
}

/// Last price of the bucket of `price`: twice its first price, or the
/// price itself when it is 0 or 1.
pub fn calculate_price_range_end(price: u64) -> (r: u64)
    requires
        price < 0x8000_0000_0000_0000,
    ensures
        r == price_bucket_end(price),
{
    if price <= 1 {
        return price;
    }
    let start = floor_power_of_two(price);
    2 * start
}

/// The bucket of `price`, the one the index uses on insertion, search
/// and split alike: `[2^n, 2^(n+1)]` with `2^n <= price < 2^(n+1)`, and
/// `[price, price]` for prices 0 and 1.
pub fn find_price_node_for_price(price: u64) -> (r: (u64, u64))
    requires
        price < 0x8000_0000_0000_0000,
    ensures
        r.0 == price_bucket_start(price),
        r.1 == price_bucket_end(price),
{
    (calculate_price_range_start(price), calculate_price_range_end(price))
}

impl PriceIndexNode {
    /// The list is bounded and duplicate-free.
    pub open spec fn wf(&self) -> bool {
        &&& self.product_ids@.len() <= NODE_CAPACITY
        &&& self.product_ids@.no_duplicates()
    }

    /// Seeds of the node for `price_range_start ..= price_range_end`.
    pub fn seeds(price_range_start: u64, price_range_end: u64) -> (r: Vec<Vec<u8>>)
        ensures
            seeds_view(r@) == seq![price_index_tag(), u64_le(price_range_start), u64_le(price_range_end)],
    {
        let tag = vec![112u8, 114, 105, 99, 101, 95, 105, 110, 100, 101, 120];
        let r = vec![tag, u64_seed(price_range_start), u64_seed(price_range_end)];
        assert(seeds_view(r@) =~= seq![
            price_index_tag(),
            u64_le(price_range_start),
            u64_le(price_range_end),
        ]);
        r
    }

    /// Makes this an empty leaf for `price_range_start ..= price_range_end`.
    pub fn initialize(&mut self, price_range_start: u64, price_range_end: u64, bump: u8)
        ensures
            final(self).wf(),
            final(self).price_range_start == price_range_start,
            final(self).price_range_end == price_range_end,
            final(self).product_ids@.len() == 0,
            final(self).left_child is None,
            final(self).right_child is None,
            final(self).parent is None,
            final(self).height == 1,
            final(self).bump == bump,
    {
        self.price_range_start = price_range_start;
        self.price_range_end = price_range_end;
        self.product_ids = Vec::new();
        self.left_child = None;
        self.right_child = None;
        self.parent = None;
        self.height = 1;
        self.bump = bump;
    }

    /// Lists `product_id` at `price`; nothing changes when it is already
    /// listed. Fails, changing nothing, with `InvalidPriceRange` for a
    /// price outside the node and `ShardIsFull` when a new listing finds the
    /// node full.
    pub fn add_product(&mut self, product_id: u64, price: u64) -> (r: Result<(), ErrorCode>)
        requires
            old(self).wf(),
        ensures
            final(self).wf(),
            match r {
                Ok(()) => {
                    &&& old(self).price_range_start <= price <= old(self).price_range_end
                    &&& *final(self) == (PriceIndexNode {
                        product_ids: final(self).product_ids,
                        ..*old(self)
                    })
                    &&& final(self).product_ids@ == inserted_ids(old(self).product_ids@, product_id)
                },
                Err(e) => {
                    &&& *final(self) == *old(self)
                    &&& if !(old(self).price_range_start <= price <= old(self).price_range_end) {
                        e == ErrorCode::InvalidPriceRange
                    } else {
                        &&& e == ErrorCode::ShardIsFull
                        &&& !old(self).product_ids@.contains(product_id)
                        &&& old(self).product_ids@.len() >= NODE_CAPACITY
                    }
                },
            },
    {
        if price < self.price_range_start || price > self.price_range_end {
            return Err(ErrorCode::InvalidPriceRange);
        }
        if contains_id(&self.product_ids, product_id) {
            return Ok(());
        }
        if self.product_ids.len() >= NODE_CAPACITY {
            return Err(ErrorCode::ShardIsFull);
        }
        proof {
            lemma_inserted_no_duplicates(self.product_ids@, product_id);
        }
        self.product_ids.push(product_id);
        Ok(())
    }

    /// Unlists `product_id`; true when it was listed.
    pub fn remove_product(&mut self, product_id: u64) -> (r: Result<bool, ErrorCode>)
        requires
            old(self).wf(),
        ensures
            final(self).wf(),
            r == Ok::<bool, ErrorCode>(old(self).product_ids@.contains(product_id)),
            final(self).product_ids@ == removed_ids(old(self).product_ids@, product_id),
            *final(self) == (PriceIndexNode { product_ids: final(self).product_ids, ..*old(self) }),
    {
        proof {
            lemma_removed_no_duplicates(self.product_ids@, product_id);
        }
        let found = remove_id(&mut self.product_ids, product_id);
        Ok(found)
    }

    /// Whether `price` lies in the node's range.
    pub fn contains_price(&self, price: u64) -> (r: bool)
        ensures
            r == (self.price_range_start <= price <= self.price_range_end),
    {
        price >= self.price_range_start && price <= self.price_range_end
    }

    /// Whether the node has no child.
    pub fn is_leaf(&self) -> (r: bool)
        ensures
            r == (self.left_child is None && self.right_child is None),
    {
        self.left_child.is_none() && self.right_child.is_none()
    }

    /// Whether the node holds over `SPLIT_THRESHOLD` listings; advisory only.
    pub fn needs_split(&self) -> (r: bool)
        ensures
            r == (self.product_ids@.len() > SPLIT_THRESHOLD),
    {
        self.product_ids.len() > SPLIT_THRESHOLD
    }

    /// Whether the node holds under a quarter of `SPLIT_THRESHOLD`
    /// listings; advisory only.
    pub fn needs_merge(&self) -> (r: bool)
        ensures
            r == (self.product_ids@.len() < SPLIT_THRESHOLD / 4),
    {
        self.product_ids.len() < SPLIT_THRESHOLD / 4
    }

    /// The node's height on the side of each child present, right minus
    /// left.
    pub fn balance_factor(&self) -> (r: i8)
        requires
            self.height < 128,
        ensures
            r == (if self.right_child is Some { self.height as int } else { 0 }) - (if self.left_child is Some {
                self.height as int
            } else {
                0
            }),
    {
        let left_height: u8 = if self.left_child.is_some() {
            self.height
        } else {
            0
        };
        let right_height: u8 = if self.right_child.is_some() {
            self.height
        } else {
            0
        };
        (right_height as i8) - (left_height as i8)
    }

    /// Sets the height to one more than the taller child.
    pub fn update_height(&mut self, left_height: u8, right_height: u8)
        requires
            left_height < 255,
            right_height < 255,
        ensures
            final(self).height == 1 + if left_height > right_height {
                left_height
            } else {
                right_height
            },
            *final(self) == (PriceIndexNode { height: final(self).height, ..*old(self) }),
    {
        let taller = if left_height > right_height {
            left_height
        } else {
            right_height
        };
        self.height = 1 + taller;
    }

    /// All listings of the node when its range meets `min_price ..= max_price`,
    /// none otherwise.
    pub fn get_products_in_range(&self, min_price: u64, max_price: u64) -> (r: Vec<u64>)
        ensures
            r@ == if min_price <= self.price_range_end && max_price >= self.price_range_start {
                self.product_ids@
            } else {
                Seq::empty()
            },
    {
        if min_price <= self.price_range_end && max_price >= self.price_range_start {
            self.product_ids.clone()
        } else {
            Vec::new()
        }
    }
}

impl Default for PriceIndexNode {
    /// A node not set up yet: range `[0, 0]` and no listing.
    fn default() -> (r: Self)
        ensures
            r.wf(),
            r.price_range_start == 0,
            r.price_range_end == 0,
            r.product_ids@.len() == 0,
    {
        PriceIndexNode {
            price_range_start: 0,
            price_range_end: 0,
            product_ids: Vec::new(),
            left_child: None,
            right_child: None,
            parent: None,
            height: 0,
            bump: 0,
        }
    }
}

/// A node whose range is `[0, 0]` and which lists nothing has not been set
/// up yet (the bucket of price 0 is `[0, 0]` too, but once it lists a
/// listing it is no longer taken for fresh).
pub open spec fn is_fresh_price_node(node: &PriceIndexNode) -> bool {
    node.price_range_start == 0 && node.price_range_end == 0 && node.product_ids@.len() == 0
}

/// Inserts `product_id` at `price` into the node of its bucket, setting the
/// node up for `price_range_start ..= price_range_end` when it is fresh. The
/// range given must be the bucket of `price` and the node's range must hold
/// the price (`InvalidPriceRange`, also for prices from 2^63 on, which
/// have no bucket). An identifier already listed changes nothing more; a
/// new one finding the node full fails with `ShardIsFull`. A failure
/// changes nothing.
pub fn add_product_to_price_index(
    price_index: &mut PriceIndexNode,
    product_id: u64,
    price: u64,
    price_range_start: u64,
    price_range_end: u64,
    bump: u8,
) -> (r: Result<(), ErrorCode>)
    requires
        old(price_index).wf(),
    ensures
        final(price_index).wf(),
        match r {
            Ok(()) => {
                let fresh = is_fresh_price_node(old(price_index));
                let listed = if fresh {
                    Seq::empty()
                } else {
                    old(price_index).product_ids@
                };
                &&& price < 0x8000_0000_0000_0000
                &&& price_range_start == price_bucket_start(price)
                &&& price_range_end == price_bucket_end(price)
                &&& final(price_index).price_range_start <= price <= final(price_index).price_range_end
                &&& final(price_index).product_ids@ == inserted_ids(listed, product_id)
                &&& if fresh {
                    &&& final(price_index).price_range_start == price_range_start
                    &&& final(price_index).price_range_end == price_range_end
                    &&& final(price_index).left_child is None
                    &&& final(price_index).right_child is None
                    &&& final(price_index).parent is None
                    &&& final(price_index).height == 0
                    &&& final(price_index).bump == bump
                } else {
                    *final(price_index) == (PriceIndexNode {
                        product_ids: final(price_index).product_ids,
                        ..*old(price_index)
                    })
                }
            },
            Err(e) => {
                let fresh = is_fresh_price_node(old(price_index));
                let lo = if fresh { price_range_start } else { old(price_index).price_range_start };
                let hi = if fresh { price_range_end } else { old(price_index).price_range_end };
                &&& *final(price_index) == *old(price_index)
                &&& if price >= 0x8000_0000_0000_0000 || price_range_start != price_bucket_start(price)
                    || price_range_end != price_bucket_end(price) || !(lo <= price <= hi) {
                    e == ErrorCode::InvalidPriceRange
                } else {
                    &&& e == ErrorCode::ShardIsFull
                    &&& !fresh
                    &&& !old(price_index).product_ids@.contains(product_id)
                    &&& old(price_index).product_ids@.len() >= NODE_CAPACITY
                }
            },
        },
{
    if price >= 0x8000_0000_0000_0000 {
        return Err(ErrorCode::InvalidPriceRange);
    }
    let expected_start = calculate_price_range_start(price);
    let expected_end = calculate_price_range_end(price);
    if price_range_start != expected_start || price_range_end != expected_end {
        return Err(ErrorCode::InvalidPriceRange);
    }
    let fresh = price_index.price_range_start == 0 && price_index.price_range_end == 0
        && price_index.product_ids.len() == 0;
    if fresh {
        if price < price_range_start || price > price_range_end {
            return Err(ErrorCode::InvalidPriceRange);
        }
        price_index.price_range_start = price_range_start;
        price_index.price_range_end = price_range_end;
        price_index.product_ids = Vec::new();
        price_index.left_child = None;
        price_index.right_child = None;
        price_index.parent = None;
        price_index.height = 0;
        price_index.bump = bump;
    }
    price_index.add_product(product_id, price)
}

/// Unlists `product_id` from the node; true when it was listed.
pub fn remove_product_from_price_index(price_node: &mut PriceIndexNode, product_id: u64) -> (r: Result<
    bool,
    ErrorCode,
>)
    requires
        old(price_node).wf(),
    ensures
        final(price_node).wf(),
        r == Ok::<bool, ErrorCode>(old(price_node).product_ids@.contains(product_id)),
        final(price_node).product_ids@ == removed_ids(old(price_node).product_ids@, product_id),
        *final(price_node) == (PriceIndexNode { product_ids: final(price_node).product_ids, ..*old(price_node) }),
{
    price_node.remove_product(product_id)
}

/// One page of the node's listings when its range meets
/// `min_price ..= max_price`: `limit` entries from `offset` on. Fails with
/// `InvalidPriceRange` when `min_price > max_price`.
pub fn search_price_range(
    price_node: &PriceIndexNode,
    min_price: u64,
    max_price: u64,
    offset: u32,
    limit: u16,
) -> (r: Result<Vec<u64>, ErrorCode>)
    ensures
        match r {
            Ok(ids) => min_price <= max_price && ids@ == page_of(
                if min_price <= price_node.price_range_end && max_price >= price_node.price_range_start {
                    price_node.product_ids@
                } else {
                    Seq::empty()
                },
                offset as int,
                limit as int,
            ),
            Err(e) => e == ErrorCode::InvalidPriceRange && min_price > max_price,
        },
{
    if min_price > max_price {
        return Err(ErrorCode::InvalidPriceRange);
    }
    let all_products = price_node.get_products_in_range(min_price, max_price);
    Ok(page(&all_products, offset, limit))
}

/// Whether every value lies in `start ..= end`.
fn all_within(values: &Vec<u64>, start: u64, end: u64) -> (r: bool)
    ensures
        r == prices_within(values@, start, end),
{
    let mut i: usize = 0;
    while i < values.len()
        invariant
            i <= values@.len(),
            forall|j: int| 0 <= j < i ==> start <= #[trigger] values@[j] <= end,
        decreases values@.len() - i,
    {
        if values[i] < start || values[i] > end {
            return false;
        }
        i = i + 1;
    }
    true
}

/// Splits the node for `price_range_start ..= price_range_end` at its
/// midpoint `mid = (start + end) / 2`: the node keeps `start ..= mid` and
/// the listings priced up to `mid`; the returned new node covers
/// `mid + 1 ..= end` with the others. `prices[i]` is the current price of
/// the node's `i`-th listing. Fails with `InvalidPriceRange`, changing
/// nothing, when the node's range is not the one given or has a single
/// price, or the prices do not match the listings or leave the range.
pub fn split_price_node(
    price_node: &mut PriceIndexNode,
    prices: &Vec<u64>,
    price_range_start: u64,
    price_range_end: u64,
    bump: u8,
) -> (r: Result<PriceIndexNode, ErrorCode>)
    requires
        old(price_node).wf(),
    ensures
        final(price_node).wf(),
        match r {
            Ok(new_node) => {
                let mid = (price_range_start + price_range_end) / 2;
                let ids = old(price_node).product_ids@;
                &&& old(price_node).price_range_start == price_range_start
                &&& old(price_node).price_range_end == price_range_end
                &&& price_range_start < price_range_end
                &&& prices@.len() == ids.len()
                &&& prices_within(prices@, price_range_start, price_range_end)
                &&& *final(price_node) == (PriceIndexNode {
                    price_range_end: mid as u64,
                    product_ids: final(price_node).product_ids,
                    ..*old(price_node)
                })
                &&& final(price_node).product_ids@ == split_low(ids, prices@, mid as u64, ids.len() as int)
                &&& new_node.wf()
                &&& new_node.price_range_start == mid + 1
                &&& new_node.price_range_end == price_range_end
                &&& new_node.product_ids@ == split_high(ids, prices@, mid as u64, ids.len() as int)
                &&& new_node.left_child is None
                &&& new_node.right_child is None
                &&& new_node.parent is None
                &&& new_node.height == 1
                &&& new_node.bump == bump
            },
            Err(e) => {
                &&& e == ErrorCode::InvalidPriceRange
                &&& *final(price_node) == *old(price_node)
                &&& (old(price_node).price_range_start != price_range_start
                    || old(price_node).price_range_end != price_range_end || price_range_start
                    >= price_range_end || prices@.len() != old(price_node).product_ids@.len()
                    || !prices_within(prices@, price_range_start, price_range_end))
            },
        },
{
    if price_node.price_range_start != price_range_start || price_node.price_range_end != price_range_end
        || price_range_start >= price_range_end {
        return Err(ErrorCode::InvalidPriceRange);
    }
    if prices.len() != price_node.product_ids.len() || !all_within(prices, price_range_start, price_range_end) {
        return Err(ErrorCode::InvalidPriceRange);
    }
    let split_point = price_range_start + (price_range_end - price_range_start) / 2;
    let (low, high) = split_by_value(&price_node.product_ids, prices, split_point);
    proof {
        lemma_split_partitions(price_node.product_ids@, prices@, split_point);
    }
    price_node.price_range_end = split_point;
    price_node.product_ids = low;
    Ok(
        PriceIndexNode {
            price_range_start: split_point + 1,
            price_range_end,
            product_ids: high,
            left_child: None,
            right_child: None,
            parent: None,
            height: 1,
            bump,
        },
    )
}

/// Whether the node is worth splitting or merging; advisory only.
pub fn should_rebalance_price_tree(node: &PriceIndexNode) -> (r: bool)
    ensures
        r == (node.product_ids@.len() > SPLIT_THRESHOLD || node.product_ids@.len() < SPLIT_THRESHOLD / 4),
{
    node.needs_split() || node.needs_merge()
}

} // verus!
