//! Keyword inverted index.
//!
//! A keyword maps to listing identifiers through a root record and a chain
//! of bounded shards. The root keeps a Bloom filter of every identifier ever
//! inserted, consulted before a removal touches a shard; the filter is never
//! cleared, so after removals it reports more false positives. Each shard
//! keeps a smaller summary filter that always matches its own list.
use vstd::prelude::*;
use crate::address::{seeds_view, u32_le, u32_seed, Address};
use crate::bloom::{add_probes, add_probes_spec, probes_set, BloomFilter, BLOOM_FILTER_SIZE, BLOOM_HASH_COUNT};
use crate::error::ErrorCode;
use crate::id_list::{contains_id, inserted_ids, lemma_insert_idempotent, lemma_inserted_no_duplicates, lemma_removed_no_duplicates, page, page_of, remove_id, removed_ids};
use vstd::string::StringSliceAdditionalSpecFns;

verus! {

/// Most listings a shard holds.
pub const MAX_PRODUCTS_PER_SHARD: usize = 100;

/// Longest keyword, in bytes.
pub const MAX_KEYWORD_LENGTH: usize = 32;

/// Most shards a keyword chains.
pub const MAX_SHARDS_PER_KEYWORD: usize = 100;

/// Bytes in a shard's summary filter.
pub const BLOOM_SUMMARY_SIZE: usize = 32;

/// Probes per identifier in a shard's summary filter.
pub const SUMMARY_HASH_COUNT: u8 = 2;

/// The root record of a keyword.
pub struct KeywordRoot {
    pub keyword: String,
    pub total_shards: u8,
    pub first_shard: Address,
    pub last_shard: Address,
    pub total_products: u32,
    pub bloom_filter: [u8; BLOOM_FILTER_SIZE],
    pub bump: u8,
}

/// One bounded segment of a keyword's listings.
pub struct KeywordShard {
    pub keyword: String,
    pub shard_index: u32,
    pub prev_shard: Address,
    pub next_shard: Option<Address>,
    pub product_ids: Vec<u64>,
    pub min_id: u64,
    pub max_id: u64,
    pub bloom_summary: [u8; BLOOM_SUMMARY_SIZE],
    pub bump: u8,
}

/// Length of a keyword in UTF-8 bytes.
pub open spec fn keyword_len(keyword: &String) -> nat {
    vstd::utf8::encode_utf8(keyword@).len()
}

/// A summary filter with no bit set.
pub open spec fn empty_summary() -> Seq<u8> {
    Seq::new(BLOOM_SUMMARY_SIZE as nat, |i: int| 0u8)
}

/// The summary filter of a list: each identifier added in turn to an
/// empty filter.
pub open spec fn summary_of(ids: Seq<u64>) -> Seq<u8>
    decreases ids.len(),
{
    if ids.len() == 0 {
        empty_summary()
    } else {
        add_probes_spec(summary_of(ids.drop_last()), ids.last(), SUMMARY_HASH_COUNT)
    }
}

/// `min_id` and `max_id` are the least and greatest listed identifiers,
/// or `u64::MAX` and 0 for an empty list.
pub open spec fn id_bounds(ids: Seq<u64>, min_id: u64, max_id: u64) -> bool {
    if ids.len() == 0 {
        min_id == u64::MAX && max_id == 0
    } else {
        &&& ids.contains(min_id)
        &&& ids.contains(max_id)
        &&& forall|i: int| 0 <= i < ids.len() ==> min_id <= #[trigger] ids[i] <= max_id
    }
}

/// Seed tag of keyword roots, the bytes of `keyword_root`.
pub open spec fn keyword_root_tag() -> Seq<u8> {
    seq![107u8, 101, 121, 119, 111, 114, 100, 95, 114, 111, 111, 116]
}

/// Seed tag of keyword shards, the bytes of `keyword_shard`.
pub open spec fn keyword_shard_tag() -> Seq<u8> {
    seq![107u8, 101, 121, 119, 111, 114, 100, 95, 115, 104, 97, 114, 100]
}

proof fn lemma_bounds_push(ids: Seq<u64>, x: u64, mn: u64, mx: u64)
    requires
        id_bounds(ids, mn, mx),
    ensures
        id_bounds(ids.push(x), if x < mn { x } else { mn }, if x > mx { x } else { mx }),
{
    let n = ids.push(x);
    assert(n[ids.len() as int] == x);
    if ids.len() > 0 {
        let i = choose|i: int| 0 <= i < ids.len() && ids[i] == mn;
        let j = choose|j: int| 0 <= j < ids.len() && ids[j] == mx;
        assert(n[i] == mn && n[j] == mx);
        assert forall|k: int| 0 <= k < n.len() implies (if x < mn { x } else { mn }) <= #[trigger] n[k]
            <= (if x > mx { x } else { mx }) by {
            if k < ids.len() {
                assert(n[k] == ids[k]);
            }
        }
    }
}

impl KeywordShard {
    /// The list is bounded and duplicate-free, and the summary filter and
    /// the bounds match it.
    pub open spec fn wf(&self) -> bool {
        &&& self.product_ids@.len() <= MAX_PRODUCTS_PER_SHARD
        &&& self.product_ids@.no_duplicates()
        &&& self.bloom_summary@ == summary_of(self.product_ids@)
        &&& id_bounds(self.product_ids@, self.min_id, self.max_id)
    }

    /// Same keyword, position in the chain and bump.
    pub open spec fn same_header(&self, other: &KeywordShard) -> bool {
        &&& self.keyword == other.keyword
        &&& self.shard_index == other.shard_index
        &&& self.prev_shard == other.prev_shard
        &&& self.next_shard == other.next_shard
        &&& self.bump == other.bump
    }

    /// Seeds of shard `shard_index` of `keyword`.
    pub fn seeds(keyword: &str, shard_index: u32) -> (r: Vec<Vec<u8>>)
        ensures
            seeds_view(r@) == seq![keyword_shard_tag(), keyword.spec_bytes(), u32_le(shard_index)],
    {
        let tag = vec![107u8, 101, 121, 119, 111, 114, 100, 95, 115, 104, 97, 114, 100];
        let r = vec![tag, keyword.as_bytes_vec(), u32_seed(shard_index)];
        assert(seeds_view(r@) =~= seq![keyword_shard_tag(), keyword.spec_bytes(), u32_le(shard_index)]);
        r
    }

    /// Makes this an empty shard of `keyword` at `shard_index`, following
    /// `prev_shard`. Fails with `InvalidKeywordLength`, changing nothing,
    /// for a keyword over `MAX_KEYWORD_LENGTH` bytes.
    pub fn initialize(&mut self, keyword: String, shard_index: u32, prev_shard: Address, bump: u8) -> (r:
        Result<(), ErrorCode>)
        ensures
            match r {
                Ok(()) => {
                    &&& keyword_len(&keyword) <= MAX_KEYWORD_LENGTH
                    &&& final(self).wf()
                    &&& final(self).keyword == keyword
                    &&& final(self).shard_index == shard_index
                    &&& final(self).prev_shard == prev_shard
                    &&& final(self).next_shard is None
                    &&& final(self).product_ids@.len() == 0
                    &&& final(self).bump == bump
                },
                Err(e) => {
                    &&& e == ErrorCode::InvalidKeywordLength
                    &&& keyword_len(&keyword) > MAX_KEYWORD_LENGTH
                    &&& *final(self) == *old(self)
                },
            },
    {
        if keyword.as_str().as_bytes().len() > MAX_KEYWORD_LENGTH {
            return Err(ErrorCode::InvalidKeywordLength);
        }
        self.keyword = keyword;
        self.shard_index = shard_index;
        self.prev_shard = prev_shard;
        self.next_shard = None;
        self.product_ids = Vec::new();
        self.min_id = u64::MAX;
        self.max_id = 0;
        self.bloom_summary = [0u8; BLOOM_SUMMARY_SIZE];
        self.bump = bump;
        assert(self.bloom_summary@ =~= empty_summary());
        Ok(())
    }

    /// Lists `product_id`; nothing changes when it is already listed.
    /// Fails with `ShardIsFull`, changing nothing, when a new identifier
    /// finds the shard full.
    pub fn add_product(&mut self, product_id: u64) -> (r: Result<(), ErrorCode>)
        requires
            old(self).wf(),
        ensures
            final(self).wf(),
            final(self).same_header(old(self)),
            match r {
                Ok(()) => final(self).product_ids@ == inserted_ids(old(self).product_ids@, product_id),
                Err(e) => {
                    &&& e == ErrorCode::ShardIsFull
                    &&& !old(self).product_ids@.contains(product_id)
                    &&& old(self).product_ids@.len() >= MAX_PRODUCTS_PER_SHARD
                    &&& *final(self) == *old(self)
                },
            },
    {
        if contains_id(&self.product_ids, product_id) {
            return Ok(());
        }
        if self.product_ids.len() >= MAX_PRODUCTS_PER_SHARD {
            return Err(ErrorCode::ShardIsFull);
        }
        let ghost ids0 = self.product_ids@;
        proof {
            lemma_inserted_no_duplicates(ids0, product_id);
            lemma_bounds_push(ids0, product_id, self.min_id, self.max_id);
            assert(ids0.push(product_id).drop_last() =~= ids0);
        }
        self.product_ids.push(product_id);
        self.update_min_max(product_id);
        add_probes(&mut self.bloom_summary, product_id, SUMMARY_HASH_COUNT);
        Ok(())
    }

    /// Unlists `product_id`; true when it was listed. The bounds and the
    /// summary filter are recomputed from what is left.
    pub fn remove_product(&mut self, product_id: u64) -> (r: Result<bool, ErrorCode>)
        requires
            old(self).wf(),
        ensures
            final(self).wf(),
            final(self).same_header(old(self)),
            r == Ok::<bool, ErrorCode>(old(self).product_ids@.contains(product_id)),
            final(self).product_ids@ == removed_ids(old(self).product_ids@, product_id),
            !old(self).product_ids@.contains(product_id) ==> *final(self) == *old(self),
    {
        proof {
            lemma_removed_no_duplicates(self.product_ids@, product_id);
        }
        if !contains_id(&self.product_ids, product_id) {
            return Ok(false);
        }
        remove_id(&mut self.product_ids, product_id);
        self.recalculate_min_max();
        self.recalculate_bloom_summary();
        Ok(true)
    }

    fn update_min_max(&mut self, product_id: u64)
        ensures
            final(self).min_id == if product_id < old(self).min_id {
                product_id
            } else {
                old(self).min_id
            },
            final(self).max_id == if product_id > old(self).max_id {
                product_id
            } else {
                old(self).max_id
            },
            final(self).product_ids == old(self).product_ids,
            final(self).bloom_summary == old(self).bloom_summary,
            final(self).same_header(old(self)),
    {
        if product_id < self.min_id {
            self.min_id = product_id;
        }
        if product_id > self.max_id {
            self.max_id = product_id;
        }
    }

    fn recalculate_min_max(&mut self)
        ensures
            id_bounds(final(self).product_ids@, final(self).min_id, final(self).max_id),
            final(self).product_ids == old(self).product_ids,
            final(self).bloom_summary == old(self).bloom_summary,
            final(self).same_header(old(self)),
    {
        let mut mn: u64 = u64::MAX;
        let mut mx: u64 = 0;
        let mut i: usize = 0;
        while i < self.product_ids.len()
            invariant
                i <= self.product_ids@.len(),
                id_bounds(self.product_ids@.subrange(0, i as int), mn, mx),
            decreases self.product_ids@.len() - i,
        {
            let x = self.product_ids[i];
            proof {
                lemma_bounds_push(self.product_ids@.subrange(0, i as int), x, mn, mx);
                assert(self.product_ids@.subrange(0, i as int).push(x) =~= self.product_ids@.subrange(
                    0,
                    i + 1,
                ));
            }
            if x < mn {
                mn = x;
            }
            if x > mx {
                mx = x;
            }
            i = i + 1;
        }
        assert(self.product_ids@.subrange(0, i as int) =~= self.product_ids@);
        self.min_id = mn;
        self.max_id = mx;
    }

    fn recalculate_bloom_summary(&mut self)
        ensures
            final(self).bloom_summary@ == summary_of(final(self).product_ids@),
            final(self).product_ids == old(self).product_ids,
            final(self).min_id == old(self).min_id,
            final(self).max_id == old(self).max_id,
            final(self).same_header(old(self)),
    {
        let mut summary = [0u8; BLOOM_SUMMARY_SIZE];
        assert(summary@ =~= summary_of(self.product_ids@.subrange(0, 0)));
        let mut i: usize = 0;
        while i < self.product_ids.len()
            invariant
                i <= self.product_ids@.len(),
                summary@ == summary_of(self.product_ids@.subrange(0, i as int)),
            decreases self.product_ids@.len() - i,
        {
            proof {
                assert(self.product_ids@.subrange(0, i + 1).drop_last() =~= self.product_ids@.subrange(
                    0,
                    i as int,
                ));
            }
            add_probes(&mut summary, self.product_ids[i], SUMMARY_HASH_COUNT);
            i = i + 1;
        }
        assert(self.product_ids@.subrange(0, i as int) =~= self.product_ids@);
        self.bloom_summary = summary;
    }

    /// Whether the shard holds `MAX_PRODUCTS_PER_SHARD` listings.
    pub fn is_full(&self) -> (r: bool)
        ensures
            r == (self.product_ids@.len() >= MAX_PRODUCTS_PER_SHARD),
    {
        self.product_ids.len() >= MAX_PRODUCTS_PER_SHARD
    }

    /// Whether the shard is over 80% full; advisory only.
    pub fn needs_split(&self) -> (r: bool)
        requires
            self.wf(),
        ensures
            r == (self.product_ids@.len() * 5 > MAX_PRODUCTS_PER_SHARD * 4),
    {
        self.product_ids.len() * 5 > MAX_PRODUCTS_PER_SHARD * 4
    }

    /// Whether the shard is under 25% full; advisory only.
    pub fn needs_merge(&self) -> (r: bool)
        requires
            self.wf(),
        ensures
            r == (self.product_ids@.len() * 4 < MAX_PRODUCTS_PER_SHARD),
    {
        self.product_ids.len() * 4 < MAX_PRODUCTS_PER_SHARD
    }
}

impl KeywordRoot {
    /// Whether the root filter may hold `product_id`.
    pub open spec fn might_contain_spec(&self, product_id: u64) -> bool {
        probes_set(self.bloom_filter@, product_id, BLOOM_HASH_COUNT)
    }

    /// Seeds of the root of `keyword`.
    pub fn seeds(keyword: &str) -> (r: Vec<Vec<u8>>)
        ensures
            seeds_view(r@) == seq![keyword_root_tag(), keyword.spec_bytes()],
    {
        let tag = vec![107u8, 101, 121, 119, 111, 114, 100, 95, 114, 111, 111, 116];
        let r = vec![tag, keyword.as_bytes_vec()];
        assert(seeds_view(r@) =~= seq![keyword_root_tag(), keyword.spec_bytes()]);
        r
    }

    /// Makes this the empty root of `keyword`, with no shard yet. Fails with
    /// `InvalidKeywordLength`, changing nothing, for a keyword over
    /// `MAX_KEYWORD_LENGTH` bytes.
    pub fn initialize(&mut self, keyword: String, bump: u8) -> (r: Result<(), ErrorCode>)
        ensures
            match r {
                Ok(()) => {
                    &&& keyword_len(&keyword) <= MAX_KEYWORD_LENGTH
                    &&& final(self).keyword == keyword
                    &&& final(self).total_shards == 0
                    &&& final(self).first_shard@ == Seq::new(32, |i: int| 0u8)
                    &&& final(self).last_shard@ == Seq::new(32, |i: int| 0u8)
                    &&& final(self).total_products == 0
                    &&& final(self).bloom_filter@ == Seq::new(BLOOM_FILTER_SIZE as nat, |i: int| 0u8)
                    &&& final(self).bump == bump
                },
                Err(e) => {
                    &&& e == ErrorCode::InvalidKeywordLength
                    &&& keyword_len(&keyword) > MAX_KEYWORD_LENGTH
                    &&& *final(self) == *old(self)
                },
            },
    {
        if keyword.as_str().as_bytes().len() > MAX_KEYWORD_LENGTH {
            return Err(ErrorCode::InvalidKeywordLength);
        }
        self.keyword = keyword;
        self.total_shards = 0;
        self.first_shard = [0u8; 32];
        self.last_shard = [0u8; 32];
        self.total_products = 0;
        self.bloom_filter = [0u8; BLOOM_FILTER_SIZE];
        self.bump = bump;
        assert(self.first_shard@ =~= Seq::new(32, |i: int| 0u8));
        assert(self.last_shard@ =~= Seq::new(32, |i: int| 0u8));
        assert(self.bloom_filter@ =~= Seq::new(BLOOM_FILTER_SIZE as nat, |i: int| 0u8));
        Ok(())
    }

    /// Appends `shard_key` to the chain: it becomes the last shard, and the
    /// first one too when the chain was empty.
    pub fn add_shard(&mut self, shard_key: Address)
        requires
            old(self).total_shards < 255,
        ensures
            final(self).last_shard == shard_key,
            final(self).first_shard == if old(self).total_shards == 0 {
                shard_key
            } else {
                old(self).first_shard
            },
            final(self).total_shards == old(self).total_shards + 1,
            final(self).keyword == old(self).keyword,
            final(self).total_products == old(self).total_products,
            final(self).bloom_filter == old(self).bloom_filter,
            final(self).bump == old(self).bump,
    {
        if self.total_shards == 0 {
            self.first_shard = shard_key;
        }
        self.last_shard = shard_key;
        self.total_shards = self.total_shards + 1;
    }

    /// Records `product_id` in the root filter.
    pub fn update_bloom_filter(&mut self, product_id: u64)
        ensures
            final(self).bloom_filter@ == add_probes_spec(old(self).bloom_filter@, product_id, BLOOM_HASH_COUNT),
            final(self).might_contain_spec(product_id),
            forall|v: u64| old(self).might_contain_spec(v) ==> final(self).might_contain_spec(v),
            final(self).keyword == old(self).keyword,
            final(self).total_shards == old(self).total_shards,
            final(self).first_shard == old(self).first_shard,
            final(self).last_shard == old(self).last_shard,
            final(self).total_products == old(self).total_products,
            final(self).bump == old(self).bump,
    {
        BloomFilter::add(&mut self.bloom_filter, product_id);
    }

    /// False when `product_id` was certainly never inserted under this keyword.
    pub fn might_contain(&self, product_id: u64) -> (r: bool)
        ensures
            r == self.might_contain_spec(product_id),
    {
        BloomFilter::might_contain(&self.bloom_filter, product_id)
    }
}

/// An address of all zero bytes, standing for "none".
pub open spec fn null_address() -> Seq<u8> {
    Seq::new(32, |i: int| 0u8)
}

/// A root filter with no bit set.
pub open spec fn empty_filter() -> Seq<u8> {
    Seq::new(BLOOM_FILTER_SIZE as nat, |i: int| 0u8)
}

/// A record whose keyword is empty has not been set up yet.
pub open spec fn is_fresh(keyword: &String) -> bool {
    keyword@.len() == 0
}

/// A keyword the index accepts: non-empty and at most
/// `MAX_KEYWORD_LENGTH` bytes.
pub open spec fn keyword_ok(keyword: &String) -> bool {
    keyword@.len() > 0 && keyword_len(keyword) <= MAX_KEYWORD_LENGTH
}

/// The listings of shard 0 as an insertion sees them: none when the shard
/// is still to be set up.
pub open spec fn listed_before(shard: &KeywordShard) -> Seq<u64> {
    if is_fresh(&shard.keyword) {
        Seq::empty()
    } else {
        shard.product_ids@
    }
}

/// The root filter as an insertion sees it.
pub open spec fn filter_before(root: &KeywordRoot) -> Seq<u8> {
    if is_fresh(&root.keyword) {
        empty_filter()
    } else {
        root.bloom_filter@
    }
}

/// The root's listing count as an insertion sees it.
pub open spec fn total_before(root: &KeywordRoot) -> int {
    if is_fresh(&root.keyword) {
        0
    } else {
        root.total_products as int
    }
}

/// The root after it is made ready for `keyword`: set up with shard 0 as
/// its only shard when it was fresh, otherwise as it was.
pub open spec fn root_made_ready(old_root: &KeywordRoot, new_root: &KeywordRoot, shard_address: &Address, bump: u8) -> bool {
    if is_fresh(&old_root.keyword) {
        &&& new_root.total_shards == 1
        &&& new_root.first_shard == *shard_address
        &&& new_root.last_shard == *shard_address
        &&& new_root.bump == bump
    } else {
        &&& new_root.total_shards == old_root.total_shards
        &&& new_root.first_shard == old_root.first_shard
        &&& new_root.last_shard == old_root.last_shard
        &&& new_root.bump == old_root.bump
    }
}

/// Shard 0 after it is made ready: set up empty when it was fresh,
/// otherwise with its header as it was.
pub open spec fn shard_made_ready(old_shard: &KeywordShard, new_shard: &KeywordShard, bump: u8) -> bool {
    if is_fresh(&old_shard.keyword) {
        &&& new_shard.shard_index == 0
        &&& new_shard.prev_shard@ == null_address()
        &&& new_shard.next_shard is None
        &&& new_shard.bump == bump
    } else {
        &&& new_shard.shard_index == old_shard.shard_index
        &&& new_shard.prev_shard == old_shard.prev_shard
        &&& new_shard.next_shard == old_shard.next_shard
        &&& new_shard.bump == old_shard.bump
    }
}

impl Default for KeywordRoot {
    /// A root not set up yet.
    fn default() -> (r: Self)
        ensures
            is_fresh(&r.keyword),
            r.total_shards == 0,
            r.total_products == 0,
            r.bloom_filter@ == empty_filter(),
    {
        let r = KeywordRoot {
            keyword: String::new(),
            total_shards: 0,
            first_shard: [0u8; 32],
            last_shard: [0u8; 32],
            total_products: 0,
            bloom_filter: [0u8; BLOOM_FILTER_SIZE],
            bump: 0,
        };
        assert(r.bloom_filter@ =~= empty_filter());
        r
    }
}

impl Default for KeywordShard {
    /// A shard not set up yet.
    fn default() -> (r: Self)
        ensures
            is_fresh(&r.keyword),
            r.wf(),
            r.product_ids@.len() == 0,
    {
        let r = KeywordShard {
            keyword: String::new(),
            shard_index: 0,
            prev_shard: [0u8; 32],
            next_shard: None,
            product_ids: Vec::new(),
            min_id: u64::MAX,
            max_id: 0,
            bloom_summary: [0u8; BLOOM_SUMMARY_SIZE],
            bump: 0,
        };
        assert(r.bloom_summary@ =~= empty_summary());
        r
    }
}

/// Checks a keyword against `keyword_ok`.
fn check_keyword(keyword: &String) -> (r: Result<(), ErrorCode>)
    ensures
        r is Ok <==> keyword_ok(keyword),
        r matches Err(e) ==> e == ErrorCode::InvalidKeywordLength,
{
    if keyword.as_str().is_empty() || keyword.as_str().as_bytes().len() > MAX_KEYWORD_LENGTH {
        return Err(ErrorCode::InvalidKeywordLength);
    }
    Ok(())
}

/// Sets up a fresh root and a fresh shard 0 for `keyword`.
fn make_ready(
    keyword_root: &mut KeywordRoot,
    first_shard: &mut KeywordShard,
    keyword: &String,
    first_shard_address: &Address,
    root_bump: u8,
    shard_bump: u8,
)
    requires
        is_fresh(&old(keyword_root).keyword) || old(keyword_root).keyword@ == keyword@,
        is_fresh(&old(first_shard).keyword) || (old(first_shard).keyword@ == keyword@ && old(
            first_shard,
        ).wf()),
    ensures
        final(keyword_root).keyword@ == keyword@,
        final(first_shard).keyword@ == keyword@,
        final(first_shard).wf(),
        final(first_shard).product_ids@ == listed_before(old(first_shard)),
        final(keyword_root).bloom_filter@ == filter_before(old(keyword_root)),
        final(keyword_root).total_products == total_before(old(keyword_root)),
        root_made_ready(old(keyword_root), final(keyword_root), first_shard_address, root_bump),
        shard_made_ready(old(first_shard), final(first_shard), shard_bump),
        !is_fresh(&old(keyword_root).keyword) ==> *final(keyword_root) == *old(keyword_root),
        !is_fresh(&old(first_shard).keyword) ==> *final(first_shard) == *old(first_shard),
{
    if keyword_root.keyword.as_str().is_empty() {
        keyword_root.keyword = keyword.clone();
        keyword_root.total_products = 0;
        keyword_root.total_shards = 1;
        keyword_root.first_shard = *first_shard_address;
        keyword_root.last_shard = *first_shard_address;
        keyword_root.bloom_filter = [0u8; BLOOM_FILTER_SIZE];
        keyword_root.bump = root_bump;
        assert(keyword_root.bloom_filter@ =~= empty_filter());
    }
    if first_shard.keyword.as_str().is_empty() {
        first_shard.keyword = keyword.clone();
        first_shard.shard_index = 0;
        first_shard.prev_shard = [0u8; 32];
        first_shard.next_shard = None;
        first_shard.product_ids = Vec::new();
        first_shard.min_id = u64::MAX;
        first_shard.max_id = 0;
        first_shard.bloom_summary = [0u8; BLOOM_SUMMARY_SIZE];
        first_shard.bump = shard_bump;
        assert(first_shard.bloom_summary@ =~= empty_summary());
        assert(first_shard.prev_shard@ =~= null_address());
        assert(first_shard.product_ids@ =~= listed_before(old(first_shard)));
    }
}

/// Sets up the root of `keyword` and its shard 0 where they are fresh (an
/// empty keyword marks a fresh record); records already set up are left as
/// they are, so this is idempotent. Fails, changing nothing, with
/// `InvalidKeywordLength` for an empty or over-long keyword and
/// `InvalidKeyword` when a record belongs to another keyword.
pub fn initialize_keyword_index_if_needed(
    keyword_root: &mut KeywordRoot,
    first_shard: &mut KeywordShard,
    keyword: &String,
    first_shard_address: &Address,
    root_bump: u8,
    shard_bump: u8,
) -> (r: Result<(), ErrorCode>)
    requires
        is_fresh(&old(first_shard).keyword) || old(first_shard).wf(),
    ensures
        match r {
            Ok(()) => {
                &&& final(keyword_root).keyword@ == keyword@
                &&& final(first_shard).keyword@ == keyword@
                &&& final(first_shard).wf()
                &&& final(first_shard).product_ids@ == listed_before(old(first_shard))
                &&& final(keyword_root).bloom_filter@ == filter_before(old(keyword_root))
                &&& final(keyword_root).total_products == total_before(old(keyword_root))
                &&& root_made_ready(old(keyword_root), final(keyword_root), first_shard_address, root_bump)
                &&& shard_made_ready(old(first_shard), final(first_shard), shard_bump)
                &&& !is_fresh(&old(keyword_root).keyword) ==> *final(keyword_root) == *old(keyword_root)
                &&& !is_fresh(&old(first_shard).keyword) ==> *final(first_shard) == *old(first_shard)
            },
            Err(e) => {
                &&& *final(keyword_root) == *old(keyword_root)
                &&& *final(first_shard) == *old(first_shard)
                &&& if !keyword_ok(keyword) {
                    e == ErrorCode::InvalidKeywordLength
                } else {
                    &&& e == ErrorCode::InvalidKeyword
                    &&& ((!is_fresh(&old(keyword_root).keyword) && old(keyword_root).keyword@
                        != keyword@) || (!is_fresh(&old(first_shard).keyword) && old(
                        first_shard,
                    ).keyword@ != keyword@))
                }
            },
        },
{
    match check_keyword(keyword) {
        Ok(()) => {},
        Err(e) => {
            return Err(e);
        },
    }
    if !keyword_root.keyword.as_str().is_empty() && keyword_root.keyword != *keyword {
        return Err(ErrorCode::InvalidKeyword);
    }
    if !first_shard.keyword.as_str().is_empty() && first_shard.keyword != *keyword {
        return Err(ErrorCode::InvalidKeyword);
    }
    make_ready(keyword_root, first_shard, keyword, first_shard_address, root_bump, shard_bump);
    Ok(())
}

/// What inserting `product_id` under `keyword` does to the root and to
/// shard 0 (see `add_product_to_keyword_index_if_needed`).
pub open spec fn keyword_insert_post(
    old_root: KeywordRoot,
    old_shard: KeywordShard,
    new_root: KeywordRoot,
    new_shard: KeywordShard,
    r: Result<(), ErrorCode>,
    keyword: String,
    product_id: u64,
    shard_address: Address,
    root_bump: u8,
    shard_bump: u8,
) -> bool {
    match r {
        Ok(()) => {
            let listed = listed_before(&old_shard);
            let known = listed.contains(product_id);
            &&& keyword_ok(&keyword)
            &&& new_root.keyword@ == keyword@
            &&& new_shard.keyword@ == keyword@
            &&& new_shard.wf()
            &&& new_shard.product_ids@ == inserted_ids(listed, product_id)
            &&& new_root.total_products == total_before(&old_root) + if known {
                0int
            } else {
                1int
            }
            &&& new_root.bloom_filter@ == if known {
                filter_before(&old_root)
            } else {
                add_probes_spec(filter_before(&old_root), product_id, BLOOM_HASH_COUNT)
            }
            &&& !known ==> new_root.might_contain_spec(product_id)
            &&& root_made_ready(&old_root, &new_root, &shard_address, root_bump)
            &&& shard_made_ready(&old_shard, &new_shard, shard_bump)
        },
        Err(e) => {
            let listed = listed_before(&old_shard);
            &&& new_root == old_root
            &&& new_shard == old_shard
            &&& if !keyword_ok(&keyword) {
                e == ErrorCode::InvalidKeywordLength
            } else if (!is_fresh(&old_root.keyword) && old_root.keyword@ != keyword@) || (!is_fresh(
                &old_shard.keyword,
            ) && old_shard.keyword@ != keyword@) {
                e == ErrorCode::InvalidKeyword
            } else if !listed.contains(product_id) && listed.len() >= MAX_PRODUCTS_PER_SHARD {
                e == ErrorCode::ShardIsFull
            } else {
                &&& e == ErrorCode::IntegerOverflow
                &&& !listed.contains(product_id)
                &&& total_before(&old_root) == u32::MAX
            }
        },
    }
}

/// Inserting an identifier a second time leaves the shard's list, the
/// root's count and the root filter as the first insertion left them.
pub proof fn lemma_keyword_insert_twice(
    root0: KeywordRoot,
    shard0: KeywordShard,
    root1: KeywordRoot,
    shard1: KeywordShard,
    root2: KeywordRoot,
    shard2: KeywordShard,
    keyword: String,
    product_id: u64,
    shard_address: Address,
    root_bump: u8,
    shard_bump: u8,
)
    requires
        keyword_insert_post(root0, shard0, root1, shard1, Ok(()), keyword, product_id, shard_address, root_bump, shard_bump),
        keyword_insert_post(root1, shard1, root2, shard2, Ok(()), keyword, product_id, shard_address, root_bump, shard_bump),
    ensures
        shard2.product_ids@ == shard1.product_ids@,
        root2.total_products == root1.total_products,
        root2.bloom_filter@ == root1.bloom_filter@,
{
    lemma_insert_idempotent(listed_before(&shard0), product_id);
}

/// Inserting an identifier the shard already lists, under the keyword the
/// records were set up for, changes neither the list nor the root's count.
pub proof fn lemma_keyword_insert_listed(
    root0: KeywordRoot,
    shard0: KeywordShard,
    root1: KeywordRoot,
    shard1: KeywordShard,
    keyword: String,
    product_id: u64,
    shard_address: Address,
    root_bump: u8,
    shard_bump: u8,
)
    requires
        !is_fresh(&root0.keyword),
        !is_fresh(&shard0.keyword),
        shard0.product_ids@.contains(product_id),
        keyword_insert_post(root0, shard0, root1, shard1, Ok(()), keyword, product_id, shard_address, root_bump, shard_bump),
    ensures
        shard1.product_ids@ == shard0.product_ids@,
        root1.total_products == root0.total_products,
        root1.bloom_filter@ == root0.bloom_filter@,
{
}

/// Inserts `product_id` under `keyword` into shard 0, first setting up the
/// root and the shard where they are fresh. An identifier already listed
/// changes nothing more. A new one is appended to the shard, counted on the
/// root, and added to both the root filter and the shard's summary filter.
/// Fails, changing nothing, with `InvalidKeywordLength` for an empty or
/// over-long keyword, `InvalidKeyword` when a record belongs to another
/// keyword, `ShardIsFull` when the shard has no room and `IntegerOverflow`
/// when the root's count would overflow.
pub fn add_product_to_keyword_index_if_needed(
    keyword_root: &mut KeywordRoot,
    target_shard: &mut KeywordShard,
    keyword: &String,
    product_id: u64,
    target_shard_address: &Address,
    root_bump: u8,
    shard_bump: u8,
) -> (r: Result<(), ErrorCode>)
    requires
        is_fresh(&old(target_shard).keyword) || old(target_shard).wf(),
    ensures
        keyword_insert_post(
            *old(keyword_root),
            *old(target_shard),
            *final(keyword_root),
            *final(target_shard),
            r,
            *keyword,
            product_id,
            *target_shard_address,
            root_bump,
            shard_bump,
        ),
{
    match check_keyword(keyword) {
        Ok(()) => {},
        Err(e) => {
            return Err(e);
        },
    }
    let root_fresh = keyword_root.keyword.as_str().is_empty();
    let shard_fresh = target_shard.keyword.as_str().is_empty();
    if !root_fresh && keyword_root.keyword != *keyword {
        return Err(ErrorCode::InvalidKeyword);
    }
    if !shard_fresh && target_shard.keyword != *keyword {
        return Err(ErrorCode::InvalidKeyword);
    }
    let listed = !shard_fresh && contains_id(&target_shard.product_ids, product_id);
    if !listed {
        if !shard_fresh && target_shard.product_ids.len() >= MAX_PRODUCTS_PER_SHARD {
            return Err(ErrorCode::ShardIsFull);
        }
        if !root_fresh && keyword_root.total_products == u32::MAX {
            return Err(ErrorCode::IntegerOverflow);
        }
    }
    make_ready(keyword_root, target_shard, keyword, target_shard_address, root_bump, shard_bump);
    if listed {
        return Ok(());
    }
    match target_shard.add_product(product_id) {
        Ok(()) => {},
        Err(e) => {
            return Err(e);
        },
    }
    keyword_root.total_products = keyword_root.total_products + 1;
    keyword_root.update_bloom_filter(product_id);
    Ok(())
}

/// Removes `product_id` from `keyword`'s shard 0. When the root filter
/// says the identifier was never inserted, nothing is touched. Otherwise
/// the shard drops it, and when it was listed the root's count goes down by
/// one (never below zero). The root filter is never cleared. Returns
/// whether the identifier was listed. Fails with `InvalidKeyword`,
/// changing nothing, when a record belongs to another keyword.
pub fn remove_product_from_keyword_index(
    keyword_root: &mut KeywordRoot,
    target_shard: &mut KeywordShard,
    keyword: &String,
    product_id: u64,
) -> (r: Result<bool, ErrorCode>)
    requires
        old(target_shard).wf(),
    ensures
        final(target_shard).wf(),
        match r {
            Ok(found) => {
                &&& old(keyword_root).keyword@ == keyword@
                &&& old(target_shard).keyword@ == keyword@
                &&& found == (old(keyword_root).might_contain_spec(product_id) && old(
                    target_shard,
                ).product_ids@.contains(product_id))
                &&& found ==> final(target_shard).product_ids@ == removed_ids(
                    old(target_shard).product_ids@,
                    product_id,
                )
                &&& final(target_shard).same_header(old(target_shard))
                &&& !found ==> *final(target_shard) == *old(target_shard)
                &&& *final(keyword_root) == (KeywordRoot {
                    total_products: if found && old(keyword_root).total_products > 0 {
                        (old(keyword_root).total_products - 1) as u32
                    } else {
                        old(keyword_root).total_products
                    },
                    ..*old(keyword_root)
                })
            },
            Err(e) => {
                &&& e == ErrorCode::InvalidKeyword
                &&& (old(keyword_root).keyword@ != keyword@ || old(target_shard).keyword@ != keyword@)
                &&& *final(keyword_root) == *old(keyword_root)
                &&& *final(target_shard) == *old(target_shard)
            },
        },
{
    if keyword_root.keyword != *keyword || target_shard.keyword != *keyword {
        return Err(ErrorCode::InvalidKeyword);
    }
    if !keyword_root.might_contain(product_id) {
        return Ok(false);
    }
    let found = match target_shard.remove_product(product_id) {
        Ok(found) => found,
        Err(e) => {
            return Err(e);
        },
    };
    if found {
        keyword_root.total_products = keyword_root.total_products.saturating_sub(1);
    }
    Ok(found)
}

/// Appends shard `shard_index` to `keyword`'s chain after `prev_shard`,
/// which must be shard `shard_index - 1`: the previous shard links to the
/// new one and the root counts it and makes it the last shard. Returns the
/// new, empty shard. Fails, changing nothing, with `InvalidKeyword` when a
/// record belongs to another keyword, `InvalidShardIndex` when the index
/// breaks the chain or the chain already has `MAX_SHARDS_PER_KEYWORD`
/// shards, and `InvalidKeywordLength` for an over-long keyword.
pub fn create_keyword_shard(
    keyword_root: &mut KeywordRoot,
    prev_shard: &mut KeywordShard,
    keyword: &String,
    shard_index: u32,
    prev_shard_address: &Address,
    new_shard_address: &Address,
    bump: u8,
) -> (r: Result<KeywordShard, ErrorCode>)
    ensures
        match r {
            Ok(new_shard) => {
                &&& old(keyword_root).keyword@ == keyword@
                &&& old(prev_shard).keyword@ == keyword@
                &&& old(prev_shard).shard_index + 1 == shard_index
                &&& old(keyword_root).total_shards < MAX_SHARDS_PER_KEYWORD
                &&& keyword_len(keyword) <= MAX_KEYWORD_LENGTH
                &&& new_shard.wf()
                &&& new_shard.keyword@ == keyword@
                &&& new_shard.shard_index == shard_index
                &&& new_shard.prev_shard == *prev_shard_address
                &&& new_shard.next_shard is None
                &&& new_shard.product_ids@.len() == 0
                &&& new_shard.bump == bump
                &&& *final(prev_shard) == (KeywordShard {
                    next_shard: Some(*new_shard_address),
                    ..*old(prev_shard)
                })
                &&& final(keyword_root).last_shard == *new_shard_address
                &&& final(keyword_root).first_shard == if old(keyword_root).total_shards == 0 {
                    *new_shard_address
                } else {
                    old(keyword_root).first_shard
                }
                &&& final(keyword_root).total_shards == old(keyword_root).total_shards + 1
                &&& final(keyword_root).keyword == old(keyword_root).keyword
                &&& final(keyword_root).total_products == old(keyword_root).total_products
                &&& final(keyword_root).bloom_filter == old(keyword_root).bloom_filter
                &&& final(keyword_root).bump == old(keyword_root).bump
            },
            Err(e) => {
                &&& *final(keyword_root) == *old(keyword_root)
                &&& *final(prev_shard) == *old(prev_shard)
                &&& if old(keyword_root).keyword@ != keyword@ || old(prev_shard).keyword@ != keyword@ {
                    e == ErrorCode::InvalidKeyword
                } else if old(prev_shard).shard_index + 1 != shard_index
                    || old(keyword_root).total_shards >= MAX_SHARDS_PER_KEYWORD {
                    e == ErrorCode::InvalidShardIndex
                } else {
                    e == ErrorCode::InvalidKeywordLength && keyword_len(keyword) > MAX_KEYWORD_LENGTH
                }
            },
        },
{
    if keyword_root.keyword != *keyword || prev_shard.keyword != *keyword {
        return Err(ErrorCode::InvalidKeyword);
    }
    if prev_shard.shard_index == u32::MAX || prev_shard.shard_index + 1 != shard_index {
        return Err(ErrorCode::InvalidShardIndex);
    }
    if keyword_root.total_shards as usize >= MAX_SHARDS_PER_KEYWORD {
        return Err(ErrorCode::InvalidShardIndex);
    }
    if keyword.as_str().as_bytes().len() > MAX_KEYWORD_LENGTH {
        return Err(ErrorCode::InvalidKeywordLength);
    }
    let new_shard = KeywordShard {
        keyword: keyword.clone(),
        shard_index,
        prev_shard: *prev_shard_address,
        next_shard: None,
        product_ids: Vec::new(),
        min_id: u64::MAX,
        max_id: 0,
        bloom_summary: [0u8; BLOOM_SUMMARY_SIZE],
        bump,
    };
    assert(new_shard.bloom_summary@ =~= empty_summary());
    prev_shard.next_shard = Some(*new_shard_address);
    keyword_root.add_shard(*new_shard_address);
    Ok(new_shard)
}

/// One page of the listings of one shard of `keyword`: `limit` entries
/// from `offset` on, and none when the root counts no listing. Walking the
/// other shards of the chain is the caller's part. Fails with
/// `InvalidKeyword` when a record belongs to another keyword.
pub fn search_keyword_index(
    keyword_root: &KeywordRoot,
    shard: &KeywordShard,
    keyword: &String,
    offset: u32,
    limit: u16,
) -> (r: Result<Vec<u64>, ErrorCode>)
    ensures
        match r {
            Ok(ids) => {
                &&& keyword_root.keyword@ == keyword@
                &&& shard.keyword@ == keyword@
                &&& ids@ == if keyword_root.total_products == 0 {
                    Seq::empty()
                } else {
                    page_of(shard.product_ids@, offset as int, limit as int)
                }
            },
            Err(e) => e == ErrorCode::InvalidKeyword && (keyword_root.keyword@ != keyword@
                || shard.keyword@ != keyword@),
        },
{
    if keyword_root.keyword != *keyword || shard.keyword != *keyword {
        return Err(ErrorCode::InvalidKeyword);
    }
    if keyword_root.total_products == 0 {
        return Ok(Vec::new());
    }
    Ok(page(&shard.product_ids, offset, limit))
}

/// Whether the shard is over 80% full; advisory only.
pub fn check_shard_split_needed(shard: &KeywordShard) -> (r: bool)
    requires
        shard.wf(),
    ensures
        r == (shard.product_ids@.len() * 5 > MAX_PRODUCTS_PER_SHARD * 4),
{
    shard.needs_split()
}

/// Whether the shard is under 25% full; advisory only.
pub fn check_shard_merge_needed(shard: &KeywordShard) -> (r: bool)
    requires
        shard.wf(),
    ensures
        r == (shard.product_ids@.len() * 4 < MAX_PRODUCTS_PER_SHARD),
{
    shard.needs_merge()
}

/// Checks that `keyword`'s root may be torn down: it counts no listing, or
/// `force` is set. Fails with `InvalidKeyword` for another keyword's root
/// and `KeywordIndexNotEmpty` otherwise.
pub fn close_keyword_root(keyword_root: &KeywordRoot, keyword: &String, force: bool) -> (r: Result<
    (),
    ErrorCode,
>)
    ensures
        match r {
            Ok(()) => keyword_root.keyword@ == keyword@ && (force || keyword_root.total_products == 0),
            Err(e) => if keyword_root.keyword@ != keyword@ {
                e == ErrorCode::InvalidKeyword
            } else {
                e == ErrorCode::KeywordIndexNotEmpty && !force && keyword_root.total_products != 0
            },
        },
{
    if keyword_root.keyword != *keyword {
        return Err(ErrorCode::InvalidKeyword);
    }
    if !force && keyword_root.total_products != 0 {
        return Err(ErrorCode::KeywordIndexNotEmpty);
    }
    Ok(())
}

/// Checks that shard `shard_index` of `keyword` may be torn down: it lists
/// nothing, or `force` is set. Fails with `InvalidKeyword` or
/// `InvalidShardIndex` for another shard and `KeywordShardNotEmpty`
/// otherwise.
pub fn close_keyword_shard(keyword_shard: &KeywordShard, keyword: &String, shard_index: u32, force: bool) -> (r:
    Result<(), ErrorCode>)
    ensures
        match r {
            Ok(()) => keyword_shard.keyword@ == keyword@ && keyword_shard.shard_index == shard_index
                && (force || keyword_shard.product_ids@.len() == 0),
            Err(e) => if keyword_shard.keyword@ != keyword@ {
                e == ErrorCode::InvalidKeyword
            } else if keyword_shard.shard_index != shard_index {
                e == ErrorCode::InvalidShardIndex
            } else {
                e == ErrorCode::KeywordShardNotEmpty && !force && keyword_shard.product_ids@.len() > 0
            },
        },
{
    if keyword_shard.keyword != *keyword {
        return Err(ErrorCode::InvalidKeyword);
    }
    if keyword_shard.shard_index != shard_index {
        return Err(ErrorCode::InvalidShardIndex);
    }
    if !force && keyword_shard.product_ids.len() > 0 {
        return Err(ErrorCode::KeywordShardNotEmpty);
    }
    Ok(())
}

} // verus!
