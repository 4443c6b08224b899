//! Collision-free identifier allocation.
//!
//! Each owner holds chunks: fixed-capacity runs of identifiers with a
//! bitmap of the offsets in use. Allocation scans the bitmap from the
//! chunk's cursor, wrapping past the end, for the first free offset; the
//! cursor then moves just past that offset. Releasing clears the bit and
//! never moves the cursor back, so after heavy churn a scan may have to
//! walk the whole chunk before it finds the released offset.
use vstd::prelude::*;
use crate::address::{
    address_seed, derive_address, program_address, same_address, seeds_view, u32_le, u32_seed,
    Address,
};
use crate::bits::{bit_at, lemma_byte_mask, lemma_with_bit, lemma_without_bit, with_bit, without_bit};
use crate::error::ErrorCode;

verus! {

/// Identifiers per chunk unless the system is set up otherwise.
pub const DEFAULT_CHUNK_SIZE: u32 = 10_000;

/// Highest chunk index an owner may reach.
pub const MAX_CHUNKS_PER_MERCHANT: u32 = 100;

/// Bitmap bytes of a chunk of the default size.
pub const ID_CHUNK_BITMAP_SIZE: usize = 1250;

/// Identifiers reserved for each owner; owner `n` owns
/// `n * IDS_PER_MERCHANT ..< (n + 1) * IDS_PER_MERCHANT`. This is room for
/// chunks `0 ..= MAX_CHUNKS_PER_MERCHANT` of the default size.
pub const IDS_PER_MERCHANT: u64 = 1_010_000;

/// Owner accounts the global root can list.
pub const MAX_MERCHANTS: usize = 100;

/// Reclaimable chunks an owner can hold.
pub const MAX_UNUSED_CHUNKS: usize = 100;

/// Most identifiers one batch may allocate.
pub const MAX_BATCH_SIZE: u16 = 100;

/// The singleton that numbers owners and fixes the chunk size.
pub struct GlobalIdRoot {
    pub last_merchant_id: u32,
    pub last_global_id: u64,
    pub chunk_size: u32,
    pub merchants: Vec<Address>,
    pub max_products_per_shard: u16,
    pub max_keywords_per_product: u8,
    pub bloom_filter_size: u16,
    pub bump: u8,
}

/// An owner's allocation cursor: the active chunk and the reclaimable ones.
pub struct MerchantIdAccount {
    pub merchant_id: u32,
    pub last_chunk_index: u32,
    pub last_local_id: u64,
    pub active_chunk: Address,
    pub unused_chunks: Vec<Address>,
    pub bump: u8,
}

/// A run of identifiers `start_id ..= end_id` with a bitmap of the offsets
/// (identifier minus `start_id`) in use.
pub struct IdChunk {
    pub merchant_id: u32,
    pub chunk_index: u32,
    pub start_id: u64,
    pub end_id: u64,
    pub next_available: u64,
    pub bitmap: Vec<u8>,
    pub bump: u8,
}

/// Offset reached `step` places after `cursor`, wrapping at `cap`.
pub open spec fn cyclic(cursor: int, step: int, cap: int) -> int {
    if cursor + step < cap {
        cursor + step
    } else {
        cursor + step - cap
    }
}

/// The first free offset met from `step` on, in the cyclic order that
/// starts at `cursor`.
pub open spec fn scan_free(bits: Seq<u8>, cap: int, cursor: int, step: int) -> Option<int>
    decreases cap - step,
{
    if step >= cap {
        None
    } else if !bit_at(bits, cyclic(cursor, step, cap)) {
        Some(cyclic(cursor, step, cap))
    } else {
        scan_free(bits, cap, cursor, step + 1)
    }
}

/// The offset an allocation hands out: the first free one at or after the
/// cursor, wrapping past the end; `None` when every offset is in use.
pub open spec fn next_free_offset(bits: Seq<u8>, cap: int, cursor: int) -> Option<int> {
    scan_free(bits, cap, cursor, 0)
}

/// Number of set bits among the first `n`.
pub open spec fn count_used(bits: Seq<u8>, n: int) -> nat
    decreases n,
{
    if n <= 0 {
        0
    } else {
        count_used(bits, n - 1) + if bit_at(bits, n - 1) {
            1nat
        } else {
            0nat
        }
    }
}

/// `count` allocations in a row from bitmap `bits` and cursor `cursor`:
/// the bitmap and cursor after them and the offsets handed out, or `None`
/// when one of them finds no free offset.
pub open spec fn batch_spec(bits: Seq<u8>, cap: int, cursor: int, count: nat) -> Option<
    (Seq<u8>, int, Seq<int>),
>
    decreases count,
{
    if count == 0 {
        Some((bits, cursor, Seq::empty()))
    } else {
        match batch_spec(bits, cap, cursor, (count - 1) as nat) {
            None => None,
            Some((b, c, offs)) => match next_free_offset(b, cap, c) {
                None => None,
                Some(o) => Some((with_bit(b, o), o + 1, offs.push(o))),
            },
        }
    }
}

impl IdChunk {
    /// Number of identifiers in the chunk.
    pub open spec fn capacity_spec(&self) -> int {
        self.end_id - self.start_id + 1
    }

    /// The chunk's range is non-empty and covered by the bitmap, and the
    /// cursor stays within the range.
    pub open spec fn wf(&self) -> bool {
        &&& self.start_id <= self.end_id
        &&& self.end_id - self.start_id < 0x1_0000_0000
        &&& self.capacity_spec() <= self.bitmap@.len() * 8
        &&& self.next_available <= self.capacity_spec()
    }

    /// Whether `offset` is in use.
    pub open spec fn is_used(&self, offset: int) -> bool {
        bit_at(self.bitmap@, offset)
    }

    /// Number of offsets in use.
    pub open spec fn used_count(&self) -> nat {
        count_used(self.bitmap@, self.capacity_spec())
    }

    /// The offset the next allocation hands out.
    pub open spec fn next_free(&self) -> Option<int> {
        next_free_offset(self.bitmap@, self.capacity_spec(), self.next_available as int)
    }

    /// Same owner, index, range and bump.
    pub open spec fn same_range(&self, other: &IdChunk) -> bool {
        &&& self.merchant_id == other.merchant_id
        &&& self.chunk_index == other.chunk_index
        &&& self.start_id == other.start_id
        &&& self.end_id == other.end_id
        &&& self.bump == other.bump
    }

    /// Number of identifiers in the chunk.
    pub fn capacity(&self) -> (r: u64)
        requires
            self.wf(),
        ensures
            r == self.capacity_spec(),
    {
        (self.end_id - self.start_id) + 1
    }

    /// Whether `local_id` is in use; false beyond the bitmap.
    pub fn is_id_used(&self, local_id: u64) -> (r: bool)
        ensures
            r == (local_id / 8 < self.bitmap@.len() && self.is_used(local_id as int)),
    {
        if local_id / 8 >= self.bitmap.len() as u64 {
            return false;
        }
        let byte_index = (local_id / 8) as usize;
        let bit_index = (local_id % 8) as u8;
        proof {
            lemma_byte_mask(self.bitmap@[byte_index as int], bit_index);
        }
        (self.bitmap[byte_index] & (1u8 << bit_index)) != 0
    }

    /// Marks `local_id` in use; nothing happens beyond the bitmap.
    pub fn mark_id_used(&mut self, local_id: u64)
        ensures
            final(self).bitmap@ == if local_id / 8 < old(self).bitmap@.len() {
                with_bit(old(self).bitmap@, local_id as int)
            } else {
                old(self).bitmap@
            },
            final(self).next_available == old(self).next_available,
            final(self).same_range(old(self)),
    {
        if local_id / 8 < self.bitmap.len() as u64 {
            set_bitmap_bit(&mut self.bitmap, local_id);
        }
    }

    /// Marks `local_id` free; nothing happens beyond the bitmap.
    pub fn clear_id(&mut self, local_id: u64)
        ensures
            final(self).bitmap@ == if local_id / 8 < old(self).bitmap@.len() {
                without_bit(old(self).bitmap@, local_id as int)
            } else {
                old(self).bitmap@
            },
            final(self).next_available == old(self).next_available,
            final(self).same_range(old(self)),
    {
        if local_id / 8 < self.bitmap.len() as u64 {
            clear_bitmap_bit(&mut self.bitmap, local_id);
        }
    }

    /// Gives the chunk an all-free bitmap of one bit per identifier.
    pub fn initialize_bitmap(&mut self)
        requires
            old(self).start_id <= old(self).end_id,
            old(self).end_id - old(self).start_id < 0x1_0000_0000,
        ensures
            final(self).bitmap@.len() == (old(self).capacity_spec() + 7) / 8,
            forall|i: int| 0 <= i < final(self).capacity_spec() ==> !#[trigger] final(self).is_used(i),
            final(self).next_available == old(self).next_available,
            final(self).same_range(old(self)),
    {
        let capacity = (self.end_id - self.start_id) + 1;
        self.bitmap = zeroed_bitmap(capacity);
    }

    /// Whether the cursor has reached the end of the chunk.
    pub fn is_full(&self) -> (r: bool)
        requires
            self.wf(),
        ensures
            r == (self.next_available >= self.capacity_spec()),
    {
        self.next_available >= self.capacity()
    }
}

/// A bitmap of `ceil(capacity / 8)` zero bytes.
fn zeroed_bitmap(capacity: u64) -> (r: Vec<u8>)
    requires
        capacity <= 0x1_0000_0000,
    ensures
        r@.len() == (capacity + 7) / 8,
        forall|i: int| 0 <= i < r@.len() * 8 ==> !#[trigger] bit_at(r@, i),
{
    let len = ((capacity + 7) / 8) as usize;
    let mut r: Vec<u8> = Vec::new();
    let mut i: usize = 0;
    while i < len
        invariant
            i <= len,
            r@.len() == i,
            forall|j: int| 0 <= j < i ==> r@[j] == 0u8,
        decreases len - i,
    {
        r.push(0u8);
        i = i + 1;
    }
    proof {
        assert forall|i: int| 0 <= i < r@.len() * 8 implies !#[trigger] bit_at(r@, i) by {
            crate::bits::lemma_byte_zero((i % 8) as u8);
        }
    }
    r
}

fn set_bitmap_bit(bitmap: &mut Vec<u8>, i: u64)
    requires
        i / 8 < old(bitmap)@.len(),
    ensures
        final(bitmap)@ == with_bit(old(bitmap)@, i as int),
{
    let byte_index = (i / 8) as usize;
    let bit_index = (i % 8) as u8;
    let b = bitmap[byte_index] | (1u8 << bit_index);
    bitmap.set(byte_index, b);
}

fn clear_bitmap_bit(bitmap: &mut Vec<u8>, i: u64)
    requires
        i / 8 < old(bitmap)@.len(),
    ensures
        final(bitmap)@ == without_bit(old(bitmap)@, i as int),
{
    let byte_index = (i / 8) as usize;
    let bit_index = (i % 8) as u8;
    let b = bitmap[byte_index] & !(1u8 << bit_index);
    bitmap.set(byte_index, b);
}

/// Scans `bitmap` from `cursor`, wrapping at `capacity`, for a free offset.
fn find_free_offset(bitmap: &Vec<u8>, capacity: u64, cursor: u64) -> (r: Option<u64>)
    requires
        1 <= capacity <= bitmap@.len() * 8,
        capacity <= 0x1_0000_0000,
        cursor <= capacity,
    ensures
        match r {
            Some(o) => next_free_offset(bitmap@, capacity as int, cursor as int) == Some(o as int)
                && o < capacity,
            None => next_free_offset(bitmap@, capacity as int, cursor as int) is None,
        },
{
    let mut step: u64 = 0;
    while step < capacity
        invariant
            1 <= capacity <= bitmap@.len() * 8,
            capacity <= 0x1_0000_0000,
            cursor <= capacity,
            step <= capacity,
            next_free_offset(bitmap@, capacity as int, cursor as int) == scan_free(
                bitmap@,
                capacity as int,
                cursor as int,
                step as int,
            ),
        decreases capacity - step,
    {
        let s = cursor + step;
        let offset = if s < capacity {
            s
        } else {
            s - capacity
        };
        let byte = bitmap[(offset / 8) as usize];
        let bit_index = (offset % 8) as u8;
        proof {
            lemma_byte_mask(byte, bit_index);
        }
        if byte & (1u8 << bit_index) == 0 {
            return Some(offset);
        }
        step = step + 1;
    }
    None
}

/// Counts agree on bitmaps that agree on the bits counted.
proof fn lemma_count_agree(a: Seq<u8>, b: Seq<u8>, n: int)
    requires
        forall|j: int| 0 <= j < n ==> bit_at(a, j) == bit_at(b, j),
    ensures
        count_used(a, n) == count_used(b, n),
    decreases n,
{
    if n > 0 {
        lemma_count_agree(a, b, n - 1);
    }
}

/// Setting a clear bit adds one to the count.
pub proof fn lemma_count_with_bit(bits: Seq<u8>, n: int, o: int)
    requires
        0 <= o < n <= bits.len() * 8,
        !bit_at(bits, o),
    ensures
        count_used(with_bit(bits, o), n) == count_used(bits, n) + 1,
    decreases n,
{
    lemma_with_bit(bits, o);
    if o < n - 1 {
        lemma_count_with_bit(bits, n - 1, o);
    } else {
        lemma_count_agree(with_bit(bits, o), bits, n - 1);
    }
}

/// Clearing a set bit takes one from the count; clearing a clear bit
/// changes nothing.
pub proof fn lemma_count_without_bit(bits: Seq<u8>, n: int, o: int)
    requires
        0 <= o < n <= bits.len() * 8,
    ensures
        count_used(without_bit(bits, o), n) + (if bit_at(bits, o) {
            1int
        } else {
            0int
        }) == count_used(bits, n),
    decreases n,
{
    lemma_without_bit(bits, o);
    if o < n - 1 {
        lemma_count_without_bit(bits, n - 1, o);
    } else {
        lemma_count_agree(without_bit(bits, o), bits, n - 1);
    }
}

/// Whatever `scan_free` finds is a free offset within the chunk.
proof fn lemma_scan_free_is_free(bits: Seq<u8>, cap: int, cursor: int, step: int)
    requires
        0 <= cursor <= cap,
        0 <= step,
    ensures
        scan_free(bits, cap, cursor, step) matches Some(o) ==> 0 <= o < cap && !bit_at(bits, o),
    decreases cap - step,
{
    if step < cap && bit_at(bits, cyclic(cursor, step, cap)) {
        lemma_scan_free_is_free(bits, cap, cursor, step + 1);
    }
}

/// Allocates the next free identifier of `chunk` for the owner `merchant`:
/// the first free offset at or after the cursor, wrapping past the end.
/// The cursor moves just past it and the owner records it. Fails with
/// `NoAvailableId`, changing nothing, when every offset is in use.
pub fn allocate_id_in_chunk(merchant: &mut MerchantIdAccount, chunk: &mut IdChunk) -> (r: Result<
    u64,
    ErrorCode,
>)
    requires
        old(chunk).wf(),
    ensures
        final(chunk).wf(),
        match r {
            Ok(id) => {
                let o = id - old(chunk).start_id;
                &&& old(chunk).start_id <= id <= old(chunk).end_id
                &&& old(chunk).next_free() == Some(o)
                &&& final(chunk).bitmap@ == with_bit(old(chunk).bitmap@, o)
                &&& final(chunk).next_available == o + 1
                &&& final(chunk).same_range(old(chunk))
                &&& final(chunk).used_count() == old(chunk).used_count() + 1
                &&& *final(merchant) == (MerchantIdAccount { last_local_id: o as u64, ..*old(merchant) })
            },
            Err(e) => {
                &&& e == ErrorCode::NoAvailableId
                &&& old(chunk).next_free() is None
                &&& *final(chunk) == *old(chunk)
                &&& *final(merchant) == *old(merchant)
            },
        },
{
    let capacity = chunk.capacity();
    match find_free_offset(&chunk.bitmap, capacity, chunk.next_available) {
        None => Err(ErrorCode::NoAvailableId),
        Some(offset) => {
            proof {
                lemma_scan_free_is_free(chunk.bitmap@, capacity as int, chunk.next_available as int, 0);
                lemma_count_with_bit(chunk.bitmap@, capacity as int, offset as int);
                lemma_with_bit(chunk.bitmap@, offset as int);
            }
            set_bitmap_bit(&mut chunk.bitmap, offset);
            chunk.next_available = offset + 1;
            merchant.last_local_id = offset;
            Ok(chunk.start_id + offset)
        },
    }
}

/// Allocates a listing identifier from the owner's active chunk; see
/// `allocate_id_in_chunk`.
pub fn generate_product_id(merchant: &mut MerchantIdAccount, active_chunk: &mut IdChunk) -> (r:
    Result<u64, ErrorCode>)
    requires
        old(active_chunk).wf(),
    ensures
        final(active_chunk).wf(),
        match r {
            Ok(id) => {
                let o = id - old(active_chunk).start_id;
                &&& old(active_chunk).start_id <= id <= old(active_chunk).end_id
                &&& old(active_chunk).next_free() == Some(o)
                &&& final(active_chunk).bitmap@ == with_bit(old(active_chunk).bitmap@, o)
                &&& final(active_chunk).next_available == o + 1
                &&& final(active_chunk).same_range(old(active_chunk))
                &&& final(active_chunk).used_count() == old(active_chunk).used_count() + 1
                &&& *final(merchant) == (MerchantIdAccount { last_local_id: o as u64, ..*old(merchant) })
            },
            Err(e) => {
                &&& e == ErrorCode::NoAvailableId
                &&& old(active_chunk).next_free() is None
                &&& *final(active_chunk) == *old(active_chunk)
                &&& *final(merchant) == *old(merchant)
            },
        },
{
    allocate_id_in_chunk(merchant, active_chunk)
}

/// Frees identifier `id` of the chunk. The cursor stays where it is.
/// Fails with `InvalidId`, changing nothing, when `id` is outside the chunk.
pub fn release_id_in_chunk(chunk: &mut IdChunk, id: u64) -> (r: Result<(), ErrorCode>)
    requires
        old(chunk).wf(),
    ensures
        final(chunk).wf(),
        match r {
            Ok(()) => {
                let o = id - old(chunk).start_id;
                &&& old(chunk).start_id <= id <= old(chunk).end_id
                &&& final(chunk).bitmap@ == without_bit(old(chunk).bitmap@, o)
                &&& final(chunk).next_available == old(chunk).next_available
                &&& final(chunk).same_range(old(chunk))
                &&& final(chunk).used_count() + (if old(chunk).is_used(o) {
                    1int
                } else {
                    0int
                }) == old(chunk).used_count()
            },
            Err(e) => {
                &&& e == ErrorCode::InvalidId
                &&& (id < old(chunk).start_id || id > old(chunk).end_id)
                &&& *final(chunk) == *old(chunk)
            },
        },
{
    if id < chunk.start_id || id > chunk.end_id {
        return Err(ErrorCode::InvalidId);
    }
    let offset = id - chunk.start_id;
    proof {
        lemma_count_without_bit(chunk.bitmap@, chunk.capacity_spec(), offset as int);
    }
    clear_bitmap_bit(&mut chunk.bitmap, offset);
    Ok(())
}

/// Frees identifier `id` of the chunk; see `release_id_in_chunk`.
pub fn release_id(id_chunk: &mut IdChunk, id: u64) -> (r: Result<(), ErrorCode>)
    requires
        old(id_chunk).wf(),
    ensures
        final(id_chunk).wf(),
        match r {
            Ok(()) => {
                let o = id - old(id_chunk).start_id;
                &&& old(id_chunk).start_id <= id <= old(id_chunk).end_id
                &&& final(id_chunk).bitmap@ == without_bit(old(id_chunk).bitmap@, o)
                &&& final(id_chunk).next_available == old(id_chunk).next_available
                &&& final(id_chunk).same_range(old(id_chunk))
                &&& final(id_chunk).used_count() + (if old(id_chunk).is_used(o) {
                    1int
                } else {
                    0int
                }) == old(id_chunk).used_count()
            },
            Err(e) => {
                &&& e == ErrorCode::InvalidId
                &&& (id < old(id_chunk).start_id || id > old(id_chunk).end_id)
                &&& *final(id_chunk) == *old(id_chunk)
            },
        },
{
    release_id_in_chunk(id_chunk, id)
}

/// A run of allocations that fails at some point fails at every later one.
proof fn lemma_batch_none_stays(bits: Seq<u8>, cap: int, cursor: int, k: nat, n: nat)
    requires
        k <= n,
        batch_spec(bits, cap, cursor, k) is None,
    ensures
        batch_spec(bits, cap, cursor, n) is None,
    decreases n - k,
{
    if k < n {
        lemma_batch_none_stays(bits, cap, cursor, k + 1, n);
    }
}

/// Allocates `count` identifiers from the owner's active chunk, one after
/// the other as single allocations would. All or nothing: when the chunk
/// runs out first, it fails with `NoAvailableId` and changes nothing.
/// `chunk_address` must be the owner's active chunk (`InvalidActiveChunk`)
/// and `count` must lie in `1 ..= MAX_BATCH_SIZE` (`InvalidId`).
pub fn batch_generate_ids(
    merchant: &mut MerchantIdAccount,
    active_chunk: &mut IdChunk,
    chunk_address: &Address,
    count: u16,
) -> (r: Result<Vec<u64>, ErrorCode>)
    requires
        old(active_chunk).wf(),
    ensures
        final(active_chunk).wf(),
        match r {
            Ok(ids) => {
                &&& chunk_address@ == old(merchant).active_chunk@
                &&& 1 <= count <= MAX_BATCH_SIZE
                &&& batch_spec(
                    old(active_chunk).bitmap@,
                    old(active_chunk).capacity_spec(),
                    old(active_chunk).next_available as int,
                    count as nat,
                ) matches Some((bits, cursor, offs))
                &&& final(active_chunk).bitmap@ == bits
                &&& final(active_chunk).next_available == cursor
                &&& final(active_chunk).same_range(old(active_chunk))
                &&& final(active_chunk).used_count() == old(active_chunk).used_count() + count
                &&& ids@.len() == count
                &&& forall|i: int|
                    0 <= i < count ==> #[trigger] ids@[i] == old(active_chunk).start_id + offs[i]
                &&& *final(merchant) == (MerchantIdAccount {
                    last_local_id: offs.last() as u64,
                    ..*old(merchant)
                })
            },
            Err(e) => {
                &&& *final(active_chunk) == *old(active_chunk)
                &&& *final(merchant) == *old(merchant)
                &&& if chunk_address@ != old(merchant).active_chunk@ {
                    e == ErrorCode::InvalidActiveChunk
                } else if count == 0 || count > MAX_BATCH_SIZE {
                    e == ErrorCode::InvalidId
                } else {
                    e == ErrorCode::NoAvailableId && batch_spec(
                        old(active_chunk).bitmap@,
                        old(active_chunk).capacity_spec(),
                        old(active_chunk).next_available as int,
                        count as nat,
                    ) is None
                }
            },
        },
{
    if !same_address(chunk_address, &merchant.active_chunk) {
        return Err(ErrorCode::InvalidActiveChunk);
    }
    if count == 0 || count > MAX_BATCH_SIZE {
        return Err(ErrorCode::InvalidId);
    }
    let capacity = active_chunk.capacity();
    let start_id = active_chunk.start_id;
    let ghost bits0 = active_chunk.bitmap@;
    let ghost cursor0 = active_chunk.next_available as int;
    let mut bitmap = active_chunk.bitmap.clone();
    assert(bitmap@ =~= bits0);
    let mut cursor = active_chunk.next_available;
    let mut ids: Vec<u64> = Vec::new();
    let mut last: u64 = 0;
    let ghost mut offs: Seq<int> = Seq::empty();
    let mut i: u16 = 0;
    while i < count
        invariant
            1 <= capacity <= bits0.len() * 8,
            capacity <= 0x1_0000_0000,
            *active_chunk == *old(active_chunk),
            *merchant == *old(merchant),
            active_chunk.wf(),
            chunk_address@ == old(merchant).active_chunk@,
            1 <= count <= MAX_BATCH_SIZE,
            capacity == active_chunk.capacity_spec(),
            start_id == active_chunk.start_id,
            start_id + capacity <= u64::MAX + 1,
            bits0 == active_chunk.bitmap@,
            cursor0 == active_chunk.next_available,
            i <= count,
            bitmap@.len() == bits0.len(),
            cursor <= capacity,
            batch_spec(bits0, capacity as int, cursor0, i as nat) == Some((bitmap@, cursor as int, offs)),
            offs.len() == i,
            ids@.len() == i,
            forall|j: int| 0 <= j < i ==> #[trigger] ids@[j] == start_id + offs[j],
            forall|j: int| 0 <= j < i ==> 0 <= #[trigger] offs[j] < capacity,
            i > 0 ==> last == offs.last(),
        decreases count - i,
    {
        match find_free_offset(&bitmap, capacity, cursor) {
            None => {
                proof {
                    lemma_batch_none_stays(bits0, capacity as int, cursor0, (i + 1) as nat, count as nat);
                }
                return Err(ErrorCode::NoAvailableId);
            },
            Some(offset) => {
                proof {
                    lemma_scan_free_is_free(bitmap@, capacity as int, cursor as int, 0);
                    offs = offs.push(offset as int);
                }
                set_bitmap_bit(&mut bitmap, offset);
                cursor = offset + 1;
                ids.push(start_id + offset);
                last = offset;
                i = i + 1;
            },
        }
    }
    proof {
        lemma_batch_count(bits0, capacity as int, cursor0, count as nat);
    }
    active_chunk.bitmap = bitmap;
    active_chunk.next_available = cursor;
    merchant.last_local_id = last;
    Ok(ids)
}

/// When every offset is in use, no scan finds one.
proof fn lemma_scan_all_used(bits: Seq<u8>, cap: int, cursor: int, step: int)
    requires
        0 <= cursor <= cap,
        0 <= step,
        forall|i: int| 0 <= i < cap ==> bit_at(bits, i),
    ensures
        scan_free(bits, cap, cursor, step) is None,
    decreases cap - step,
{
    if step < cap {
        lemma_scan_all_used(bits, cap, cursor, step + 1);
    }
}

/// A scan that has a free offset ahead of it finds one, and finds that one
/// when everything before it is in use.
proof fn lemma_scan_reaches(bits: Seq<u8>, cap: int, cursor: int, step: int, target: int)
    requires
        0 <= cursor <= cap,
        0 <= step <= target < cap,
        !bit_at(bits, cyclic(cursor, target, cap)),
    ensures
        scan_free(bits, cap, cursor, step) is Some,
        (forall|s: int| step <= s < target ==> bit_at(bits, #[trigger] cyclic(cursor, s, cap)))
            ==> scan_free(bits, cap, cursor, step) == Some(cyclic(cursor, target, cap)),
    decreases target - step,
{
    if step < target && bit_at(bits, cyclic(cursor, step, cap)) {
        lemma_scan_reaches(bits, cap, cursor, step + 1, target);
    }
}

/// The first `k` allocations from an unused chunk whose cursor is at the
/// start hand out offsets `0 .. k` in order.
proof fn lemma_fill_prefix(bits: Seq<u8>, cap: int, k: nat)
    requires
        1 <= cap <= bits.len() * 8,
        k <= cap,
        forall|i: int| 0 <= i < cap ==> !bit_at(bits, i),
    ensures
        batch_spec(bits, cap, 0, k) matches Some((b, c, offs)) && c == k && offs == Seq::new(
            k,
            |i: int| i,
        ) && b.len() == bits.len() && (forall|i: int|
            0 <= i < cap ==> (bit_at(b, i) <==> i < k)),
    decreases k,
{
    if k > 0 {
        let km = (k - 1) as nat;
        lemma_fill_prefix(bits, cap, km);
        let (b, c, offs) = batch_spec(bits, cap, 0, km)->Some_0;
        assert(scan_free(b, cap, km as int, 0) == Some(km as int));
        lemma_with_bit(b, km as int);
        assert(offs.push(km as int) =~= Seq::new(k, |i: int| i));
    }
}

/// Allocating `capacity` identifiers from a chunk with none in use and its
/// cursor at the start succeeds exactly `capacity` times, handing out the
/// offsets 0, 1, ... in order, and the next allocation fails.
pub proof fn lemma_fill_empty_chunk(bits: Seq<u8>, cap: int)
    requires
        1 <= cap <= bits.len() * 8,
        forall|i: int| 0 <= i < cap ==> !bit_at(bits, i),
    ensures
        forall|k: nat|
            k <= cap ==> (#[trigger] batch_spec(bits, cap, 0, k) matches Some((b, c, offs)) && c
                == k && offs == Seq::new(k, |i: int| i)),
        batch_spec(bits, cap, 0, (cap + 1) as nat) is None,
{
    assert forall|k: nat| k <= cap implies (#[trigger] batch_spec(bits, cap, 0, k) matches Some(
        (b, c, offs),
    ) && c == k && offs == Seq::new(k, |i: int| i)) by {
        lemma_fill_prefix(bits, cap, k);
    }
    lemma_fill_prefix(bits, cap, cap as nat);
    let (b, c, offs) = batch_spec(bits, cap, 0, cap as nat)->Some_0;
    lemma_scan_all_used(b, cap, cap, 0);
}

/// After offset `r` is released, the next allocation cannot fail, wherever
/// the cursor stands; when every other offset is in use it hands out `r`.
pub proof fn lemma_released_offset_reused(bits: Seq<u8>, cap: int, cursor: int, r: int)
    requires
        1 <= cap <= bits.len() * 8,
        0 <= cursor <= cap,
        0 <= r < cap,
    ensures
        next_free_offset(without_bit(bits, r), cap, cursor) is Some,
        (forall|i: int| 0 <= i < cap && i != r ==> bit_at(bits, i)) ==> next_free_offset(
            without_bit(bits, r),
            cap,
            cursor,
        ) == Some(r),
{
    let nb = without_bit(bits, r);
    lemma_without_bit(bits, r);
    let t = if r >= cursor {
        r - cursor
    } else {
        r + cap - cursor
    };
    assert(cyclic(cursor, t, cap) == r);
    lemma_scan_reaches(nb, cap, cursor, 0, t);
    if forall|i: int| 0 <= i < cap && i != r ==> bit_at(bits, i) {
        assert forall|s: int| 0 <= s < t implies bit_at(nb, #[trigger] cyclic(cursor, s, cap)) by {
            let o = cyclic(cursor, s, cap);
            assert(0 <= o < cap && o != r);
        }
    }
}

/// Chunks of different owners, or different chunks of one owner, never
/// share an identifier, as long as each chunk stays within its owner's
/// reserved range.
pub proof fn lemma_chunk_ranges_disjoint(m1: u32, i1: u32, m2: u32, i2: u32, chunk_size: u32)
    requires
        chunk_size >= 1,
        (i1 + 1) * chunk_size <= IDS_PER_MERCHANT,
        (i2 + 1) * chunk_size <= IDS_PER_MERCHANT,
        m1 != m2 || i1 != i2,
    ensures
        chunk_start(m1, i1, chunk_size) + chunk_size <= chunk_start(m2, i2, chunk_size)
            || chunk_start(m2, i2, chunk_size) + chunk_size <= chunk_start(m1, i1, chunk_size),
{
    let s = chunk_size as int;
    assert(i1 * s + s <= IDS_PER_MERCHANT) by (nonlinear_arith)
        requires
            (i1 + 1) * s <= IDS_PER_MERCHANT,
    ;
    assert(i2 * s + s <= IDS_PER_MERCHANT) by (nonlinear_arith)
        requires
            (i2 + 1) * s <= IDS_PER_MERCHANT,
    ;
    if m1 == m2 {
        if i1 < i2 {
            assert(i1 * s + s <= i2 * s) by (nonlinear_arith)
                requires
                    i1 < i2,
                    s >= 1,
            ;
        } else {
            assert(i2 * s + s <= i1 * s) by (nonlinear_arith)
                requires
                    i2 < i1,
                    s >= 1,
            ;
        }
    } else if m1 < m2 {
        assert(m1 * IDS_PER_MERCHANT + IDS_PER_MERCHANT <= m2 * IDS_PER_MERCHANT) by (nonlinear_arith)
            requires
                m1 < m2,
        ;
    } else {
        assert(m2 * IDS_PER_MERCHANT + IDS_PER_MERCHANT <= m1 * IDS_PER_MERCHANT) by (nonlinear_arith)
            requires
                m2 < m1,
        ;
    }
}

/// Each allocation of a run uses one more offset: after `n` successful
/// allocations, `n` more offsets are in use.
pub proof fn lemma_batch_count(bits: Seq<u8>, cap: int, cursor: int, n: nat)
    requires
        1 <= cap <= bits.len() * 8,
        0 <= cursor <= cap,
    ensures
        batch_spec(bits, cap, cursor, n) matches Some((b, c, offs)) ==> count_used(b, cap) == count_used(
            bits,
            cap,
        ) + n && b.len() == bits.len() && 0 <= c <= cap,
    decreases n,
{
    if n > 0 {
        let m = (n - 1) as nat;
        lemma_batch_count(bits, cap, cursor, m);
        if let Some((b, c, offs)) = batch_spec(bits, cap, cursor, m) {
            lemma_scan_free_is_free(b, cap, c, 0);
            if let Some(o) = next_free_offset(b, cap, c) {
                lemma_count_with_bit(b, cap, o);
                lemma_with_bit(b, o);
            }
        }
    }
}

/// One allocation step from a chunk whose first `k` offsets are in use and
/// whose cursor is at `k`: for `k < capacity` it hands out offset `k` and
/// leaves the first `k + 1` offsets in use; at `k == capacity` it fails.
/// Chained over the contract of `generate_product_id`, `capacity` calls on
/// a fresh chunk hand out `start_id, start_id + 1, ...` and the next fails.
pub proof fn lemma_sequential_allocation(bits: Seq<u8>, cap: int, k: int)
    requires
        1 <= cap <= bits.len() * 8,
        0 <= k <= cap,
        forall|i: int| 0 <= i < cap ==> (bit_at(bits, i) <==> i < k),
    ensures
        count_used(bits, cap) == k,
        k < cap ==> next_free_offset(bits, cap, k) == Some(k),
        k < cap ==> forall|i: int| 0 <= i < cap ==> (#[trigger] bit_at(with_bit(bits, k), i) <==> i < k + 1),
        k == cap ==> next_free_offset(bits, cap, k) is None,
{
    lemma_count_prefix_set(bits, cap, k, cap);
    if k < cap {
        assert(scan_free(bits, cap, k, 0) == Some(k));
        lemma_with_bit(bits, k);
    } else {
        lemma_scan_all_used(bits, cap, cap, 0);
    }
}

proof fn lemma_count_prefix_set(bits: Seq<u8>, cap: int, k: int, n: int)
    requires
        0 <= n <= cap,
        0 <= k <= cap,
        forall|i: int| 0 <= i < cap ==> (bit_at(bits, i) <==> i < k),
    ensures
        count_used(bits, n) == if n < k { n } else { k },
    decreases n,
{
    if n > 0 {
        lemma_count_prefix_set(bits, cap, k, n - 1);
    }
}

/// Seed tag of chunk records, the bytes of `id_chunk`.
pub open spec fn id_chunk_tag() -> Seq<u8> {
    seq![105u8, 100, 95, 99, 104, 117, 110, 107]
}

/// Seed tag of owner cursor records, the bytes of `merchant_id`.
pub open spec fn merchant_id_tag() -> Seq<u8> {
    seq![109u8, 101, 114, 99, 104, 97, 110, 116, 95, 105, 100]
}

/// Seed tag of the global root, the bytes of `global_id_root`.
pub open spec fn global_id_root_tag() -> Seq<u8> {
    seq![103u8, 108, 111, 98, 97, 108, 95, 105, 100, 95, 114, 111, 111, 116]
}

/// Seeds of chunk `chunk_index` of the owner signing as `owner`.
pub open spec fn chunk_address_seeds(owner: Seq<u8>, chunk_index: u32) -> Seq<Seq<u8>> {
    seq![id_chunk_tag(), owner, u32_le(chunk_index)]
}

/// Seeds of the cursor record of the owner signing as `owner`.
pub open spec fn merchant_account_seeds(owner: Seq<u8>) -> Seq<Seq<u8>> {
    seq![merchant_id_tag(), owner]
}

/// First identifier of chunk `chunk_index` of owner `merchant_id`.
pub open spec fn chunk_start(merchant_id: u32, chunk_index: u32, chunk_size: u32) -> int {
    merchant_id * IDS_PER_MERCHANT + chunk_index * chunk_size
}

fn id_chunk_tag_bytes() -> (r: Vec<u8>)
    ensures
        r@ == id_chunk_tag(),
{
    let r = vec![105u8, 100, 95, 99, 104, 117, 110, 107];
    assert(r@ =~= id_chunk_tag());
    r
}

fn merchant_id_tag_bytes() -> (r: Vec<u8>)
    ensures
        r@ == merchant_id_tag(),
{
    let r = vec![109u8, 101, 114, 99, 104, 97, 110, 116, 95, 105, 100];
    assert(r@ =~= merchant_id_tag());
    r
}

fn chunk_seeds_for(owner: &Address, chunk_index: u32) -> (r: Vec<Vec<u8>>)
    ensures
        seeds_view(r@) == chunk_address_seeds(owner@, chunk_index),
{
    let r = vec![id_chunk_tag_bytes(), address_seed(owner), u32_seed(chunk_index)];
    assert(seeds_view(r@) =~= chunk_address_seeds(owner@, chunk_index));
    r
}

impl GlobalIdRoot {
    /// The chunk size is positive and the owner list within its bound.
    pub open spec fn wf(&self) -> bool {
        &&& self.chunk_size >= 1
        &&& self.merchants@.len() <= MAX_MERCHANTS
    }

    /// Seeds of the global root.
    pub fn seeds() -> (r: Vec<Vec<u8>>)
        ensures
            seeds_view(r@) == seq![global_id_root_tag()],
    {
        let tag = vec![103u8, 108, 111, 98, 97, 108, 95, 105, 100, 95, 114, 111, 111, 116];
        let r = vec![tag];
        assert(seeds_view(r@) =~= seq![global_id_root_tag()]);
        r
    }
}

impl MerchantIdAccount {
    /// Seeds of the cursor record of the owner signing as `merchant`.
    pub fn seeds(merchant: &Address) -> (r: Vec<Vec<u8>>)
        ensures
            seeds_view(r@) == merchant_account_seeds(merchant@),
    {
        let r = vec![merchant_id_tag_bytes(), address_seed(merchant)];
        assert(seeds_view(r@) =~= merchant_account_seeds(merchant@));
        r
    }
}

impl IdChunk {
    /// Seeds naming a chunk by owner number and chunk index.
    pub fn seeds(merchant_id: u32, chunk_index: u32) -> (r: Vec<Vec<u8>>)
        ensures
            seeds_view(r@) == seq![id_chunk_tag(), u32_le(merchant_id), u32_le(chunk_index)],
    {
        let r = vec![id_chunk_tag_bytes(), u32_seed(merchant_id), u32_seed(chunk_index)];
        assert(seeds_view(r@) =~= seq![id_chunk_tag(), u32_le(merchant_id), u32_le(chunk_index)]);
        r
    }
}

/// A bitmap with no bit set counts nothing.
proof fn lemma_count_none(bits: Seq<u8>, n: int)
    requires
        forall|i: int| 0 <= i < n ==> !bit_at(bits, i),
    ensures
        count_used(bits, n) == 0,
    decreases n,
{
    if n > 0 {
        lemma_count_none(bits, n - 1);
    }
}

/// A fresh chunk: no identifier in use, cursor at the start.
fn make_chunk(merchant_id: u32, chunk_index: u32, chunk_size: u32, bump: u8) -> (c: IdChunk)
    requires
        1 <= chunk_size,
        (chunk_index + 1) * chunk_size <= IDS_PER_MERCHANT,
    ensures
        c.wf(),
        c.merchant_id == merchant_id,
        c.chunk_index == chunk_index,
        c.start_id == chunk_start(merchant_id, chunk_index, chunk_size),
        c.end_id == c.start_id + chunk_size - 1,
        c.next_available == 0,
        c.bump == bump,
        c.used_count() == 0,
        c.end_id < 0x0010_0000_0000_0000,
        c.end_id < (merchant_id + 1) * IDS_PER_MERCHANT,
        forall|i: int| 0 <= i < c.capacity_spec() ==> !#[trigger] c.is_used(i),
{
    assert(chunk_index * chunk_size <= IDS_PER_MERCHANT - chunk_size) by (nonlinear_arith)
        requires
            (chunk_index + 1) * chunk_size <= IDS_PER_MERCHANT,
    ;
    assert(merchant_id * IDS_PER_MERCHANT <= 0xffff_ffff * IDS_PER_MERCHANT) by (nonlinear_arith)
        requires
            merchant_id <= 0xffff_ffff,
    ;
    assert(chunk_index * chunk_size + chunk_size <= IDS_PER_MERCHANT) by (nonlinear_arith)
        requires
            (chunk_index + 1) * chunk_size <= IDS_PER_MERCHANT,
    ;
    assert((merchant_id + 1) * IDS_PER_MERCHANT == merchant_id * IDS_PER_MERCHANT + IDS_PER_MERCHANT) by (nonlinear_arith);
    let start = (merchant_id as u64) * IDS_PER_MERCHANT + (chunk_index as u64) * (chunk_size as u64);
    let size = chunk_size as u64;
    let c = IdChunk {
        merchant_id,
        chunk_index,
        start_id: start,
        end_id: start + size - 1,
        next_available: 0,
        bitmap: zeroed_bitmap(size),
        bump,
    };
    proof {
        lemma_count_none(c.bitmap@, c.capacity_spec());
    }
    c
}

/// Sets up the global root with the given policy. Fails with `InvalidId`
/// when `chunk_size` is zero.
pub fn initialize_system(
    chunk_size: u32,
    max_products_per_shard: u16,
    max_keywords_per_product: u8,
    bloom_filter_size: u16,
    bump: u8,
) -> (r: Result<GlobalIdRoot, ErrorCode>)
    ensures
        match r {
            Ok(root) => {
                &&& chunk_size >= 1
                &&& root.wf()
                &&& root.last_merchant_id == 0
                &&& root.last_global_id == 0
                &&& root.chunk_size == chunk_size
                &&& root.merchants@.len() == 0
                &&& root.max_products_per_shard == max_products_per_shard
                &&& root.max_keywords_per_product == max_keywords_per_product
                &&& root.bloom_filter_size == bloom_filter_size
                &&& root.bump == bump
            },
            Err(e) => e == ErrorCode::InvalidId && chunk_size == 0,
        },
{
    if chunk_size == 0 {
        return Err(ErrorCode::InvalidId);
    }
    Ok(
        GlobalIdRoot {
            last_merchant_id: 0,
            last_global_id: 0,
            chunk_size,
            merchants: Vec::new(),
            max_products_per_shard,
            max_keywords_per_product,
            bloom_filter_size,
            bump,
        },
    )
}

/// Registers the owner signing as `merchant_key`: numbers it, creates its
/// cursor record and its first chunk (index 0), lists the cursor record on
/// the root and raises the root's high-water mark past the chunk.
/// Returns the cursor record, its address, the chunk and its address.
/// Fails, changing nothing, with `IntegerOverflow` when owner numbers are
/// exhausted, `TooManyEntries` when the root's owner list is full,
/// `IdRangeOverflow` when one chunk exceeds an owner's reserved range, and
/// `InvalidAccountSeeds` when an address cannot be derived.
pub fn register_merchant_ids(
    global_root: &mut GlobalIdRoot,
    merchant_key: &Address,
    program_id: &Address,
) -> (r: Result<(MerchantIdAccount, Address, IdChunk, Address), ErrorCode>)
    requires
        old(global_root).wf(),
    ensures
        final(global_root).wf(),
        match r {
            Ok((account, account_address, chunk, chunk_address)) => {
                let id = old(global_root).last_merchant_id + 1;
                &&& old(global_root).last_merchant_id < u32::MAX
                &&& old(global_root).merchants@.len() < MAX_MERCHANTS
                &&& old(global_root).chunk_size <= IDS_PER_MERCHANT
                &&& program_address(merchant_account_seeds(merchant_key@), program_id@) == Some(
                    (account_address@, account.bump),
                )
                &&& program_address(chunk_address_seeds(merchant_key@, 0), program_id@) == Some(
                    (chunk_address@, chunk.bump),
                )
                &&& account.merchant_id == id
                &&& account.last_chunk_index == 0
                &&& account.last_local_id == 0
                &&& account.active_chunk@ == chunk_address@
                &&& account.unused_chunks@.len() == 0
                &&& chunk.wf()
                &&& chunk.merchant_id == id
                &&& chunk.chunk_index == 0
                &&& chunk.start_id == id * IDS_PER_MERCHANT
                &&& chunk.end_id == chunk.start_id + old(global_root).chunk_size - 1
                &&& chunk.next_available == 0
                &&& chunk.used_count() == 0
                &&& final(global_root).last_merchant_id == id
                &&& final(global_root).last_global_id == chunk.end_id + 1
                &&& final(global_root).merchants@ == old(global_root).merchants@.push(account_address)
                &&& final(global_root).chunk_size == old(global_root).chunk_size
                &&& final(global_root).max_products_per_shard == old(global_root).max_products_per_shard
                &&& final(global_root).max_keywords_per_product == old(global_root).max_keywords_per_product
                &&& final(global_root).bloom_filter_size == old(global_root).bloom_filter_size
                &&& final(global_root).bump == old(global_root).bump
            },
            Err(e) => {
                &&& *final(global_root) == *old(global_root)
                &&& if old(global_root).last_merchant_id == u32::MAX {
                    e == ErrorCode::IntegerOverflow
                } else if old(global_root).merchants@.len() >= MAX_MERCHANTS {
                    e == ErrorCode::TooManyEntries
                } else if old(global_root).chunk_size > IDS_PER_MERCHANT {
                    e == ErrorCode::IdRangeOverflow
                } else {
                    e == ErrorCode::InvalidAccountSeeds && (program_address(
                        merchant_account_seeds(merchant_key@),
                        program_id@,
                    ) is None || program_address(chunk_address_seeds(merchant_key@, 0), program_id@)
                        is None)
                }
            },
        },
{
    if global_root.last_merchant_id == u32::MAX {
        return Err(ErrorCode::IntegerOverflow);
    }
    if global_root.merchants.len() >= MAX_MERCHANTS {
        return Err(ErrorCode::TooManyEntries);
    }
    if global_root.chunk_size as u64 > IDS_PER_MERCHANT {
        return Err(ErrorCode::IdRangeOverflow);
    }
    let id = global_root.last_merchant_id + 1;
    let (account_address, account_bump) = match derive_address(
        &MerchantIdAccount::seeds(merchant_key),
        program_id,
    ) {
        Ok(found) => found,
        Err(e) => {
            return Err(e);
        },
    };
    let (chunk_address, chunk_bump) = match derive_address(&chunk_seeds_for(merchant_key, 0), program_id) {
        Ok(found) => found,
        Err(e) => {
            return Err(e);
        },
    };
    let chunk = make_chunk(id, 0, global_root.chunk_size, chunk_bump);
    let account = MerchantIdAccount {
        merchant_id: id,
        last_chunk_index: 0,
        last_local_id: 0,
        active_chunk: chunk_address,
        unused_chunks: Vec::new(),
        bump: account_bump,
    };
    global_root.last_merchant_id = id;
    global_root.last_global_id = chunk.end_id + 1;
    global_root.merchants.push(account_address);
    Ok((account, account_address, chunk, chunk_address))
}

/// Mints the owner's next chunk (index `last_chunk_index + 1`) and makes it
/// active; the old active chunk joins the reclaimable list and the root's
/// high-water mark moves past the new chunk. Returns the chunk and its
/// address. Fails, changing nothing, with `InvalidShardIndex` past
/// `MAX_CHUNKS_PER_MERCHANT`, `IdRangeOverflow` when the chunk would leave
/// the owner's reserved range (so chunks of different owners never
/// overlap), `TooManyEntries` when the reclaimable list is full, and
/// `InvalidAccountSeeds` when no address can be derived.
pub fn allocate_new_chunk(
    global_root: &mut GlobalIdRoot,
    merchant_account: &mut MerchantIdAccount,
    merchant_key: &Address,
    program_id: &Address,
) -> (r: Result<(IdChunk, Address), ErrorCode>)
    requires
        old(global_root).wf(),
    ensures
        final(global_root).wf(),
        match r {
            Ok((chunk, address)) => {
                let idx = (old(merchant_account).last_chunk_index + 1) as u32;
                let size = old(global_root).chunk_size;
                &&& old(merchant_account).last_chunk_index + 1 <= MAX_CHUNKS_PER_MERCHANT
                &&& (old(merchant_account).last_chunk_index + 2) * size <= IDS_PER_MERCHANT
                &&& old(merchant_account).unused_chunks@.len() < MAX_UNUSED_CHUNKS
                &&& chunk.end_id < (old(merchant_account).merchant_id + 1) * IDS_PER_MERCHANT
                &&& program_address(chunk_address_seeds(merchant_key@, idx), program_id@) == Some(
                    (address@, chunk.bump),
                )
                &&& chunk.wf()
                &&& chunk.merchant_id == old(merchant_account).merchant_id
                &&& chunk.chunk_index == idx
                &&& chunk.start_id == chunk_start(old(merchant_account).merchant_id, idx, size)
                &&& chunk.end_id == chunk.start_id + size - 1
                &&& chunk.next_available == 0
                &&& chunk.used_count() == 0
                &&& final(merchant_account).last_chunk_index == idx
                &&& final(merchant_account).active_chunk@ == address@
                &&& final(merchant_account).unused_chunks@ == old(merchant_account).unused_chunks@.push(
                    old(merchant_account).active_chunk,
                )
                &&& final(merchant_account).merchant_id == old(merchant_account).merchant_id
                &&& final(merchant_account).last_local_id == old(merchant_account).last_local_id
                &&& final(merchant_account).bump == old(merchant_account).bump
                &&& *final(global_root) == (GlobalIdRoot {
                    last_global_id: (chunk.end_id + 1) as u64,
                    ..*old(global_root)
                })
            },
            Err(e) => {
                let idx = old(merchant_account).last_chunk_index + 1;
                &&& *final(global_root) == *old(global_root)
                &&& *final(merchant_account) == *old(merchant_account)
                &&& if idx > MAX_CHUNKS_PER_MERCHANT {
                    e == ErrorCode::InvalidShardIndex
                } else if (idx + 1) * old(global_root).chunk_size > IDS_PER_MERCHANT {
                    e == ErrorCode::IdRangeOverflow
                } else if old(merchant_account).unused_chunks@.len() >= MAX_UNUSED_CHUNKS {
                    e == ErrorCode::TooManyEntries
                } else {
                    e == ErrorCode::InvalidAccountSeeds && program_address(
                        chunk_address_seeds(merchant_key@, idx as u32),
                        program_id@,
                    ) is None
                }
            },
        },
{
    if merchant_account.last_chunk_index >= MAX_CHUNKS_PER_MERCHANT {
        return Err(ErrorCode::InvalidShardIndex);
    }
    let chunk_index = merchant_account.last_chunk_index + 1;
    let size = global_root.chunk_size;
    assert((chunk_index + 1) * size <= (MAX_CHUNKS_PER_MERCHANT + 1) * 0xffff_ffff) by (nonlinear_arith)
        requires
            chunk_index <= MAX_CHUNKS_PER_MERCHANT,
            size <= 0xffff_ffff,
    ;
    if (chunk_index as u64 + 1) * (size as u64) > IDS_PER_MERCHANT {
        return Err(ErrorCode::IdRangeOverflow);
    }
    if merchant_account.unused_chunks.len() >= MAX_UNUSED_CHUNKS {
        return Err(ErrorCode::TooManyEntries);
    }
    let (address, bump) = match derive_address(&chunk_seeds_for(merchant_key, chunk_index), program_id) {
        Ok(found) => found,
        Err(e) => {
            return Err(e);
        },
    };
    let chunk = make_chunk(merchant_account.merchant_id, chunk_index, size, bump);
    let old_active = merchant_account.active_chunk;
    merchant_account.last_chunk_index = chunk_index;
    merchant_account.unused_chunks.push(old_active);
    merchant_account.active_chunk = address;
    global_root.last_global_id = chunk.end_id + 1;
    Ok((chunk, address))
}

/// Gives the owner a new active chunk, reusing before growing: a
/// reclaimable chunk is taken from the end of the list when there is one;
/// otherwise the address of chunk `last_chunk_index + 1` of the owner
/// signing as `payer_key` is derived and the root's high-water mark grows by
/// one chunk. Either way the chunk index advances by one. Fails, changing
/// nothing, with `IntegerOverflow` when a counter would overflow,
/// `InvalidShardIndex` past `MAX_CHUNKS_PER_MERCHANT`, `IdRangeOverflow`
/// when the new chunk would leave the owner's reserved range, and
/// `InvalidAccountSeeds` when no address can be derived.
pub fn switch_or_allocate_chunk(
    merchant: &mut MerchantIdAccount,
    root: &mut GlobalIdRoot,
    payer_key: &Address,
    program_id: &Address,
) -> (r: Result<Address, ErrorCode>)
    ensures
        match r {
            Ok(address) => {
                &&& final(merchant).active_chunk == address
                &&& final(merchant).last_chunk_index == old(merchant).last_chunk_index + 1
                &&& final(merchant).merchant_id == old(merchant).merchant_id
                &&& final(merchant).last_local_id == old(merchant).last_local_id
                &&& final(merchant).bump == old(merchant).bump
                &&& if old(merchant).unused_chunks@.len() > 0 {
                    &&& address == old(merchant).unused_chunks@.last()
                    &&& final(merchant).unused_chunks@ == old(merchant).unused_chunks@.drop_last()
                    &&& *final(root) == *old(root)
                } else {
                    &&& old(merchant).last_chunk_index + 1 <= MAX_CHUNKS_PER_MERCHANT
                    &&& (old(merchant).last_chunk_index + 2) * old(root).chunk_size <= IDS_PER_MERCHANT
                    &&& old(root).last_global_id + old(root).chunk_size <= u64::MAX
                    &&& program_address(
                        chunk_address_seeds(payer_key@, final(merchant).last_chunk_index),
                        program_id@,
                    ) matches Some((a, _)) && a == address@
                    &&& final(merchant).unused_chunks@ == old(merchant).unused_chunks@
                    &&& *final(root) == (GlobalIdRoot {
                        last_global_id: (old(root).last_global_id + old(root).chunk_size) as u64,
                        ..*old(root)
                    })
                }
            },
            Err(e) => {
                &&& *final(root) == *old(root)
                &&& *final(merchant) == *old(merchant)
                &&& if old(merchant).last_chunk_index == u32::MAX {
                    e == ErrorCode::IntegerOverflow
                } else if old(merchant).unused_chunks@.len() > 0 {
                    false
                } else if old(merchant).last_chunk_index + 1 > MAX_CHUNKS_PER_MERCHANT {
                    e == ErrorCode::InvalidShardIndex
                } else if (old(merchant).last_chunk_index + 2) * old(root).chunk_size > IDS_PER_MERCHANT {
                    e == ErrorCode::IdRangeOverflow
                } else if old(root).last_global_id + old(root).chunk_size > u64::MAX {
                    e == ErrorCode::IntegerOverflow
                } else {
                    e == ErrorCode::InvalidAccountSeeds && program_address(
                        chunk_address_seeds(payer_key@, (old(merchant).last_chunk_index + 1) as u32),
                        program_id@,
                    ) is None
                }
            },
        },
{
    if merchant.last_chunk_index == u32::MAX {
        return Err(ErrorCode::IntegerOverflow);
    }
    if merchant.unused_chunks.len() > 0 {
        let next_chunk = merchant.unused_chunks.pop().unwrap();
        merchant.active_chunk = next_chunk;
        merchant.last_chunk_index = merchant.last_chunk_index + 1;
        return Ok(next_chunk);
    }
    let new_chunk_index = merchant.last_chunk_index + 1;
    if new_chunk_index > MAX_CHUNKS_PER_MERCHANT {
        return Err(ErrorCode::InvalidShardIndex);
    }
    let size = root.chunk_size;
    assert((new_chunk_index + 1) * size <= (MAX_CHUNKS_PER_MERCHANT + 1) * 0xffff_ffff) by (nonlinear_arith)
        requires
            new_chunk_index <= MAX_CHUNKS_PER_MERCHANT,
            size <= 0xffff_ffff,
    ;
    if (new_chunk_index as u64 + 1) * (size as u64) > IDS_PER_MERCHANT {
        return Err(ErrorCode::IdRangeOverflow);
    }
    let new_global = match root.last_global_id.checked_add(root.chunk_size as u64) {
        Some(v) => v,
        None => {
            return Err(ErrorCode::IntegerOverflow);
        },
    };
    let (chunk_key, _bump) = match derive_address(&chunk_seeds_for(payer_key, new_chunk_index), program_id) {
        Ok(found) => found,
        Err(e) => {
            return Err(e);
        },
    };
    merchant.active_chunk = chunk_key;
    merchant.last_chunk_index = new_chunk_index;
    root.last_global_id = new_global;
    Ok(chunk_key)
}

/// Whether listing identifier `id` of the owner signing as `merchant_key`
/// is in use. The identifier's chunk index is computed as if chunks had the
/// default size; `id_chunk_address` must be the address derived for that
/// chunk (`InvalidPda` otherwise). Identifiers below the owner's reserved
/// range, or outside the chunk given, are not in use.
pub fn is_id_exists(
    merchant_account: &MerchantIdAccount,
    merchant_key: &Address,
    program_id: &Address,
    id_chunk_address: &Address,
    id_chunk: &IdChunk,
    id: u64,
) -> (r: Result<bool, ErrorCode>)
    ensures
        ({
            let base = merchant_account.merchant_id * IDS_PER_MERCHANT;
            let idx = ((id - base) / (DEFAULT_CHUNK_SIZE as int)) as u32;
            if id < base {
                r == Ok::<bool, ErrorCode>(false)
            } else if !(exists|bump: u8|
                program_address(chunk_address_seeds(merchant_key@, idx), program_id@) == Some(
                    (id_chunk_address@, bump),
                )) {
                r == Err::<bool, ErrorCode>(ErrorCode::InvalidPda)
            } else if id < id_chunk.start_id || id > id_chunk.end_id {
                r == Ok::<bool, ErrorCode>(false)
            } else {
                let o = id - id_chunk.start_id;
                r == Ok::<bool, ErrorCode>(o / 8 < id_chunk.bitmap@.len() && id_chunk.is_used(o))
            }
        }),
{
    let base = (merchant_account.merchant_id as u64) * IDS_PER_MERCHANT;
    if id < base {
        return Ok(false);
    }
    let chunk_index = (id - base) / (DEFAULT_CHUNK_SIZE as u64);
    let seeds = chunk_seeds_for(merchant_key, chunk_index as u32);
    match crate::address::verify_pda(id_chunk_address, &seeds, program_id) {
        Ok(_) => {},
        Err(e) => {
            return Err(e);
        },
    }
    if id < id_chunk.start_id || id > id_chunk.end_id {
        return Ok(false);
    }
    Ok(id_chunk.is_id_used(id - id_chunk.start_id))
}

/// Whether the chunk is over 80% used, by its cursor; a hint to mint the
/// next chunk ahead of time, never acted on here.
pub fn should_preallocate_chunk(chunk: &IdChunk) -> (r: bool)
    requires
        chunk.wf(),
    ensures
        r == (chunk.next_available * 5 > chunk.capacity_spec() * 4),
{
    chunk.next_available * 5 > chunk.capacity() * 4
}

/// Checks that the chunk may be torn down: it has no identifier in use, or
/// `force` is set. Fails with `IdChunkNotEmpty` otherwise.
pub fn close_id_chunk(id_chunk: &IdChunk, force: bool) -> (r: Result<(), ErrorCode>)
    requires
        id_chunk.wf(),
    ensures
        match r {
            Ok(()) => force || forall|i: int| 0 <= i < id_chunk.capacity_spec() ==> !#[trigger] id_chunk.is_used(i),
            Err(e) => e == ErrorCode::IdChunkNotEmpty && !force && exists|i: int|
                0 <= i < id_chunk.capacity_spec() && #[trigger] id_chunk.is_used(i),
        },
{
    if force {
        return Ok(());
    }
    let capacity = id_chunk.capacity();
    let mut i: u64 = 0;
    while i < capacity
        invariant
            !force,
            id_chunk.wf(),
            capacity == id_chunk.capacity_spec(),
            i <= capacity,
            forall|j: int| 0 <= j < i ==> !#[trigger] id_chunk.is_used(j),
        decreases capacity - i,
    {
        if id_chunk.is_id_used(i) {
            assert(id_chunk.is_used(i as int));
            return Err(ErrorCode::IdChunkNotEmpty);
        }
        i = i + 1;
    }
    Ok(())
}

/// Checks that the owner's cursor record may be torn down: it holds no
/// reclaimable chunk, or `force` is set. Fails with
/// `MerchantIdAccountNotEmpty` otherwise.
pub fn close_merchant_id_account(merchant_id_account: &MerchantIdAccount, force: bool) -> (r: Result<
    (),
    ErrorCode,
>)
    ensures
        r is Ok <==> (force || merchant_id_account.unused_chunks@.len() == 0),
        r matches Err(e) ==> e == ErrorCode::MerchantIdAccountNotEmpty,
{
    if !force && merchant_id_account.unused_chunks.len() > 0 {
        return Err(ErrorCode::MerchantIdAccountNotEmpty);
    }
    Ok(())
}

} // verus!
