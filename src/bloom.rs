//! Bloom filters over fixed-size byte arrays.
//!
//! A value is added by setting `k` bits, the `s`-th of which is
//! `multi_hash(value, s) mod (8 * bytes)`. Bits are never cleared by an
//! insertion, so a filter has no false negatives; it has no deletion.
use vstd::prelude::*;
use crate::bits::{bit_at, lemma_byte_mask, lemma_byte_or, lemma_with_bit, with_bit};
use crate::hash::{multi_hash, multi_hash_spec};

verus! {

/// Bytes in a full-size filter.
pub const BLOOM_FILTER_SIZE: usize = 256;

/// Probes per value in a full-size filter.
pub const BLOOM_HASH_COUNT: u8 = 3;

/// Bit index of the `seed`-th probe of `value` in a filter of `nbytes` bytes.
pub open spec fn probe_index(value: u64, seed: u8, nbytes: nat) -> int {
    (multi_hash_spec(value, seed) as int) % ((nbytes * 8) as int)
}

/// Whether all `k` probes of `value` are set in `bytes`.
pub open spec fn probes_set(bytes: Seq<u8>, value: u64, k: u8) -> bool {
    forall|s: u8| s < k ==> #[trigger] bit_at(bytes, probe_index(value, s, bytes.len()))
}

/// The result of setting the first `k` probes of `value`, in order.
pub open spec fn add_probes_spec(bytes: Seq<u8>, value: u64, k: u8) -> Seq<u8>
    decreases k,
{
    if k == 0 {
        bytes
    } else {
        let prev = add_probes_spec(bytes, value, (k - 1) as u8);
        with_bit(prev, probe_index(value, (k - 1) as u8, bytes.len()))
    }
}

/// Setting probes sets exactly the probe bits and keeps every other bit.
pub proof fn lemma_add_probes(bytes: Seq<u8>, value: u64, k: u8)
    requires
        bytes.len() > 0,
    ensures
        add_probes_spec(bytes, value, k).len() == bytes.len(),
        forall|j: int|
            0 <= j < bytes.len() * 8 ==> #[trigger] bit_at(add_probes_spec(bytes, value, k), j)
                == (bit_at(bytes, j) || exists|s: u8|
                s < k && j == probe_index(value, s, bytes.len())),
    decreases k,
{
    if k > 0 {
        let km = (k - 1) as u8;
        lemma_add_probes(bytes, value, km);
        let prev = add_probes_spec(bytes, value, km);
        let p = probe_index(value, km, bytes.len());
        lemma_with_bit(prev, p);
        assert forall|j: int| 0 <= j < bytes.len() * 8 implies #[trigger] bit_at(
            add_probes_spec(bytes, value, k),
            j,
        ) == (bit_at(bytes, j) || exists|s: u8|
            s < k && j == probe_index(value, s, bytes.len())) by {
            if j == p {
                assert(km < k && j == probe_index(value, km, bytes.len()));
            } else if exists|s: u8| s < k && j == probe_index(value, s, bytes.len()) {
                let s = choose|s: u8| s < k && j == probe_index(value, s, bytes.len());
                assert(s < km);
            }
        }
    }
}

/// Sets the `k` probe bits of `value` in `filter`.
pub fn add_probes<const N: usize>(filter: &mut [u8; N], value: u64, k: u8)
    requires
        0 < N < 0x1000_0000,
    ensures
        final(filter)@ == add_probes_spec(old(filter)@, value, k),
{
    let nbits: u64 = (N as u64) * 8;
    let mut i: u8 = 0;
    while i < k
        invariant
            0 < N < 0x1000_0000,
            nbits == N * 8,
            i <= k,
            filter@.len() == N,
            filter@ == add_probes_spec(old(filter)@, value, i),
        decreases k - i,
    {
        proof {
            lemma_add_probes(old(filter)@, value, i);
        }
        let hash = multi_hash(value, i);
        let bit_index = (hash % nbits) as usize;
        let byte_index = bit_index / 8;
        let bit_offset = (bit_index % 8) as u8;
        filter[byte_index] = filter[byte_index] | (1u8 << bit_offset);
        i = i + 1;
        proof {
            assert(filter@ =~= add_probes_spec(old(filter)@, value, i));
        }
    }
}

/// Whether all `k` probe bits of `value` are set in `filter`.
pub fn probes_present<const N: usize>(filter: &[u8; N], value: u64, k: u8) -> (r: bool)
    requires
        0 < N < 0x1000_0000,
    ensures
        r == probes_set(filter@, value, k),
{
    let nbits: u64 = (N as u64) * 8;
    let mut i: u8 = 0;
    while i < k
        invariant
            0 < N < 0x1000_0000,
            nbits == N * 8,
            i <= k,
            filter@.len() == N,
            forall|s: u8| s < i ==> #[trigger] bit_at(filter@, probe_index(value, s, N as nat)),
        decreases k - i,
    {
        let hash = multi_hash(value, i);
        let bit_index = (hash % nbits) as usize;
        let byte_index = bit_index / 8;
        let bit_offset = (bit_index % 8) as u8;
        proof {
            lemma_byte_mask(filter@[byte_index as int], bit_offset);
        }
        if (filter[byte_index] & (1u8 << bit_offset)) == 0 {
            assert(!bit_at(filter@, probe_index(value, i, N as nat)));
            return false;
        }
        i = i + 1;
    }
    true
}

/// Adding a value makes its probes present and keeps every probe that was
/// present before: a filter never forgets a value.
pub proof fn lemma_add_keeps_members(bytes: Seq<u8>, added: u64, other: u64, k: u8)
    requires
        bytes.len() > 0,
    ensures
        probes_set(add_probes_spec(bytes, added, k), added, k),
        probes_set(bytes, other, k) ==> probes_set(add_probes_spec(bytes, added, k), other, k),
{
    lemma_add_probes(bytes, added, k);
    let nb = add_probes_spec(bytes, added, k);
    let nbits = bytes.len() * 8;
    assert forall|s: u8| s < k implies #[trigger] bit_at(nb, probe_index(added, s, nb.len())) by {
        let p = probe_index(added, s, bytes.len());
        assert(0 <= p < nbits);
        assert(bit_at(nb, p));
    }
    if probes_set(bytes, other, k) {
        assert forall|s: u8| s < k implies #[trigger] bit_at(
            nb,
            probe_index(other, s, nb.len()),
        ) by {
            let p = probe_index(other, s, bytes.len());
            assert(bit_at(bytes, probe_index(other, s, bytes.len())));
            assert(0 <= p < nbits);
        }
    }
}

/// The filter after adding each of `values` in turn.
pub open spec fn add_all_spec(bytes: Seq<u8>, values: Seq<u64>, k: u8) -> Seq<u8>
    decreases values.len(),
{
    if values.len() == 0 {
        bytes
    } else {
        add_probes_spec(add_all_spec(bytes, values.drop_last(), k), values.last(), k)
    }
}

/// No false negatives: after any values are added in turn, every one of
/// them is reported as possibly present, and so is anything reported
/// before.
pub proof fn lemma_no_false_negatives(bytes: Seq<u8>, values: Seq<u64>, k: u8)
    requires
        bytes.len() > 0,
    ensures
        add_all_spec(bytes, values, k).len() == bytes.len(),
        forall|i: int| 0 <= i < values.len() ==> probes_set(add_all_spec(bytes, values, k), #[trigger] values[i], k),
        forall|v: u64| probes_set(bytes, v, k) ==> probes_set(add_all_spec(bytes, values, k), v, k),
    decreases values.len(),
{
    if values.len() > 0 {
        let prefix = values.drop_last();
        lemma_no_false_negatives(bytes, prefix, k);
        let before = add_all_spec(bytes, prefix, k);
        lemma_add_probes(before, values.last(), k);
        assert forall|i: int| 0 <= i < values.len() implies probes_set(
            add_all_spec(bytes, values, k),
            #[trigger] values[i],
            k,
        ) by {
            lemma_add_keeps_members(before, values.last(), values[i], k);
            if i < values.len() - 1 {
                assert(prefix[i] == values[i]);
            }
        }
        assert forall|v: u64| probes_set(bytes, v, k) implies probes_set(
            add_all_spec(bytes, values, k),
            v,
            k,
        ) by {
            lemma_add_keeps_members(before, values.last(), v, k);
        }
    }
}

/// The little-endian 64-bit word `w` of a filter.
pub open spec fn le_word(bytes: Seq<u8>, w: int) -> u64 {
    (bytes[8 * w] as u64) | ((bytes[8 * w + 1] as u64) << 8u64) | ((bytes[8 * w + 2] as u64) << 16u64)
        | ((bytes[8 * w + 3] as u64) << 24u64) | ((bytes[8 * w + 4] as u64) << 32u64) | ((bytes[8
        * w + 5] as u64) << 40u64) | ((bytes[8 * w + 6] as u64) << 48u64) | ((bytes[8 * w + 7] as u64)
        << 56u64)
}

/// Exclusive or of the first `n` little-endian 64-bit words.
pub open spec fn xor_words(bytes: Seq<u8>, n: int) -> u64
    decreases n,
{
    if n <= 0 {
        0
    } else {
        xor_words(bytes, n - 1) ^ le_word(bytes, n - 1)
    }
}

/// Number of set bits among the first `n` bits.
pub open spec fn set_bits(bytes: Seq<u8>, n: int) -> nat
    decreases n,
{
    if n <= 0 {
        0
    } else {
        set_bits(bytes, n - 1) + if bit_at(bytes, n - 1) {
            1nat
        } else {
            0nat
        }
    }
}

/// A digest of the filter: the exclusive or of its little-endian 64-bit
/// words.
pub fn filter_checksum(filter: &[u8; BLOOM_FILTER_SIZE]) -> (r: u64)
    ensures
        r == xor_words(filter@, (BLOOM_FILTER_SIZE / 8) as int),
{
    let mut checksum: u64 = 0;
    let mut w: usize = 0;
    while w < BLOOM_FILTER_SIZE / 8
        invariant
            w <= BLOOM_FILTER_SIZE / 8,
            filter@.len() == BLOOM_FILTER_SIZE,
            checksum == xor_words(filter@, w as int),
        decreases BLOOM_FILTER_SIZE / 8 - w,
    {
        let i = 8 * w;
        let word = (filter[i] as u64) | ((filter[i + 1] as u64) << 8u64) | ((filter[i + 2] as u64)
            << 16u64) | ((filter[i + 3] as u64) << 24u64) | ((filter[i + 4] as u64) << 32u64) | ((
        filter[i + 5] as u64) << 40u64) | ((filter[i + 6] as u64) << 48u64) | ((filter[i + 7] as u64)
            << 56u64);
        checksum = checksum ^ word;
        w = w + 1;
    }
    checksum
}

/// Number of bits set in the filter.
pub fn set_bit_count(filter: &[u8; BLOOM_FILTER_SIZE]) -> (r: u32)
    ensures
        r == set_bits(filter@, (BLOOM_FILTER_SIZE * 8) as int),
{
    let mut count: u32 = 0;
    let mut i: usize = 0;
    while i < BLOOM_FILTER_SIZE * 8
        invariant
            i <= BLOOM_FILTER_SIZE * 8,
            filter@.len() == BLOOM_FILTER_SIZE,
            count == set_bits(filter@, i as int),
            count <= i,
        decreases BLOOM_FILTER_SIZE * 8 - i,
    {
        let byte = filter[i / 8];
        let bit = (i % 8) as u8;
        proof {
            lemma_byte_mask(byte, bit);
        }
        if byte & (1u8 << bit) != 0 {
            count = count + 1;
        }
        i = i + 1;
    }
    count
}

/// Operations on full-size Bloom filters.
pub struct BloomFilter;

impl BloomFilter {
    /// Adds `value` to the filter.
    pub fn add(filter: &mut [u8; BLOOM_FILTER_SIZE], value: u64)
        ensures
            final(filter)@ == add_probes_spec(old(filter)@, value, BLOOM_HASH_COUNT),
            probes_set(final(filter)@, value, BLOOM_HASH_COUNT),
            forall|v: u64|
                probes_set(old(filter)@, v, BLOOM_HASH_COUNT) ==> probes_set(
                    final(filter)@,
                    v,
                    BLOOM_HASH_COUNT,
                ),
    {
        proof {
            assert forall|v: u64| probes_set(old(filter)@, v, BLOOM_HASH_COUNT) implies probes_set(
                add_probes_spec(old(filter)@, value, BLOOM_HASH_COUNT),
                v,
                BLOOM_HASH_COUNT,
            ) by {
                lemma_add_keeps_members(old(filter)@, value, v, BLOOM_HASH_COUNT);
            }
            lemma_add_keeps_members(old(filter)@, value, value, BLOOM_HASH_COUNT);
        }
        add_probes(filter, value, BLOOM_HASH_COUNT);
    }

    /// False when `value` was certainly never added; true when it may have been.
    pub fn might_contain(filter: &[u8; BLOOM_FILTER_SIZE], value: u64) -> (r: bool)
        ensures
            r == probes_set(filter@, value, BLOOM_HASH_COUNT),
    {
        probes_present(filter, value, BLOOM_HASH_COUNT)
    }

    /// Ors `src` into `dest`: every bit set in either is set afterwards.
    pub fn merge(dest: &mut [u8; BLOOM_FILTER_SIZE], src: &[u8; BLOOM_FILTER_SIZE])
        ensures
            final(dest)@.len() == BLOOM_FILTER_SIZE,
            forall|j: int|
                0 <= j < BLOOM_FILTER_SIZE * 8 ==> #[trigger] bit_at(final(dest)@, j) == (bit_at(
                    old(dest)@,
                    j,
                ) || bit_at(src@, j)),
            forall|v: u64|
                probes_set(old(dest)@, v, BLOOM_HASH_COUNT) || probes_set(src@, v, BLOOM_HASH_COUNT)
                    ==> probes_set(final(dest)@, v, BLOOM_HASH_COUNT),
    {
        let mut i: usize = 0;
        while i < BLOOM_FILTER_SIZE
            invariant
                i <= BLOOM_FILTER_SIZE,
                dest@.len() == BLOOM_FILTER_SIZE,
                src@.len() == BLOOM_FILTER_SIZE,
                forall|j: int| 0 <= j < i ==> #[trigger] dest@[j] == old(dest)@[j] | src@[j],
                forall|j: int| i <= j < BLOOM_FILTER_SIZE ==> #[trigger] dest@[j] == old(dest)@[j],
            decreases BLOOM_FILTER_SIZE - i,
        {
            dest[i] = dest[i] | src[i];
            i = i + 1;
        }
        proof {
            assert forall|j: int| 0 <= j < BLOOM_FILTER_SIZE * 8 implies #[trigger] bit_at(
                dest@,
                j,
            ) == (bit_at(old(dest)@, j) || bit_at(src@, j)) by {
                lemma_byte_or(old(dest)@[j / 8], src@[j / 8], (j % 8) as u8);
            }
            assert forall|v: u64|
                probes_set(old(dest)@, v, BLOOM_HASH_COUNT) || probes_set(src@, v, BLOOM_HASH_COUNT)
                    implies probes_set(dest@, v, BLOOM_HASH_COUNT) by {
                assert forall|s: u8| s < BLOOM_HASH_COUNT implies #[trigger] bit_at(
                    dest@,
                    probe_index(v, s, dest@.len()),
                ) by {
                    let p = probe_index(v, s, BLOOM_FILTER_SIZE as nat);
                    assert(dest@.len() == BLOOM_FILTER_SIZE && old(dest)@.len() == BLOOM_FILTER_SIZE
                        && src@.len() == BLOOM_FILTER_SIZE);
                    assert(0 <= p < BLOOM_FILTER_SIZE * 8);
                    assert(bit_at(dest@, p) == (bit_at(old(dest)@, p) || bit_at(src@, p)));
                    if probes_set(old(dest)@, v, BLOOM_HASH_COUNT) {
                        assert(bit_at(old(dest)@, probe_index(v, s, old(dest)@.len())));
                    } else {
                        assert(bit_at(src@, probe_index(v, s, src@.len())));
                    }
                }
            }
        }
    }
}

} // verus!
