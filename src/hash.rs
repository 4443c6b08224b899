//! Integer and string hash functions used by the Bloom filters.
use vstd::prelude::*;
use vstd::string::StringSliceAdditionalSpecFns;

verus! {

/// Offset basis of the 64-bit FNV-1a hash.
pub const FNV_OFFSET_BASIS: u64 = 0xcbf29ce484222325;

/// Prime of the 64-bit FNV-1a hash.
pub const FNV_PRIME: u64 = 0x100000001b3;

/// 64-bit FNV-1a over a byte sequence.
pub open spec fn fnv1a_spec(bytes: Seq<u8>) -> u64
    decreases bytes.len(),
{
    if bytes.len() == 0 {
        FNV_OFFSET_BASIS
    } else {
        let h = fnv1a_spec(bytes.drop_last());
        (h ^ (bytes.last() as u64)).wrapping_mul(FNV_PRIME)
    }
}

/// Polynomial string hash with base 31, all arithmetic modulo 2^64.
pub open spec fn poly31_spec(bytes: Seq<u8>) -> u64
    decreases bytes.len(),
{
    if bytes.len() == 0 {
        0
    } else {
        poly31_spec(bytes.drop_last()).wrapping_mul(31).wrapping_add(bytes.last() as u64)
    }
}

/// The seeded 64-bit mixer that gives the probes of a Bloom filter.
pub open spec fn multi_hash_spec(data: u64, seed: u8) -> u64 {
    let h0 = (data ^ (seed as u64)).wrapping_mul(0x9e3779b97f4a7c15);
    let h1 = (h0 ^ (h0 >> 30u64)).wrapping_mul(0xbf58476d1ce4e5b9);
    let h2 = (h1 ^ (h1 >> 27u64)).wrapping_mul(0x94d049bb133111eb);
    h2 ^ (h2 >> 31u64)
}

/// The finaliser of MurmurHash3 on a 64-bit value.
pub open spec fn hash_u64_spec(value: u64) -> u64 {
    let h0 = (value ^ (value >> 33u64)).wrapping_mul(0xff51afd7ed558ccd);
    let h1 = (h0 ^ (h0 >> 33u64)).wrapping_mul(0xc4ceb9fe1a85ec53);
    h1 ^ (h1 >> 33u64)
}

/// FNV-1a hash of the keyword's UTF-8 bytes.
pub fn hash_keyword(keyword: &str) -> (r: u64)
    ensures
        r == fnv1a_spec(keyword.spec_bytes()),
{
    let bytes = keyword.as_bytes();
    let mut hash: u64 = FNV_OFFSET_BASIS;
    let mut i: usize = 0;
    while i < bytes.len()
        invariant
            bytes@ == keyword.spec_bytes(),
            i <= bytes@.len(),
            hash == fnv1a_spec(bytes@.subrange(0, i as int)),
        decreases bytes@.len() - i,
    {
        proof {
            assert(bytes@.subrange(0, i + 1).drop_last() =~= bytes@.subrange(0, i as int));
        }
        hash = hash ^ (bytes[i] as u64);
        hash = hash.wrapping_mul(FNV_PRIME);
        i = i + 1;
    }
    proof {
        assert(bytes@.subrange(0, i as int) =~= bytes@);
    }
    hash
}

/// Mixes `data` with `seed` into a well-spread 64-bit value.
pub fn multi_hash(data: u64, seed: u8) -> (r: u64)
    ensures
        r == multi_hash_spec(data, seed),
{
    let mut hash = data;
    hash = hash ^ (seed as u64);
    hash = hash.wrapping_mul(0x9e3779b97f4a7c15);
    hash = hash ^ (hash >> 30u64);
    hash = hash.wrapping_mul(0xbf58476d1ce4e5b9);
    hash = hash ^ (hash >> 27u64);
    hash = hash.wrapping_mul(0x94d049bb133111eb);
    hash = hash ^ (hash >> 31u64);
    hash
}

/// Base-31 polynomial hash of the string's UTF-8 bytes.
pub fn hash_string(s: &str) -> (r: u64)
    ensures
        r == poly31_spec(s.spec_bytes()),
{
    let bytes = s.as_bytes();
    let mut hash: u64 = 0;
    let mut i: usize = 0;
    while i < bytes.len()
        invariant
            bytes@ == s.spec_bytes(),
            i <= bytes@.len(),
            hash == poly31_spec(bytes@.subrange(0, i as int)),
        decreases bytes@.len() - i,
    {
        proof {
            assert(bytes@.subrange(0, i + 1).drop_last() =~= bytes@.subrange(0, i as int));
        }
        hash = hash.wrapping_mul(31).wrapping_add(bytes[i] as u64);
        i = i + 1;
    }
    proof {
        assert(bytes@.subrange(0, i as int) =~= bytes@);
    }
    hash
}

/// Scrambles a 64-bit value with the MurmurHash3 finaliser.
pub fn hash_u64(value: u64) -> (r: u64)
    ensures
        r == hash_u64_spec(value),
{
    let mut hash = value;
    hash = hash ^ (hash >> 33u64);
    hash = hash.wrapping_mul(0xff51afd7ed558ccd);
    hash = hash ^ (hash >> 33u64);
    hash = hash.wrapping_mul(0xc4ceb9fe1a85ec53);
    hash = hash ^ (hash >> 33u64);
    hash
}

} // verus!
