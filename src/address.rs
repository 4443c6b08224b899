//! Deterministic record addresses.
//!
//! Every record lives at an address derived from a few seed byte strings
//! and the program's own address, so whether a record exists is answered by
//! recomputing its address; no lookup table is kept.
use vstd::prelude::*;
use anchor_lang::prelude::Pubkey;
use crate::error::ErrorCode;

verus! {

/// A 32-byte record address.
pub type Address = [u8; 32];

/// Seeds a derivation may take besides the bump byte it appends itself.
pub const MAX_SEEDS: usize = 15;

/// Longest seed a derivation accepts, in bytes.
pub const MAX_SEED_LEN: usize = 32;

/// The program-derived address and bump byte for `seeds` under `program_id`,
/// or `None` when no bump byte gives an address off the curve.
pub uninterp spec fn program_address(seeds: Seq<Seq<u8>>, program_id: Seq<u8>) -> Option<(Seq<u8>, u8)>;

/// The byte contents of each seed.
pub open spec fn seeds_view(seeds: Seq<Vec<u8>>) -> Seq<Seq<u8>> {
    seeds.map_values(|s: Vec<u8>| s@)
}

/// Whether a derivation accepts this many seeds of these lengths.
pub open spec fn seeds_within_limits(seeds: Seq<Seq<u8>>) -> bool {
    seeds.len() <= MAX_SEEDS && forall|i: int| 0 <= i < seeds.len() ==> #[trigger] seeds[i].len()
        <= MAX_SEED_LEN
}

/// Relies on `Pubkey::try_find_program_address`: its result depends on the
/// seeds and the program id alone, and it gives `None` when the seeds and
/// the bump byte exceed 16 seeds or a seed exceeds 32 bytes.
#[verifier::external_body]
fn try_find_program_address(seeds: &Vec<Vec<u8>>, program_id: &Address) -> (r: Option<(Address, u8)>)
    ensures
        match r {
            Some((a, bump)) => program_address(seeds_view(seeds@), program_id@) == Some((a@, bump)),
            None => program_address(seeds_view(seeds@), program_id@) is None,
        },
        !seeds_within_limits(seeds_view(seeds@)) ==> r is None,
{
    let slices: Vec<&[u8]> = seeds.iter().map(|s| s.as_slice()).collect();
    let found = Pubkey::try_find_program_address(&slices, &Pubkey::new_from_array(*program_id));
    found.map(|(key, bump)| (key.to_bytes(), bump))
}

/// Derives the address of the record with these seeds.
pub fn derive_address(seeds: &Vec<Vec<u8>>, program_id: &Address) -> (r: Result<
    (Address, u8),
    ErrorCode,
>)
    ensures
        match r {
            Ok((a, bump)) => program_address(seeds_view(seeds@), program_id@) == Some((a@, bump)),
            Err(e) => e == ErrorCode::InvalidAccountSeeds && program_address(
                seeds_view(seeds@),
                program_id@,
            ) is None,
        },
        !seeds_within_limits(seeds_view(seeds@)) ==> r is Err,
{
    match try_find_program_address(seeds, program_id) {
        Some(found) => Ok(found),
        None => Err(ErrorCode::InvalidAccountSeeds),
    }
}

/// Whether two addresses are the same.
pub fn same_address(a: &Address, b: &Address) -> (r: bool)
    ensures
        r == (a@ == b@),
{
    let mut i: usize = 0;
    while i < 32
        invariant
            i <= 32,
            a@.len() == 32,
            b@.len() == 32,
            forall|j: int| 0 <= j < i ==> a@[j] == b@[j],
        decreases 32 - i,
    {
        if a[i] != b[i] {
            return false;
        }
        i = i + 1;
    }
    assert(a@ =~= b@);
    true
}

/// Checks that `expected` is the address derived from `seeds`, and gives
/// its bump byte.
pub fn verify_pda(expected: &Address, seeds: &Vec<Vec<u8>>, program_id: &Address) -> (r: Result<
    u8,
    ErrorCode,
>)
    ensures
        match r {
            Ok(bump) => program_address(seeds_view(seeds@), program_id@) == Some((expected@, bump)),
            Err(e) => e == ErrorCode::InvalidPda && !(exists|bump: u8|
                program_address(seeds_view(seeds@), program_id@) == Some((expected@, bump))),
        },
{
    match try_find_program_address(seeds, program_id) {
        Some((derived, bump)) => {
            if same_address(expected, &derived) {
                Ok(bump)
            } else {
                Err(ErrorCode::InvalidPda)
            }
        },
        None => Err(ErrorCode::InvalidPda),
    }
}

/// The bytes of an address, as a seed.
pub fn address_seed(a: &Address) -> (r: Vec<u8>)
    ensures
        r@ == a@,
{
    let mut r: Vec<u8> = Vec::new();
    let mut i: usize = 0;
    while i < 32
        invariant
            i <= 32,
            a@.len() == 32,
            r@ == a@.subrange(0, i as int),
        decreases 32 - i,
    {
        r.push(a[i]);
        i = i + 1;
    }
    assert(r@ =~= a@);
    r
}

/// Little-endian bytes of a 32-bit value.
pub open spec fn u32_le(x: u32) -> Seq<u8> {
    seq![x as u8, (x >> 8u32) as u8, (x >> 16u32) as u8, (x >> 24u32) as u8]
}

/// Little-endian bytes of a 64-bit value.
pub open spec fn u64_le(x: u64) -> Seq<u8> {
    seq![
        x as u8,
        (x >> 8u64) as u8,
        (x >> 16u64) as u8,
        (x >> 24u64) as u8,
        (x >> 32u64) as u8,
        (x >> 40u64) as u8,
        (x >> 48u64) as u8,
        (x >> 56u64) as u8,
    ]
}

/// The little-endian bytes of `x`, as a seed.
pub fn u32_seed(x: u32) -> (r: Vec<u8>)
    ensures
        r@ == u32_le(x),
{
    let r = vec![x as u8, (x >> 8u32) as u8, (x >> 16u32) as u8, (x >> 24u32) as u8];
    assert(r@ =~= u32_le(x));
    r
}

/// The little-endian bytes of `x`, as a seed.
pub fn u64_seed(x: u64) -> (r: Vec<u8>)
    ensures
        r@ == u64_le(x),
{
    let r = vec![
        x as u8,
        (x >> 8u64) as u8,
        (x >> 16u64) as u8,
        (x >> 24u64) as u8,
        (x >> 32u64) as u8,
        (x >> 40u64) as u8,
        (x >> 48u64) as u8,
        (x >> 56u64) as u8,
    ];
    assert(r@ =~= u64_le(x));
    r
}

} // verus!
