//! Bit-level view of byte sequences, shared by the allocation bitmap and
//! the Bloom filters. Bit `i` lives in byte `i / 8` at position `i % 8`.
use vstd::prelude::*;

verus! {

/// Whether bit `k` (0 = least significant) of `b` is set.
pub open spec fn byte_bit(b: u8, k: int) -> bool {
    (b >> (k as u8)) & 1u8 == 1u8
}

/// Whether bit `i` of the byte sequence is set.
pub open spec fn bit_at(bytes: Seq<u8>, i: int) -> bool {
    byte_bit(bytes[i / 8], i % 8)
}

/// The byte sequence with bit `i` set.
pub open spec fn with_bit(bytes: Seq<u8>, i: int) -> Seq<u8> {
    bytes.update(i / 8, bytes[i / 8] | (1u8 << ((i % 8) as u8)))
}

/// The byte sequence with bit `i` cleared.
pub open spec fn without_bit(bytes: Seq<u8>, i: int) -> Seq<u8> {
    bytes.update(i / 8, bytes[i / 8] & !(1u8 << ((i % 8) as u8)))
}

proof fn lemma_byte_set(b: u8, k: u8, j: u8)
    requires
        k < 8,
        j < 8,
    ensures
        ((b | (1u8 << k)) >> j) & 1u8 == 1u8 <==> (j == k || (b >> j) & 1u8 == 1u8),
{
    assert(((b | (1u8 << k)) >> j) & 1u8 == 1u8 <==> (j == k || (b >> j) & 1u8 == 1u8))
        by (bit_vector)
        requires
            k < 8,
            j < 8,
    ;
}

proof fn lemma_byte_clear(b: u8, k: u8, j: u8)
    requires
        k < 8,
        j < 8,
    ensures
        ((b & !(1u8 << k)) >> j) & 1u8 == 1u8 <==> (j != k && (b >> j) & 1u8 == 1u8),
{
    assert(((b & !(1u8 << k)) >> j) & 1u8 == 1u8 <==> (j != k && (b >> j) & 1u8 == 1u8))
        by (bit_vector)
        requires
            k < 8,
            j < 8,
    ;
}

/// Testing a bit with a mask agrees with `byte_bit`.
pub proof fn lemma_byte_mask(b: u8, k: u8)
    requires
        k < 8,
    ensures
        (b & (1u8 << k) != 0) == byte_bit(b, k as int),
{
    assert((b & (1u8 << k) != 0) == ((b >> k) & 1u8 == 1u8)) by (bit_vector)
        requires
            k < 8,
    ;
}

/// A bit of the union of two bytes is set when it is set in either.
pub proof fn lemma_byte_or(a: u8, b: u8, k: u8)
    requires
        k < 8,
    ensures
        byte_bit(a | b, k as int) == (byte_bit(a, k as int) || byte_bit(b, k as int)),
{
    assert((((a | b) >> k) & 1u8 == 1u8) == ((a >> k) & 1u8 == 1u8 || (b >> k) & 1u8 == 1u8))
        by (bit_vector)
        requires
            k < 8,
    ;
}

/// No bit of a zero byte is set.
pub proof fn lemma_byte_zero(k: u8)
    requires
        k < 8,
    ensures
        !byte_bit(0u8, k as int),
{
    assert((0u8 >> k) & 1u8 != 1u8) by (bit_vector);
}

/// Setting bit `i` sets it and leaves every other bit as it was.
pub proof fn lemma_with_bit(bytes: Seq<u8>, i: int)
    requires
        0 <= i < bytes.len() * 8,
    ensures
        with_bit(bytes, i).len() == bytes.len(),
        forall|j: int|
            0 <= j < bytes.len() * 8 ==> #[trigger] bit_at(with_bit(bytes, i), j) == (j == i
                || bit_at(bytes, j)),
{
    let nb = with_bit(bytes, i);
    assert forall|j: int| 0 <= j < bytes.len() * 8 implies #[trigger] bit_at(nb, j) == (j == i
        || bit_at(bytes, j)) by {
        if j / 8 == i / 8 {
            lemma_byte_set(bytes[i / 8], (i % 8) as u8, (j % 8) as u8);
        }
    }
}

/// Clearing bit `i` clears it and leaves every other bit as it was.
pub proof fn lemma_without_bit(bytes: Seq<u8>, i: int)
    requires
        0 <= i < bytes.len() * 8,
    ensures
        without_bit(bytes, i).len() == bytes.len(),
        forall|j: int|
            0 <= j < bytes.len() * 8 ==> #[trigger] bit_at(without_bit(bytes, i), j) == (j != i
                && bit_at(bytes, j)),
{
    let nb = without_bit(bytes, i);
    assert forall|j: int| 0 <= j < bytes.len() * 8 implies #[trigger] bit_at(nb, j) == (j != i
        && bit_at(bytes, j)) by {
        if j / 8 == i / 8 {
            lemma_byte_clear(bytes[i / 8], (i % 8) as u8, (j % 8) as u8);
        }
    }
}

} // verus!
