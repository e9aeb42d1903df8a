//! Mathematical model of the reflected CRC recurrence, shared by every
//! implementation path, together with the laws that hold of it.

use vstd::prelude::*;

verus! {

/// Generator polynomial of CRC32 (IEEE 802.3), in reflected form.
pub const CRC32_POLY: u32 = 0xEDB8_8320;

/// Generator polynomial of CRC32C (Castagnoli), in reflected form.
pub const CRC32C_POLY: u32 = 0x82F6_3B78;

/// One step of the reflected CRC bit recurrence: shift the state right and,
/// when a one bit was shifted out, fold the polynomial back in.
pub open spec fn bit_step(poly: u32, s: u32) -> u32 {
    if s & 1 == 1 {
        (s >> 1) ^ poly
    } else {
        s >> 1
    }
}

/// `n` steps of the bit recurrence.
pub open spec fn bit_steps(poly: u32, s: u32, n: nat) -> u32
    decreases n,
{
    if n == 0 {
        s
    } else {
        bit_steps(poly, bit_step(poly, s), (n - 1) as nat)
    }
}

/// Folding one byte into the running state: xor it into the low byte, then
/// run eight steps of the bit recurrence.
pub open spec fn byte_step(poly: u32, s: u32, b: u8) -> u32 {
    bit_steps(poly, s ^ (b as u32), 8)
}

/// Folding a whole byte sequence into the running state, first byte first.
pub open spec fn fold_bytes(poly: u32, s: u32, data: Seq<u8>) -> u32
    decreases data.len(),
{
    if data.len() == 0 {
        s
    } else {
        fold_bytes(poly, byte_step(poly, s, data[0]), data.skip(1))
    }
}

/// The CRC32 of `data`, continuing from the running value `prev`.
/// `prev == 0` starts a fresh checksum; the complement before and after the
/// fold is the standard CRC32 pre- and post-conditioning.
pub open spec fn crc32_spec(data: Seq<u8>, prev: u32) -> u32 {
    !fold_bytes(CRC32_POLY, !prev, data)
}

/// The CRC32C of `data`, continuing from the running value `prev`.
pub open spec fn crc32c_spec(data: Seq<u8>, prev: u32) -> u32 {
    !fold_bytes(CRC32C_POLY, !prev, data)
}

proof fn lemma_not_not(x: u32)
    ensures
        !(!x) == x,
{
    assert(!(!x) == x) by (bit_vector);
}

/// Folding a concatenation is folding the parts one after the other.
proof fn lemma_fold_bytes_append(poly: u32, s: u32, a: Seq<u8>, b: Seq<u8>)
    ensures
        fold_bytes(poly, s, a + b) == fold_bytes(poly, fold_bytes(poly, s, a), b),
    decreases a.len(),
{
    if a.len() == 0 {
        assert(a + b =~= b);
    } else {
        assert((a + b)[0] == a[0]);
        assert((a + b).skip(1) =~= a.skip(1) + b);
        lemma_fold_bytes_append(poly, byte_step(poly, s, a[0]), a.skip(1), b);
    }
}

/// Continuation law: checksumming `a + b` in one pass equals checksumming
/// `a` first and continuing with `b` from the running value.
pub proof fn lemma_crc32_concat(a: Seq<u8>, b: Seq<u8>, prev: u32)
    ensures
        crc32_spec(a + b, prev) == crc32_spec(b, crc32_spec(a, prev)),
{
    lemma_fold_bytes_append(CRC32_POLY, !prev, a, b);
    lemma_not_not(fold_bytes(CRC32_POLY, !prev, a));
}

/// Continuation law for CRC32C.
pub proof fn lemma_crc32c_concat(a: Seq<u8>, b: Seq<u8>, prev: u32)
    ensures
        crc32c_spec(a + b, prev) == crc32c_spec(b, crc32c_spec(a, prev)),
{
    lemma_fold_bytes_append(CRC32C_POLY, !prev, a, b);
    lemma_not_not(fold_bytes(CRC32C_POLY, !prev, a));
}

/// An empty chunk leaves the running CRC32 value unchanged.
pub proof fn lemma_crc32_empty(prev: u32)
    ensures
        crc32_spec(Seq::<u8>::empty(), prev) == prev,
{
    lemma_not_not(prev);
}

/// An empty chunk leaves the running CRC32C value unchanged.
pub proof fn lemma_crc32c_empty(prev: u32)
    ensures
        crc32c_spec(Seq::<u8>::empty(), prev) == prev,
{
    lemma_not_not(prev);
}

} // verus!
