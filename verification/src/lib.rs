//! Incremental CRC32 and CRC32C checksums over streamed byte buffers.
//!
//! The primitive engine computes the standard reflected CRC32 (polynomial
//! 0xEDB88320, Ethernet/gzip) and CRC32C (Castagnoli polynomial 0x82F63B78,
//! iSCSI) as running checksums: each call continues from a previous value,
//! so feeding a buffer in chunks gives the same result as feeding it whole.
//! `Crc32` and `Crc32C` wrap a single 32-bit running value around the
//! engine; `variant` picks one implementation path per target and lets any
//! path be forced explicitly.

use vstd::prelude::*;

pub mod algo;
pub mod engine;
pub mod variant;

verus! {

use crate::algo::{crc32_spec, crc32c_spec};

/// A running CRC32C (Castagnoli, iSCSI) checksum.
#[derive(Clone, Copy)]
pub struct Crc32C {
    /// The running checksum value; continuing from it folds further bytes
    /// onto everything seen so far.
    pub running_checksum: u32,
}

/// A running CRC32 (Ethernet, gzip) checksum.
#[derive(Clone, Copy)]
pub struct Crc32 {
    /// The running checksum value; continuing from it folds further bytes
    /// onto everything seen so far.
    pub running_checksum: u32,
}

/// Trait for computing running checksums.
pub trait Checksum {
    type Output;

    /// The running checksum value currently held.
    spec fn current(&self) -> Self::Output;

    /// The value the running checksum takes when `input` is folded in.
    spec fn folded(&self, input: Seq<u8>) -> Self::Output;

    /// Folds `input` into the running checksum, as if its bytes had been
    /// appended to everything seen so far. Order matters; an empty chunk
    /// changes nothing.
    fn update(&mut self, input: &Vec<u8>)
        ensures
            final(self).current() == old(self).folded(input@),
    ;

    /// Returns the current value of the running checksum without changing
    /// it; reading any number of times gives the same value.
    fn checksum(&self) -> (r: Self::Output)
        ensures
            r == self.current(),
    ;
}

impl Checksum for Crc32C {
    type Output = u32;

    open spec fn current(&self) -> u32 {
        self.running_checksum
    }

    open spec fn folded(&self, input: Seq<u8>) -> u32 {
        crc32c_spec(input, self.running_checksum)
    }

    fn update(&mut self, input: &Vec<u8>) {
        self.running_checksum = engine::crc32c(input.as_slice(), self.running_checksum);
    }

    fn checksum(&self) -> u32 {
        self.running_checksum
    }
}

impl Checksum for Crc32 {
    type Output = u32;

    open spec fn current(&self) -> u32 {
        self.running_checksum
    }

    open spec fn folded(&self, input: Seq<u8>) -> u32 {
        crc32_spec(input, self.running_checksum)
    }

    fn update(&mut self, input: &Vec<u8>) {
        self.running_checksum = engine::crc32(input.as_slice(), self.running_checksum);
    }

    fn checksum(&self) -> u32 {
        self.running_checksum
    }
}

/// Two successive updates on a fresh accumulator end in the same checksum
/// as a single update with the concatenation: `update(a)` then `update(b)`
/// from the zero seed equals `update(a + b)`, for either algorithm.
pub proof fn lemma_fresh_updates_concat(a: Seq<u8>, b: Seq<u8>)
    ensures
        crc32_spec(b, crc32_spec(a, 0u32)) == crc32_spec(a + b, 0u32),
        crc32c_spec(b, crc32c_spec(a, 0u32)) == crc32c_spec(a + b, 0u32),
{
    algo::lemma_crc32_concat(a, b, 0u32);
    algo::lemma_crc32c_concat(a, b, 0u32);
}

impl Crc32C {
    /// Creates a new instance of the castagnoli CRC32c (iSCSI) checksum
    /// algorithm, seeded with zero.
    pub fn new() -> (r: Crc32C)
        ensures
            r.current() == 0u32,
    {
        Crc32C { running_checksum: 0 }
    }
}

impl Crc32 {
    /// Creates a new instance of the CRC32 (Ethernet, gzip) algorithm,
    /// seeded with zero.
    pub fn new() -> (r: Crc32)
        ensures
            r.current() == 0u32,
    {
        Crc32 { running_checksum: 0 }
    }
}

} // verus!
