//! Algorithm-variant selection: which implementation path a build uses,
//! resolved once from target-capability flags and injected into the engine,
//! so that any variant can be forced explicitly and tested on any host.

use vstd::prelude::*;

use crate::algo::{crc32_spec, crc32c_spec};
use crate::engine::{crc32, crc32c_accelerated, crc32c_software};

verus! {

/// The implementation strategy a build runs with. Exactly one variant is
/// active for a compiled artifact; all of them except `Null` agree
/// bit-for-bit on every input.
#[derive(Clone, Copy, Debug, PartialEq, Eq, Structural)]
pub enum AlgorithmVariant {
    /// Portable table-driven path, available on every target.
    Software,
    /// SSE4.2 CRC32 instruction path on x86 and x86_64.
    HardwareSse42,
    /// ARMv8 CRC extension path on aarch64.
    HardwareArm64,
    /// ARM32 ACLE CRC intrinsic path, taken only when the probe succeeded.
    HardwareArm32,
    /// Degraded-but-safe fallback for a target with no implementation at
    /// all: it leaves the running checksum unchanged. Selection never picks
    /// it here, since the software path is always available.
    Null,
}

/// The target-capability flags that selection reads: the architecture and
/// the outcome of the ARM32 ACLE CRC intrinsic compile probe.
#[derive(Clone, Copy, Debug)]
pub struct TargetCaps {
    /// Target is x86 or x86_64.
    pub is_x86: bool,
    /// Target is aarch64.
    pub is_aarch64: bool,
    /// Target is 32-bit ARM.
    pub is_arm32: bool,
    /// The ACLE CRC intrinsic compiled when probed on a 32-bit ARM target.
    pub arm32_crc_probe_ok: bool,
}

/// The selection policy: prefer the accelerated path of the target's
/// architecture, fall through to the portable software path.
pub open spec fn selected_variant(caps: TargetCaps) -> AlgorithmVariant {
    if caps.is_x86 {
        AlgorithmVariant::HardwareSse42
    } else if caps.is_aarch64 {
        AlgorithmVariant::HardwareArm64
    } else if caps.is_arm32 && caps.arm32_crc_probe_ok {
        AlgorithmVariant::HardwareArm32
    } else {
        AlgorithmVariant::Software
    }
}

/// Resolves the variant for a target, once, ahead of any checksum call.
/// The software path is always available, so selection never degrades to
/// `Null`.
pub fn select_variant(caps: TargetCaps) -> (v: AlgorithmVariant)
    ensures
        v == selected_variant(caps),
        !(v is Null),
{
    if caps.is_x86 {
        AlgorithmVariant::HardwareSse42
    } else if caps.is_aarch64 {
        AlgorithmVariant::HardwareArm64
    } else if caps.is_arm32 && caps.arm32_crc_probe_ok {
        AlgorithmVariant::HardwareArm32
    } else {
        AlgorithmVariant::Software
    }
}

/// Computes the CRC32 of `data` under the given variant. Plain CRC32 has no
/// hardware instruction, so every variant but `Null` runs the software path;
/// they all return the same value on the same input.
pub fn crc32_with_variant(v: AlgorithmVariant, data: &[u8], previous_crc: u32) -> (r: u32)
    ensures
        !(v is Null) ==> r == crc32_spec(data@, previous_crc),
        v is Null ==> r == previous_crc,
{
    match v {
        AlgorithmVariant::Null => previous_crc,
        _ => crc32(data, previous_crc),
    }
}

/// Computes the CRC32C of `data` under the given variant. The hardware
/// variants take the word-at-a-time path, software the table path; all of
/// them but `Null` return the same value on the same input.
pub fn crc32c_with_variant(v: AlgorithmVariant, data: &[u8], previous_crc: u32) -> (r: u32)
    ensures
        !(v is Null) ==> r == crc32c_spec(data@, previous_crc),
        v is Null ==> r == previous_crc,
{
    match v {
        AlgorithmVariant::Software => crc32c_software(data, previous_crc),
        AlgorithmVariant::HardwareSse42 | AlgorithmVariant::HardwareArm64
            | AlgorithmVariant::HardwareArm32 => crc32c_accelerated(data, previous_crc),
        AlgorithmVariant::Null => previous_crc,
    }
}

} // verus!
