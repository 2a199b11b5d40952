//! The integer hash behind the synthesiser's white noise.
//!
//! Each sample of noise is a 32-bit avalanche hash of its frame index and a
//! per-instrument seed; scaling the hash to a sample in `[-1, 1]` is left to
//! the floating-point synthesis around it.
use vstd::prelude::*;

verus! {

/// `a + b` modulo 2^32.
pub open spec fn add32(a: u32, b: u32) -> u32 {
    if a + b > u32::MAX {
        (a + b - 0x1_0000_0000) as u32
    } else {
        (a + b) as u32
    }
}

/// `a * b` modulo 2^32.
pub open spec fn mul32(a: u32, b: u32) -> u32 {
    ((a as nat * b as nat) % 0x1_0000_0000nat) as u32
}

/// `v` with its bits shifted right by `k` folded back in.
pub open spec fn fold_high(v: u32, k: u32) -> u32 {
    v ^ (v >> k)
}

/// The noise hash of a frame index under a seed.
pub open spec fn noise_hash(index: u32, seed: u32) -> u32 {
    let v0 = add32(index, mul32(seed, 0x9e37_79b9));
    let v1 = mul32(fold_high(v0, 16), 0x7feb_352d);
    let v2 = mul32(fold_high(v1, 15), 0x846c_a68b);
    fold_high(v2, 16)
}

/// Computes the noise hash of a frame index under a seed.
pub fn noise_bits(index: u32, seed: u32) -> (bits: u32)
    ensures
        bits == noise_hash(index, seed),
{
    let mut value = index.wrapping_add(seed.wrapping_mul(0x9e37_79b9));
    value ^= value >> 16;
    value = value.wrapping_mul(0x7feb_352d);
    value ^= value >> 15;
    value = value.wrapping_mul(0x846c_a68b);
    value ^= value >> 16;
    value
}

} // verus!
