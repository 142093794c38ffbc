//! The colour seed of a rectangle type: a 64-bit FNV-1a hash of its width
//! and height, so that every rectangle of the same dimensions is drawn in the
//! same colour.
use vstd::prelude::*;

verus! {

pub const FNV_OFFSET_BASIS: u64 = 14695981039346656037;

pub const FNV_PRIME: u64 = 1099511628211;

/// One FNV-1a step: mix in `v`, then multiply by the prime modulo 2^64.
pub open spec fn fnv_step(h: u64, v: u32) -> u64 {
    vstd::wrapping::u64_specs::wrapping_mul(h ^ (v as u64), FNV_PRIME)
}

/// The hash of the dimensions `x` and `y`, each taken as its 32-bit pattern.
pub open spec fn dimension_hash_view(x: i32, y: i32) -> u64 {
    fnv_step(fnv_step(FNV_OFFSET_BASIS, x as u32), y as u32)
}

/// The FNV-1a hash of a rectangle's width and height. The low 16 bits pick
/// its hue, the next 8 its saturation and the 8 after that its lightness.
pub fn dimension_hash(x: i32, y: i32) -> (h: u64)
    ensures
        h == dimension_hash_view(x, y),
{
    let mut h: u64 = FNV_OFFSET_BASIS;
    h = h ^ (x as u32 as u64);
    h = h.wrapping_mul(FNV_PRIME);
    h = h ^ (y as u32 as u64);
    h = h.wrapping_mul(FNV_PRIME);
    h
}

} // verus!
