//! The random numbers that test-case generation draws, from `rand`'s
//! thread-local generator.
use vstd::prelude::*;
use rand::rngs::ThreadRng;
use rand::Rng;

verus! {

#[verifier::external_type_specification]
#[verifier::external_body]
pub struct ExThreadRng(rand::rngs::ThreadRng);

/// `rand::rng()`: a handle on the generator of the current thread.
#[verifier::external_body]
pub(crate) fn thread_rng() -> ThreadRng {
    rand::rng()
}

/// `Rng::random_range(lo..=hi)` for `i32`: a value drawn between `lo` and
/// `hi`, both included. `rand` panics on an empty range, so `lo <= hi` is
/// required.
#[verifier::external_body]
pub(crate) fn random_i32_inclusive(rng: &mut ThreadRng, lo: i32, hi: i32) -> (r: i32)
    requires
        lo <= hi,
    ensures
        lo <= r <= hi,
{
    rng.random_range(lo..=hi)
}

/// `Rng::random_range(lo..=hi)` for `usize`: a value drawn between `lo`
/// and `hi`, both included; `lo <= hi` is required.
#[verifier::external_body]
pub(crate) fn random_usize_inclusive(rng: &mut ThreadRng, lo: usize, hi: usize) -> (r: usize)
    requires
        lo <= hi,
    ensures
        lo <= r <= hi,
{
    rng.random_range(lo..=hi)
}

/// `Rng::random_range(0..n)` for `usize`: a value drawn below `n`, which
/// must be positive.
#[verifier::external_body]
pub(crate) fn random_usize_below(rng: &mut ThreadRng, n: usize) -> (r: usize)
    requires
        0 < n,
    ensures
        r < n,
{
    rng.random_range(0..n)
}

/// `Rng::random_range(0..n)` for `u64`: a value drawn below `n`, which must
/// be positive.
#[verifier::external_body]
pub(crate) fn random_u64_below(rng: &mut ThreadRng, n: u64) -> (r: u64)
    requires
        0 < n,
    ensures
        r < n,
{
    rng.random_range(0..n)
}

} // verus!
