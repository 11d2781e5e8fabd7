use vstd::prelude::*;

verus! {

/// Declares rand's standard generator so that verified code can hold one and
/// thread it through the search operators.
#[verifier::external_type_specification]
#[verifier::external_body]
pub struct ExStdRng(rand::rngs::StdRng);

/// Relies on rand's SeedableRng::seed_from_u64: builds a deterministic
/// generator from a 64-bit seed. Nothing is assumed about the stream it yields.
#[verifier::external_body]
pub(crate) fn rng_from_seed(seed: u64) -> rand::rngs::StdRng {
    <rand::rngs::StdRng as rand::SeedableRng>::seed_from_u64(seed)
}

/// Relies on rand's make_rng, which seeds a fresh generator from the
/// thread-local one; nothing is assumed about the stream it yields. Used by
/// the parallel mutation pass, where each worker needs its own generator.
#[verifier::external_body]
pub(crate) fn rng_from_entropy() -> rand::rngs::StdRng {
    rand::make_rng()
}

/// Relies on rand's RngExt::random_range over `0..n`, which returns a value of
/// the non-empty range; nothing is assumed about the distribution of draws.
#[verifier::external_body]
pub(crate) fn rand_below(rng: &mut rand::rngs::StdRng, n: u64) -> (r: u64)
    requires
        n >= 1,
    ensures
        r < n,
{
    rand::RngExt::random_range(rng, 0..n)
}

/// A draw usable as an index into a collection of length `n`.
pub(crate) fn rand_index(rng: &mut rand::rngs::StdRng, n: usize) -> (r: usize)
    requires
        n >= 1,
    ensures
        r < n,
{
    let d: u64 = rand_below(rng, n as u64);
    d as usize
}

} // verus!
