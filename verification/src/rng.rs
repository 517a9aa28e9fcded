//! Randomness for parameter initialization, supplied by the `rand` crate.
//!
//! Nothing is assumed about which values come out beyond the requested
//! range, so everything proved downstream holds for every draw.

use crate::fixed::SCALE;
use rand::Rng;
use rand::SeedableRng;
use vstd::prelude::*;

verus! {

#[verifier::external_type_specification]
#[verifier::external_body]
pub struct ExStdRng(rand::rngs::StdRng);

/// Relies on rand's `StdRng::seed_from_u64`: builds a generator whose draws
/// are a function of the seed alone. No contract is assumed about its state.
#[verifier::external_body]
pub(crate) fn seeded_rng(seed: u64) -> rand::rngs::StdRng {
    rand::rngs::StdRng::seed_from_u64(seed)
}

/// Relies on rand's `Rng::gen_range`: returns a value inside the given
/// non-empty inclusive range.
#[verifier::external_body]
pub(crate) fn gen_unit(rng: &mut rand::rngs::StdRng) -> (r: i64)
    ensures
        -SCALE <= r <= SCALE,
{
    rng.gen_range(-SCALE..=SCALE)
}

/// Relies on rand's `thread_rng` and `Rng::gen_range`: returns a value inside
/// the given non-empty inclusive range.
#[verifier::external_body]
pub(crate) fn gen_unit_thread() -> (r: i64)
    ensures
        -SCALE <= r <= SCALE,
{
    rand::thread_rng().gen_range(-SCALE..=SCALE)
}

/// A vector of `n` scalars drawn uniformly from `[-1, 1]` by the thread-local
/// generator.
pub(crate) fn random_row(n: usize) -> (r: Vec<i64>)
    ensures
        r@.len() == n,
        forall|i: int| 0 <= i < n ==> -SCALE <= #[trigger] r@[i] <= SCALE,
{
    let mut out: Vec<i64> = Vec::new();
    let mut i: usize = 0;
    while i < n
        invariant
            i <= n,
            out@.len() == i,
            forall|j: int| 0 <= j < i ==> -SCALE <= #[trigger] out@[j] <= SCALE,
        decreases n - i,
    {
        out.push(gen_unit_thread());
        i = i + 1;
    }
    out
}

/// A vector of `n` scalars drawn uniformly from `[-1, 1]` by a seeded
/// generator.
pub(crate) fn random_row_seeded(rng: &mut rand::rngs::StdRng, n: usize) -> (r: Vec<i64>)
    ensures
        r@.len() == n,
        forall|i: int| 0 <= i < n ==> -SCALE <= #[trigger] r@[i] <= SCALE,
{
    let mut out: Vec<i64> = Vec::new();
    let mut i: usize = 0;
    while i < n
        invariant
            i <= n,
            out@.len() == i,
            forall|j: int| 0 <= j < i ==> -SCALE <= #[trigger] out@[j] <= SCALE,
        decreases n - i,
    {
        out.push(gen_unit(rng));
        i = i + 1;
    }
    out
}

} // verus!
