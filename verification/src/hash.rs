//! The seeded 32-bit hash that drives the filter's addressing.
//!
//! Each membership probe hashes the input bytes with the probe's round number
//! as the seed. The digest must be bit-for-bit reproducible across processes
//! and platforms; files written by one process are read by another.

use vstd::prelude::*;

verus! {

/// The 32-bit digest that the xxHash32 algorithm assigns to `input` under `seed`.
pub uninterp spec fn xxh32_spec(input: Seq<u8>, seed: u32) -> u32;

/// Relies on `xxhash_rust::xxh32::xxh32`: the digest is computed from the
/// input bytes and the seed alone, with byte order normalized, so it is the
/// same in every process and on every machine.
#[verifier::external_body]
pub(crate) fn xxh32_digest(input: &[u8], seed: u32) -> (r: u32)
    ensures
        r == xxh32_spec(input@, seed),
{
    xxhash_rust::xxh32::xxh32(input, seed)
}

} // verus!
