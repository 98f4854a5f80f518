//! A fixed-size bloom filter over byte strings, with a flat big-endian
//! on-disk encoding of its word array.
//!
//! The filter owns a sequence of 64-bit words. Membership of a byte string is
//! decided by eight seeded 32-bit hashes of it; each hash addresses one bit of
//! the word array, an input counts as present exactly when all eight bits are
//! set. Inserting sets those eight bits and never clears any bit.

pub mod addressing;
pub mod bits;
pub mod codec;
pub mod filter;
pub mod hash;

use vstd::prelude::*;

verus! {

/// The failures the filter core can report. A bit offset outside `0..=63`
/// handed to a bit operation is an internal addressing fault, not a user
/// input problem.
#[derive(Clone, Copy, Debug, PartialEq, Eq, Structural)]
pub enum FilterError {
    OutOfRange,
}

} // verus!
