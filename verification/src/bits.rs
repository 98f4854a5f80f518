//! Testing and setting a single bit inside a 64-bit word.
//!
//! Bits are numbered from the most-significant end: offset 0 is the highest
//! bit (mask `0x8000_0000_0000_0000`), offset 63 the lowest (mask `0x1`).

use crate::FilterError;
use vstd::prelude::*;

verus! {

/// The single-bit mask for `offset`, counting offset 0 as the most-significant bit.
pub open spec fn spec_mask(offset: u64) -> u64
    recommends
        offset < 64,
{
    0x8000_0000_0000_0000u64 >> offset
}

/// Whether bit `offset` (most-significant bit first) of `word` is set.
pub open spec fn spec_bit(word: u64, offset: u64) -> bool
    recommends
        offset < 64,
{
    word & spec_mask(offset) != 0
}

/// Is bit at index `bit_index` in `an_int` set?
pub fn bit_set(an_int: u64, bit_index: u8) -> (r: Result<bool, FilterError>)
    ensures
        bit_index <= 63 ==> r == Ok::<bool, FilterError>(spec_bit(an_int, bit_index as u64)),
        bit_index > 63 ==> r == Err::<bool, FilterError>(FilterError::OutOfRange),
{
    if bit_index > 63 {
        Err(FilterError::OutOfRange)
    } else {
        Ok(an_int & (0x8000_0000_0000_0000u64 >> (bit_index as u64)) != 0)
    }
}

/// Return the result of setting bit at index `bit_index` in `an_int`, all
/// other bits unchanged.
pub fn set_bit(an_int: u64, bit_index: u8) -> (r: Result<u64, FilterError>)
    ensures
        bit_index <= 63 ==> r == Ok::<u64, FilterError>(an_int | spec_mask(bit_index as u64)),
        bit_index > 63 ==> r == Err::<u64, FilterError>(FilterError::OutOfRange),
{
    if bit_index <= 63 {
        Ok(an_int | (0x8000_0000_0000_0000u64 >> (bit_index as u64)))
    } else {
        Err(FilterError::OutOfRange)
    }
}

/// Setting bit `i` makes bit `i` set and leaves every other bit as it was.
pub proof fn lemma_set_bit_effect(w: u64, i: u64, j: u64)
    by (bit_vector)
    requires
        i < 64,
        j < 64,
    ensures
        spec_bit(w | spec_mask(i), i),
        i != j ==> spec_bit(w | spec_mask(i), j) == spec_bit(w, j),
{
}

/// A bit of a bitwise-or is the disjunction of the operands' bits.
pub proof fn lemma_or_bit(a: u64, b: u64, i: u64)
    by (bit_vector)
    requires
        i < 64,
    ensures
        spec_bit(a | b, i) == (spec_bit(a, i) || spec_bit(b, i)),
{
}

/// Bitwise-or with zero changes nothing.
pub proof fn lemma_or_zero(a: u64)
    by (bit_vector)
    ensures
        a | 0 == a,
{
}

/// Bitwise-or is associative.
pub proof fn lemma_or_assoc(a: u64, b: u64, c: u64)
    by (bit_vector)
    ensures
        (a | b) | c == a | (b | c),
{
}

/// Bitwise-or absorbs a repeated operand.
pub proof fn lemma_or_absorb(a: u64, b: u64)
    by (bit_vector)
    ensures
        (a | b) | b == a | b,
{
}

} // verus!
