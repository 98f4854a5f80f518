//! Mapping a 64-bit hash value and a filter size in bits to a word index and
//! a bit offset.
//!
//! The hash is first reduced modulo the bit capacity `m`, so the filter may
//! hold any positive number of bits; the reduced position is then split into
//! a word index (division by 64) and an offset inside that word (remainder).

use vstd::prelude::*;

verus! {

/// The bit position a hash addresses: the hash reduced modulo the bit capacity.
pub open spec fn spec_reduce(hash: u64, bit_capacity: usize) -> int
    recommends
        bit_capacity > 0,
{
    hash as int % bit_capacity as int
}

/// Which word of the filter holds the bit addressed by `hash`.
pub open spec fn spec_word_index(hash: u64, bit_capacity: usize) -> int
    recommends
        bit_capacity > 0,
{
    spec_reduce(hash, bit_capacity) / 64
}

/// The offset of the addressed bit inside its word, most-significant bit first.
pub open spec fn spec_bit_offset(hash: u64, bit_capacity: usize) -> int
    recommends
        bit_capacity > 0,
{
    spec_reduce(hash, bit_capacity) % 64
}

/// How many 64-bit words are needed to hold `bit_capacity` bits.
pub open spec fn spec_num_words(bit_capacity: usize) -> int
    recommends
        bit_capacity > 0,
{
    (bit_capacity - 1) / 64 + 1
}

/// Which u64 of the filter should position `i` fall in?
/// `m` is the number of bits in the filter.
pub fn u64_index(i: u64, m: usize) -> (r: usize)
    requires
        m > 0,
    ensures
        r == spec_word_index(i, m),
{
    let reduced: u64 = i % (m as u64);
    (reduced / 64) as usize
}

/// Once the right u64 is chosen, which particular bit inside it should
/// position `i` fall on?
/// `m` is the number of bits in the filter.
pub fn bit_index(i: u64, m: usize) -> (r: u8)
    requires
        m > 0,
    ensures
        r == spec_bit_offset(i, m),
{
    let reduced: u64 = i % (m as u64);
    (reduced % 64) as u8
}

/// Given a hash value `i`, which u64 should it be in, and within that u64,
/// which bit should it be?
/// `m` is the number of bits in the filter.
pub fn bit_array_indices(i: u64, m: usize) -> (r: (usize, u8))
    requires
        m > 0,
    ensures
        r.0 == spec_word_index(i, m),
        r.1 == spec_bit_offset(i, m),
{
    (u64_index(i, m), bit_index(i, m))
}

/// How many u64s does it take to store `m` bits? That many words cover every
/// position a hash can address.
pub fn num_u64s(m: usize) -> (r: usize)
    requires
        m > 0,
    ensures
        r == spec_num_words(m),
        64 * r >= m,
{
    let r = (m - 1) / 64 + 1;
    proof {
        let q = (m - 1) as int / 64;
        assert(64 * q >= m - 1 - 63) by (nonlinear_arith)
            requires
                q == (m - 1) as int / 64,
                m >= 1,
        ;
    }
    r
}

/// Whenever the filter has at least `m` addressable bits, every hash lands on
/// an existing word, at an offset inside that word.
pub proof fn lemma_word_index_in_range(hash: u64, m: usize, len: int)
    requires
        m > 0,
        64 * len >= m,
    ensures
        0 <= spec_word_index(hash, m) < len,
        0 <= spec_bit_offset(hash, m) < 64,
{
    let reduced = spec_reduce(hash, m);
    assert(0 <= reduced < m);
    assert(reduced / 64 < len) by (nonlinear_arith)
        requires
            0 <= reduced,
            reduced < 64 * len,
    ;
}

} // verus!
