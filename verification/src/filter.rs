//! The bloom filter itself: a fixed-length sequence of 64-bit words queried
//! and mutated through eight seeded hash probes per input.
//!
//! Approximately optimal m (number of bits) and k (number of hashes) for
//! error rate e and n records (logs base 2):
//!
//!   m = -n * log e / (log 2)^2
//!   k = -log e
//!
//! For an error rate of .01 and n = 500000 this gives m = 3321928 bits
//! (51906 u64s) and k = 7. The probe loop nevertheless runs 8 rounds, one
//! more than that optimum; the extra round is kept deliberately, since
//! changing the round count changes which bits existing filter files have
//! set and would silently break compatibility with them.

use crate::FilterError;
use crate::addressing::{
    bit_array_indices, lemma_word_index_in_range, spec_bit_offset, spec_reduce, spec_word_index,
};
use crate::bits::{
    bit_set, lemma_or_absorb, lemma_or_assoc, lemma_or_bit, lemma_or_zero, lemma_set_bit_effect,
    set_bit, spec_bit, spec_mask,
};
use crate::hash::{xxh32_digest, xxh32_spec};
use vstd::prelude::*;

verus! {

/// The number of addressable bits in the fixed-size filter.
pub const BIT_CAPACITY: usize = 3321928;

/// The number of 64-bit words that hold `BIT_CAPACITY` bits.
pub const FILTER_NUM_U64S: usize = 51906;

/// How many seeded hash rounds one membership probe makes.
pub const HASH_ROUNDS: u32 = 8;

/// The word that probe round `round` of `input` addresses in a filter of
/// `m` bits.
pub open spec fn spec_probe_word(input: Seq<u8>, m: usize, round: u32) -> int
    recommends
        m > 0,
{
    spec_word_index(xxh32_spec(input, round) as u64, m)
}

/// The bit offset that probe round `round` of `input` addresses.
pub open spec fn spec_probe_offset(input: Seq<u8>, m: usize, round: u32) -> u64
    recommends
        m > 0,
{
    spec_bit_offset(xxh32_spec(input, round) as u64, m) as u64
}

/// Whether the bit that probe round `round` of `input` addresses is set in
/// `words`.
pub open spec fn spec_round_set(words: Seq<u64>, input: Seq<u8>, m: usize, round: u32) -> bool
    recommends
        m > 0,
        64 * words.len() >= m,
{
    spec_bit(words[spec_probe_word(input, m, round)], spec_probe_offset(input, m, round))
}

/// Whether `words` reports `input` as a member: every one of the eight probe
/// bits is set.
pub open spec fn spec_contains(words: Seq<u64>, input: Seq<u8>, m: usize) -> bool
    recommends
        m > 0,
        64 * words.len() >= m,
{
    forall|round: u32| round < HASH_ROUNDS ==> #[trigger] spec_round_set(words, input, m, round)
}

/// The contribution of probe round `round` of `input` to word `word`: a
/// single-bit mask when the round addresses that word, zero otherwise.
pub open spec fn spec_round_mask(input: Seq<u8>, m: usize, word: int, round: u32) -> u64
    recommends
        m > 0,
{
    if spec_probe_word(input, m, round) == word {
        spec_mask(spec_probe_offset(input, m, round))
    } else {
        0u64
    }
}

/// The combined mask that the first `rounds` probe rounds of `input`
/// contribute to word `word`.
pub open spec fn spec_insert_mask_upto(input: Seq<u8>, m: usize, word: int, rounds: u32) -> u64
    recommends
        m > 0,
    decreases rounds,
{
    if rounds == 0 {
        0u64
    } else {
        spec_insert_mask_upto(input, m, word, (rounds - 1) as u32) | spec_round_mask(
            input,
            m,
            word,
            (rounds - 1) as u32,
        )
    }
}

/// The mask that inserting `input` ors into word `word`.
pub open spec fn spec_insert_mask(input: Seq<u8>, m: usize, word: int) -> u64
    recommends
        m > 0,
{
    spec_insert_mask_upto(input, m, word, HASH_ROUNDS)
}

/// The word sequence after inserting `input`: each word ored with the mask of
/// the probe rounds that address it, and nothing else changed.
pub open spec fn spec_insert(words: Seq<u64>, input: Seq<u8>, m: usize) -> Seq<u64>
    recommends
        m > 0,
{
    Seq::new(words.len(), |j: int| words[j] | spec_insert_mask(input, m, j))
}

/// A fresh, all-zero filter of the fixed capacity.
pub fn fresh_filter() -> (r: Vec<u64>)
    ensures
        r@.len() == FILTER_NUM_U64S,
        forall|j: int| 0 <= j < r@.len() ==> r@[j] == 0u64,
{
    let mut words: Vec<u64> = Vec::new();
    let mut i: usize = 0;
    while i < FILTER_NUM_U64S
        invariant
            i <= FILTER_NUM_U64S,
            words@.len() == i,
            forall|j: int| 0 <= j < i ==> words@[j] == 0u64,
        decreases FILTER_NUM_U64S - i,
    {
        words.push(0);
        i += 1;
    }
    words
}

/// Does the filter report `bytes` as a member? True exactly when all eight
/// probe bits are set; a single unset bit proves `bytes` was never inserted.
pub fn is_in_filter(bytes: &[u8], filter: &Vec<u64>, m: usize) -> (r: Result<bool, FilterError>)
    requires
        m > 0,
        64 * filter@.len() >= m,
    ensures
        r == Ok::<bool, FilterError>(spec_contains(filter@, bytes@, m)),
{
    let mut to_return = true;

    let mut hash_num: u32 = 0;
    while hash_num < HASH_ROUNDS
        invariant
            m > 0,
            64 * filter@.len() >= m,
            hash_num <= HASH_ROUNDS,
            to_return == (forall|r: u32|
                r < hash_num ==> #[trigger] spec_round_set(filter@, bytes@, m, r)),
        decreases HASH_ROUNDS - hash_num,
    {
        let h = xxh32_digest(bytes, hash_num);
        let (whichint, whichbit) = bit_array_indices(h as u64, m);
        proof {
            lemma_word_index_in_range(h as u64, m, filter@.len() as int);
        }
        match bit_set(filter[whichint], whichbit) {
            Ok(is_set) => {
                proof {
                    assert(is_set == spec_round_set(filter@, bytes@, m, hash_num));
                }
                if !is_set {
                    to_return = false;
                }
            },
            Err(e) => {
                return Err(e);
            },
        }
        hash_num += 1;
    }

    Ok(to_return)
}

/// Insert `bytes`: set all eight probe bits, leaving every other bit as it
/// was. Never clears a bit.
pub fn filter_insert(bytes: &[u8], filter: &mut Vec<u64>, m: usize) -> (r: Result<
    (),
    FilterError,
>)
    requires
        m > 0,
        64 * old(filter)@.len() >= m,
    ensures
        r == Ok::<(), FilterError>(()),
        final(filter)@ == spec_insert(old(filter)@, bytes@, m),
{
    proof {
        assert forall|j: int| 0 <= j < filter@.len() implies filter@[j] == (old(
            filter,
        )@[j] | spec_insert_mask_upto(bytes@, m, j, 0u32)) by {
            lemma_or_zero(old(filter)@[j]);
        }
    }
    let mut hash_num: u32 = 0;
    while hash_num < HASH_ROUNDS
        invariant
            m > 0,
            64 * filter@.len() >= m,
            filter@.len() == old(filter)@.len(),
            hash_num <= HASH_ROUNDS,
            forall|j: int|
                0 <= j < filter@.len() ==> filter@[j] == (old(filter)@[j] | spec_insert_mask_upto(
                    bytes@,
                    m,
                    j,
                    hash_num,
                )),
        decreases HASH_ROUNDS - hash_num,
    {
        let h = xxh32_digest(bytes, hash_num);
        let (whichint, whichbit) = bit_array_indices(h as u64, m);
        proof {
            lemma_word_index_in_range(h as u64, m, filter@.len() as int);
        }
        match set_bit(filter[whichint], whichbit) {
            Ok(newint) => {
                filter.set(whichint, newint);
            },
            Err(e) => {
                return Err(e);
            },
        }
        proof {
            assert forall|j: int| 0 <= j < filter@.len() implies filter@[j] == (old(
                filter,
            )@[j] | spec_insert_mask_upto(bytes@, m, j, (hash_num + 1) as u32)) by {
                if j == whichint as int {
                    lemma_or_assoc(
                        old(filter)@[j],
                        spec_insert_mask_upto(bytes@, m, j, hash_num),
                        spec_round_mask(bytes@, m, j, hash_num),
                    );
                } else {
                    lemma_or_zero(spec_insert_mask_upto(bytes@, m, j, hash_num));
                }
            }
        }
        hash_num += 1;
    }

    proof {
        assert(filter@ =~= spec_insert(old(filter)@, bytes@, m));
    }
    Ok(())
}

/// After inserting `x`, every probe bit of `x` is set: a query for `x`
/// reports it as a member.
pub proof fn lemma_insert_establishes_membership(words: Seq<u64>, x: Seq<u8>, m: usize)
    requires
        m > 0,
        64 * words.len() >= m,
    ensures
        spec_contains(spec_insert(words, x, m), x, m),
{
    let inserted = spec_insert(words, x, m);
    assert forall|round: u32| round < HASH_ROUNDS implies #[trigger] spec_round_set(
        inserted,
        x,
        m,
        round,
    ) by {
        let h = xxh32_spec(x, round) as u64;
        lemma_word_index_in_range(h, m, words.len() as int);
        let pw = spec_probe_word(x, m, round);
        let off = spec_probe_offset(x, m, round);
        lemma_mask_upto_covers(x, m, pw, round, HASH_ROUNDS);
        lemma_or_bit(words[pw], spec_insert_mask(x, m, pw), off);
    }
}

/// Inserting any `y` never clears a bit, so an input the filter already
/// reports as a member is still reported after the insert.
pub proof fn lemma_insert_preserves_membership(words: Seq<u64>, x: Seq<u8>, y: Seq<u8>, m: usize)
    requires
        m > 0,
        64 * words.len() >= m,
        spec_contains(words, x, m),
    ensures
        spec_contains(spec_insert(words, y, m), x, m),
{
    let inserted = spec_insert(words, y, m);
    assert forall|round: u32| round < HASH_ROUNDS implies #[trigger] spec_round_set(
        inserted,
        x,
        m,
        round,
    ) by {
        let h = xxh32_spec(x, round) as u64;
        lemma_word_index_in_range(h, m, words.len() as int);
        let pw = spec_probe_word(x, m, round);
        let off = spec_probe_offset(x, m, round);
        assert(spec_round_set(words, x, m, round));
        lemma_or_bit(words[pw], spec_insert_mask(y, m, pw), off);
    }
}

/// Inserting the same input twice leaves the words bit-for-bit as one insert
/// leaves them.
pub proof fn lemma_insert_idempotent(words: Seq<u64>, x: Seq<u8>, m: usize)
    requires
        m > 0,
    ensures
        spec_insert(spec_insert(words, x, m), x, m) == spec_insert(words, x, m),
{
    let once = spec_insert(words, x, m);
    let twice = spec_insert(once, x, m);
    assert forall|j: int| 0 <= j < words.len() implies twice[j] == once[j] by {
        lemma_or_absorb(words[j], spec_insert_mask(x, m, j));
    }
    assert(twice =~= once);
}

/// The combined mask of the first `rounds` rounds has the bit of every round
/// it covers that addresses this word.
proof fn lemma_mask_upto_covers(input: Seq<u8>, m: usize, word: int, round: u32, rounds: u32)
    requires
        m > 0,
        round < rounds,
        spec_probe_word(input, m, round) == word,
    ensures
        spec_bit(spec_insert_mask_upto(input, m, word, rounds), spec_probe_offset(input, m, round)),
    decreases rounds,
{
    let h = xxh32_spec(input, round) as u64;
    assert(0 <= spec_reduce(h, m) < m);
    let off = spec_probe_offset(input, m, round);
    assert(off < 64);
    let last = (rounds - 1) as u32;
    if round == last {
        lemma_set_bit_effect(spec_insert_mask_upto(input, m, word, last), off, off);
    } else {
        lemma_mask_upto_covers(input, m, word, round, last);
        lemma_or_bit(
            spec_insert_mask_upto(input, m, word, last),
            spec_round_mask(input, m, word, last),
            off,
        );
    }
}

} // verus!
