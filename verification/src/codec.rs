//! The flat binary form of the word array: each word big-endian, concatenated
//! in order, with no header, length prefix, or checksum.
//!
//! Decoding reads 8-byte chunks until fewer than 8 bytes remain; a trailing
//! partial chunk of 1 to 7 bytes is silently dropped, not an error. The codec
//! itself checks no word count: a caller that needs a filter of a given size
//! must compare the decoded length against it before use.

use vstd::prelude::*;

verus! {

/// The eight bytes of `w`, most significant first.
pub open spec fn spec_word_to_bytes(w: u64) -> Seq<u8> {
    seq![
        ((w >> 56) & 0xff) as u8,
        ((w >> 48) & 0xff) as u8,
        ((w >> 40) & 0xff) as u8,
        ((w >> 32) & 0xff) as u8,
        ((w >> 24) & 0xff) as u8,
        ((w >> 16) & 0xff) as u8,
        ((w >> 8) & 0xff) as u8,
        (w & 0xff) as u8,
    ]
}

/// The word that eight big-endian bytes spell.
pub open spec fn spec_word_from_bytes(b: Seq<u8>) -> u64
    recommends
        b.len() == 8,
{
    ((b[0] as u64) << 56) | ((b[1] as u64) << 48) | ((b[2] as u64) << 40) | ((b[3] as u64) << 32)
        | ((b[4] as u64) << 24) | ((b[5] as u64) << 16) | ((b[6] as u64) << 8) | (b[7] as u64)
}

/// The encoded form of a word sequence: the words' bytes, in sequence order.
pub open spec fn spec_encode(words: Seq<u64>) -> Seq<u8>
    decreases words.len(),
{
    if words.len() == 0 {
        Seq::empty()
    } else {
        spec_encode(words.drop_last()) + spec_word_to_bytes(words.last())
    }
}

/// The word sequence a byte sequence decodes to: one word per whole 8-byte
/// chunk, trailing bytes beyond the last whole chunk ignored.
pub open spec fn spec_decode(bytes: Seq<u8>) -> Seq<u64> {
    Seq::new(bytes.len() / 8, |k: int| spec_word_from_bytes(bytes.subrange(8 * k, 8 * k + 8)))
}

/// Every extracted byte of a word fits in eight bits.
proof fn lemma_byte_bounds(w: u64)
    by (bit_vector)
    ensures
        (w >> 56) & 0xff < 256,
        (w >> 48) & 0xff < 256,
        (w >> 40) & 0xff < 256,
        (w >> 32) & 0xff < 256,
        (w >> 24) & 0xff < 256,
        (w >> 16) & 0xff < 256,
        (w >> 8) & 0xff < 256,
        w & 0xff < 256,
{
}

/// Reassembling the eight extracted bytes of a word gives the word back.
proof fn lemma_word_reassemble(w: u64)
    by (bit_vector)
    ensures
        ((((w >> 56) & 0xff) as u8 as u64) << 56) | ((((w >> 48) & 0xff) as u8 as u64) << 48) | ((((
        w >> 40) & 0xff) as u8 as u64) << 40) | ((((w >> 32) & 0xff) as u8 as u64) << 32) | ((((w
            >> 24) & 0xff) as u8 as u64) << 24) | ((((w >> 16) & 0xff) as u8 as u64) << 16) | ((((w
            >> 8) & 0xff) as u8 as u64) << 8) | ((w & 0xff) as u8 as u64) == w,
{
}

/// The encoding is eight bytes per word.
pub proof fn lemma_encode_len(words: Seq<u64>)
    ensures
        spec_encode(words).len() == 8 * words.len(),
    decreases words.len(),
{
    if words.len() > 0 {
        lemma_encode_len(words.drop_last());
    }
}

/// Serialize each word in big-endian byte order, concatenated in sequence
/// order. The result is `8 * words.len()` bytes long.
pub fn encode(words: &Vec<u64>) -> (r: Vec<u8>)
    ensures
        r@ == spec_encode(words@),
        r@.len() == 8 * words@.len(),
{
    proof {
        lemma_encode_len(words@);
    }
    let mut out: Vec<u8> = Vec::new();
    let mut i: usize = 0;
    while i < words.len()
        invariant
            i <= words@.len(),
            out@ == spec_encode(words@.take(i as int)),
        decreases words@.len() - i,
    {
        let w = words[i];
        proof {
            lemma_byte_bounds(w);
            lemma_encode_len(words@.take(i as int));
        }
        out.push(((w >> 56) & 0xff) as u8);
        out.push(((w >> 48) & 0xff) as u8);
        out.push(((w >> 40) & 0xff) as u8);
        out.push(((w >> 32) & 0xff) as u8);
        out.push(((w >> 24) & 0xff) as u8);
        out.push(((w >> 16) & 0xff) as u8);
        out.push(((w >> 8) & 0xff) as u8);
        out.push((w & 0xff) as u8);
        proof {
            let taken = words@.take(i + 1);
            assert(taken.drop_last() =~= words@.take(i as int));
            assert(out@ =~= spec_encode(taken));
        }
        i += 1;
    }
    proof {
        assert(words@.take(words@.len() as int) =~= words@);
    }
    out
}

/// Read 8-byte big-endian chunks from the front of `bytes` until fewer than 8
/// bytes remain; 1 to 7 leftover bytes are silently discarded.
pub fn decode(bytes: &[u8]) -> (r: Vec<u64>)
    ensures
        r@ == spec_decode(bytes@),
{
    let total = bytes.len();
    let n = total / 8;
    let mut words: Vec<u64> = Vec::new();
    let mut k: usize = 0;
    while k < n
        invariant
            n == bytes@.len() / 8,
            total == bytes@.len(),
            k <= n,
            words@.len() == k,
            forall|t: int|
                0 <= t < k ==> words@[t] == spec_word_from_bytes(
                    bytes@.subrange(8 * t, 8 * t + 8),
                ),
        decreases n - k,
    {
        let base = 8 * k;
        let w = ((bytes[base] as u64) << 56) | ((bytes[base + 1] as u64) << 48) | ((bytes[base
            + 2] as u64) << 40) | ((bytes[base + 3] as u64) << 32) | ((bytes[base + 4] as u64)
            << 24) | ((bytes[base + 5] as u64) << 16) | ((bytes[base + 6] as u64) << 8) | (
        bytes[base + 7] as u64);
        proof {
            let chunk = bytes@.subrange(8 * k as int, 8 * k as int + 8);
            assert(w == spec_word_from_bytes(chunk));
        }
        words.push(w);
        k += 1;
    }
    proof {
        assert(words@ =~= spec_decode(bytes@));
    }
    words
}

/// Decoding inverts encoding: any word sequence survives a round trip through
/// its binary form unchanged.
pub proof fn lemma_codec_round_trip(words: Seq<u64>)
    ensures
        spec_decode(spec_encode(words)) == words,
    decreases words.len(),
{
    lemma_encode_len(words);
    let enc = spec_encode(words);
    if words.len() == 0 {
        assert(spec_decode(enc) =~= words);
    } else {
        let prefix = words.drop_last();
        let penc = spec_encode(prefix);
        lemma_encode_len(prefix);
        lemma_codec_round_trip(prefix);
        assert forall|k: int| 0 <= k < words.len() implies spec_word_from_bytes(
            enc.subrange(8 * k, 8 * k + 8),
        ) == words[k] by {
            if k < words.len() - 1 {
                assert(enc.subrange(8 * k, 8 * k + 8) =~= penc.subrange(8 * k, 8 * k + 8));
                assert(spec_word_from_bytes(penc.subrange(8 * k, 8 * k + 8)) == spec_decode(
                    penc,
                )[k]);
            } else {
                assert(enc.subrange(8 * k, 8 * k + 8) =~= spec_word_to_bytes(words.last()));
                lemma_word_to_from(words.last());
            }
        }
        assert(spec_decode(enc) =~= words);
    }
}

/// Reading back the eight bytes of a word gives the word.
pub proof fn lemma_word_to_from(w: u64)
    ensures
        spec_word_from_bytes(spec_word_to_bytes(w)) == w,
{
    lemma_word_reassemble(w);
}

/// A trailing partial chunk changes nothing: a buffer with 1 to 7 extra bytes
/// decodes as the buffer with those bytes stripped.
pub proof fn lemma_decode_ignores_trailing(bytes: Seq<u8>, extra: Seq<u8>)
    requires
        bytes.len() % 8 == 0,
        extra.len() < 8,
    ensures
        spec_decode(bytes + extra) == spec_decode(bytes),
{
    let both = bytes + extra;
    let q = bytes.len() as int / 8;
    assert(bytes.len() == 8 * q);
    assert(both.len() as int / 8 == q) by (nonlinear_arith)
        requires
            both.len() == 8 * q + extra.len(),
            0 <= extra.len() < 8,
            q >= 0,
    ;
    assert forall|k: int| 0 <= k < q implies #[trigger] both.subrange(8 * k, 8 * k + 8)
        =~= bytes.subrange(8 * k, 8 * k + 8) by {
    }
    assert(spec_decode(both) =~= spec_decode(bytes));
}

} // verus!
