//! Binary audio request codec.
//!
//! A request carries a sample buffer on the worker's input stream as
//! `[u32 little-endian sample_count][sample_count x 4-byte samples]`.
//! Each sample travels as the four little-endian bytes of its 32-bit
//! PCM bit pattern; the codec itself only moves those 32-bit words.

use vstd::prelude::*;
use vstd::bytes::{
    lemma_auto_spec_u32_to_from_le_bytes, spec_u32_from_le_bytes, spec_u32_to_le_bytes,
    u32_from_le_bytes, u32_to_le_bytes,
};
use vstd::slice::slice_subrange;

verus! {

/// Hard ceiling on the sample count of one request: ten minutes at 16 kHz.
pub const MAX_SAMPLES: u32 = 9_600_000;

/// The byte encoding of a sample buffer: each 32-bit sample as four
/// little-endian bytes, in order.
pub open spec fn spec_encode_samples(samples: Seq<u32>) -> Seq<u8>
    decreases samples.len(),
{
    if samples.len() == 0 {
        Seq::<u8>::empty()
    } else {
        spec_u32_to_le_bytes(samples[0]) + spec_encode_samples(samples.drop_first())
    }
}

/// The full request payload: the sample count, then the samples.
pub open spec fn spec_encode_request(samples: Seq<u32>) -> Seq<u8> {
    spec_u32_to_le_bytes(samples.len() as u32) + spec_encode_samples(samples)
}

/// Decoding of a sample section: consume four bytes per sample until
/// fewer than four bytes remain.
pub open spec fn spec_decode_samples(bytes: Seq<u8>) -> Seq<u32>
    decreases bytes.len(),
{
    if bytes.len() < 4 {
        Seq::<u32>::empty()
    } else {
        seq![spec_u32_from_le_bytes(bytes.take(4))] + spec_decode_samples(bytes.skip(4))
    }
}

/// Decoding of a whole request payload. A payload is well formed when its
/// count field is in `1 ..= MAX_SAMPLES` and exactly `4 + 4 * count` bytes
/// are present.
pub open spec fn spec_decode_request(bytes: Seq<u8>) -> Option<Seq<u32>> {
    if bytes.len() < 4 {
        None
    } else {
        let count = spec_u32_from_le_bytes(bytes.take(4));
        if count == 0 || count > MAX_SAMPLES || bytes.len() != 4 + 4 * (count as int) {
            None
        } else {
            Some(spec_decode_samples(bytes.skip(4)))
        }
    }
}

proof fn lemma_encode_samples_push(samples: Seq<u32>, x: u32)
    ensures
        spec_encode_samples(samples.push(x)) == spec_encode_samples(samples)
            + spec_u32_to_le_bytes(x),
    decreases samples.len(),
{
    if samples.len() == 0 {
        assert(samples.push(x).drop_first() =~= Seq::<u32>::empty());
        assert(spec_encode_samples(Seq::<u32>::empty()) =~= Seq::<u8>::empty());
        assert(samples.push(x)[0] == x);
        assert(spec_encode_samples(samples.push(x)) =~= spec_u32_to_le_bytes(x));
        assert(spec_encode_samples(samples) + spec_u32_to_le_bytes(x) =~= spec_u32_to_le_bytes(x));
    } else {
        lemma_encode_samples_push(samples.drop_first(), x);
        assert(samples.push(x).drop_first() =~= samples.drop_first().push(x));
        assert(samples.push(x)[0] == samples[0]);
        assert(spec_encode_samples(samples.push(x)) =~= spec_encode_samples(samples)
            + spec_u32_to_le_bytes(x));
    }
}

pub proof fn lemma_encode_samples_len(samples: Seq<u32>)
    ensures
        spec_encode_samples(samples).len() == 4 * samples.len(),
    decreases samples.len(),
{
    lemma_auto_spec_u32_to_from_le_bytes();
    if samples.len() > 0 {
        lemma_encode_samples_len(samples.drop_first());
    }
}

/// Encode a sample buffer into a request payload of `4 + 4 * len` bytes.
pub fn encode_request(samples: &Vec<u32>) -> (out: Vec<u8>)
    requires
        samples@.len() <= MAX_SAMPLES,
    ensures
        out@ == spec_encode_request(samples@),
        out@.len() == 4 + 4 * samples@.len(),
{
    proof {
        lemma_auto_spec_u32_to_from_le_bytes();
    }
    let count: u32 = samples.len() as u32;
    let mut out: Vec<u8> = u32_to_le_bytes(count);
    proof {
        assert(samples@.take(0) =~= Seq::<u32>::empty());
        assert(out@ =~= spec_u32_to_le_bytes(count) + spec_encode_samples(samples@.take(0)));
    }
    let mut i: usize = 0;
    while i < samples.len()
        invariant
            i <= samples@.len(),
            samples@.len() <= MAX_SAMPLES,
            count == samples@.len(),
            out@ == spec_u32_to_le_bytes(count) + spec_encode_samples(samples@.take(i as int)),
            out@.len() == 4 + 4 * i,
        decreases samples@.len() - i,
    {
        proof {
            lemma_auto_spec_u32_to_from_le_bytes();
            lemma_encode_samples_push(samples@.take(i as int), samples@[i as int]);
            assert(samples@.take(i + 1) =~= samples@.take(i as int).push(samples@[i as int]));
        }
        let mut b = u32_to_le_bytes(samples[i]);
        out.append(&mut b);
        i += 1;
    }
    proof {
        assert(samples@.take(samples@.len() as int) =~= samples@);
    }
    out
}

/// Read a little-endian sample count out of the four header bytes.
pub fn decode_sample_count(bytes: &[u8]) -> (count: u32)
    requires
        bytes@.len() == 4,
    ensures
        count == spec_u32_from_le_bytes(bytes@),
{
    u32_from_le_bytes(bytes)
}

/// Decode `count` samples out of exactly `4 * count` bytes.
pub fn decode_samples(bytes: &[u8], count: u32) -> (samples: Vec<u32>)
    requires
        count <= MAX_SAMPLES,
        bytes@.len() == 4 * count,
    ensures
        samples@ == spec_decode_samples(bytes@),
        samples@.len() == count,
{
    let mut samples: Vec<u32> = Vec::new();
    proof {
        assert(bytes@.skip(0) =~= bytes@);
        assert(samples@ + spec_decode_samples(bytes@) =~= spec_decode_samples(bytes@));
    }
    let mut i: u32 = 0;
    while i < count
        invariant
            i <= count,
            count <= MAX_SAMPLES,
            bytes@.len() == 4 * count,
            samples@.len() == i,
            spec_decode_samples(bytes@) == samples@ + spec_decode_samples(
                bytes@.skip(4 * i as int),
            ),
        decreases count - i,
    {
        let word = slice_subrange(bytes, (i as usize) * 4, (i as usize) * 4 + 4);
        let x = u32_from_le_bytes(word);
        proof {
            let rest = bytes@.skip(4 * i as int);
            assert(rest.take(4) =~= word@);
            assert(rest.skip(4) =~= bytes@.skip(4 * (i + 1)));
            assert(samples@.push(x) + spec_decode_samples(bytes@.skip(4 * (i + 1)))
                =~= samples@ + spec_decode_samples(rest));
        }
        samples.push(x);
        i += 1;
    }
    proof {
        assert(spec_decode_samples(bytes@.skip(4 * count as int)) =~= Seq::<u32>::empty());
        assert(samples@ + spec_decode_samples(bytes@.skip(4 * count as int)) =~= samples@);
    }
    samples
}

proof fn lemma_decode_of_encode_samples(samples: Seq<u32>)
    ensures
        spec_decode_samples(spec_encode_samples(samples)) == samples,
    decreases samples.len(),
{
    lemma_auto_spec_u32_to_from_le_bytes();
    if samples.len() == 0 {
        assert(spec_decode_samples(spec_encode_samples(samples)) =~= samples);
    } else {
        lemma_decode_of_encode_samples(samples.drop_first());
        lemma_encode_samples_len(samples.drop_first());
        let head = spec_u32_to_le_bytes(samples[0]);
        let enc = spec_encode_samples(samples);
        assert(enc.take(4) =~= head);
        assert(enc.skip(4) =~= spec_encode_samples(samples.drop_first()));
        assert(spec_decode_samples(enc) =~= samples);
    }
}

/// A request payload of `4 + 4 * count` bytes round-trips through the codec
/// to an identical sample sequence, for every count in `1 ..= MAX_SAMPLES`.
pub proof fn lemma_request_round_trip(samples: Seq<u32>)
    requires
        0 < samples.len() <= MAX_SAMPLES,
    ensures
        spec_encode_request(samples).len() == 4 + 4 * samples.len(),
        spec_decode_request(spec_encode_request(samples)) == Some(samples),
{
    lemma_auto_spec_u32_to_from_le_bytes();
    lemma_encode_samples_len(samples);
    lemma_decode_of_encode_samples(samples);
    let enc = spec_encode_request(samples);
    assert(enc.take(4) =~= spec_u32_to_le_bytes(samples.len() as u32));
    assert(enc.skip(4) =~= spec_encode_samples(samples));
}

} // verus!
