//! The two composed stages a run drives data through on each side of the
//! channel: encoding (nibble split, Hamming encode, block interleave) and
//! decoding (block deinterleave, Hamming correct, nibble merge). Both work
//! on fully materialized sequences; the channel between them, the timing
//! and the orchestration of configurations stay with the caller.

use vstd::prelude::*;

use crate::codec::bit_at;
use crate::codec::decode_all;
use crate::codec::encode_all;
use crate::codec::lemma_byte_roundtrip;
use crate::codec::lemma_codeword_recovered;
use crate::codec::lemma_encode_bytes_at;
use crate::codec::spec_data_bits;
use crate::codec::spec_decode;
use crate::codec::spec_decode_merge;
use crate::codec::spec_encode_bytes;
use crate::interleave::deinterleave;
use crate::interleave::interleave;
use crate::interleave::lemma_burst_spread;
use crate::interleave::lemma_deinterleave_inverts_interleave;
use crate::interleave::lemma_pad_len;
use crate::interleave::lemma_transpose_involutive;
use crate::interleave::spec_deinterleave;
use crate::interleave::spec_interleave;
use crate::interleave::spec_pad_len;
use crate::interleave::spec_transpose;
use crate::interleave::stream_bit;
use crate::CodecError;

verus! {

/// Encode a byte sequence for transmission: two codewords per byte,
/// interleaved block by block. Returns the transmitted bytes and the pad
/// length the decoding side must strip after deinterleaving.
pub fn encode_data(data: &Vec<u8>) -> (r: (Vec<u8>, usize))
    requires
        2 * data.len() + 7 <= usize::MAX,
    ensures
        r.0@ == spec_interleave(spec_encode_bytes(data@)),
        r.1 == spec_pad_len(2 * data@.len() as int),
        r.0@.len() == 2 * data@.len() + r.1,
{
    let codewords = encode_all(data);
    interleave(&codewords)
}

/// Decode a received byte sequence: deinterleave it, strip the recorded
/// pad, correct and merge the codeword pairs. Fails if and only if the
/// sequence is not block-aligned, the pad exceeds it, or an odd number of
/// codewords remains — each a pipeline invariant violation, never an
/// effect of channel noise, which at worst flips bits.
pub fn decode_data(data: &Vec<u8>, pad: usize) -> (r: Result<Vec<u8>, CodecError>)
    ensures
        match r {
            Ok(bytes) => data@.len() % 8 == 0 && pad <= data@.len() && (data@.len() - pad) % 2 == 0
                && bytes@ == spec_decode_merge(spec_deinterleave(data@, pad as int)),
            Err(e) => (data@.len() % 8 != 0 && e == CodecError::BlockMisaligned) || (data@.len() % 8
                == 0 && pad > data@.len() && e == CodecError::PadTooLong) || (data@.len() % 8 == 0
                && pad <= data@.len() && (data@.len() - pad) % 2 != 0 && e
                == CodecError::OddCodewordCount),
        },
{
    let codewords = deinterleave(data, pad)?;
    decode_all(&codewords)
}

/// Round-trip identity over a zero-error channel: a byte sequence encoded
/// for transmission and handed back unchanged decodes, after
/// deinterleaving with the recorded pad, to exactly the original sequence
/// — for every sequence and every byte value in it.
pub proof fn lemma_pipeline_roundtrip(data: Seq<u8>)
    ensures
        ({
            let sent = spec_interleave(spec_encode_bytes(data));
            let pad = spec_pad_len(2 * data.len() as int);
            sent.len() % 8 == 0 && pad <= sent.len() && spec_decode_merge(
                spec_deinterleave(sent, pad),
            ) == data
        }),
{
    let codewords = spec_encode_bytes(data);
    lemma_deinterleave_inverts_interleave(codewords);
    let decoded = spec_decode_merge(codewords);
    assert forall|i: int| 0 <= i < data.len() implies decoded[i] == data[i] by {
        assert((2 * i) % 2 == 0 && (2 * i) / 2 == i && (2 * i + 1) % 2 == 1 && (2 * i + 1) / 2
            == i) by (nonlinear_arith);
        lemma_byte_roundtrip(data[i]);
    };
    assert(decoded =~= data);
}

/// Burst correction, end to end: if the channel corrupts the transmitted
/// sequence only inside a window of at most 8 consecutive transmitted
/// bits — a burst no wider than one block row — then decoding the
/// received sequence still reproduces the original byte sequence exactly.
/// The interleaver spreads the burst over distinct codewords
/// ([`lemma_burst_spread`]), each of which then carries at most one
/// flipped bit, which Hamming correction undoes
/// ([`crate::codec::lemma_single_error_correction`]).
#[verifier::rlimit(30)]
pub proof fn lemma_burst_roundtrip(data: Seq<u8>, received: Seq<u8>, start: int, k: int)
    requires
        0 <= k <= 8,
        received.len() == spec_interleave(spec_encode_bytes(data)).len(),
        forall|p: int|
            0 <= p < 8 * received.len() && !(start <= p < start + k) ==> stream_bit(
                spec_interleave(spec_encode_bytes(data)),
                p,
            ) == stream_bit(received, p),
    ensures
        spec_decode_merge(spec_deinterleave(received, spec_pad_len(2 * data.len() as int)))
            == data,
{
    let enc = spec_encode_bytes(data);
    let pad = spec_pad_len(enc.len() as int);
    let padded = enc + Seq::new(pad as nat, |i: int| 0u8);
    let sent = spec_interleave(enc);
    lemma_pad_len(enc.len() as int);
    assert(sent.len() == padded.len());
    lemma_burst_spread(sent, received, start, k);
    lemma_transpose_involutive(padded);
    let rcw = spec_transpose(received);
    assert forall|c: int| 0 <= c < enc.len() implies #[trigger] spec_decode(rcw[c])
        == spec_data_bits(enc[c]) by {
        let x = enc[c];
        let y = rcw[c];
        assert(spec_transpose(sent)[c] == x);
        lemma_encode_bytes_at(data, c);
        assert forall|j1: u8, j2: u8|
            j1 < 8 && j2 < 8 && #[trigger] bit_at(x, j1) != bit_at(y, j1) && #[trigger] bit_at(
                x,
                j2,
            ) != bit_at(y, j2) implies j1 == j2 by {
            assert(bit_at(spec_transpose(sent)[c], j1) != bit_at(spec_transpose(received)[c], j1));
            assert(bit_at(spec_transpose(sent)[c], j2) != bit_at(spec_transpose(received)[c], j2));
        };
        lemma_codeword_recovered(x, y);
    };
    let stripped = spec_deinterleave(received, pad);
    let decoded = spec_decode_merge(stripped);
    assert(stripped.len() == enc.len());
    assert forall|i: int| 0 <= i < data.len() implies decoded[i] == data[i] by {
        assert((2 * i) % 2 == 0 && (2 * i) / 2 == i && (2 * i + 1) % 2 == 1 && (2 * i + 1) / 2
            == i) by (nonlinear_arith);
        assert(stripped[2 * i] == rcw[2 * i]);
        assert(stripped[2 * i + 1] == rcw[2 * i + 1]);
        lemma_encode_bytes_at(data, 2 * i);
        lemma_encode_bytes_at(data, 2 * i + 1);
        let b = data[i];
        assert(spec_decode(rcw[2 * i]) == b >> 4);
        assert(spec_decode(rcw[2 * i + 1]) == b & 0xF);
        assert((b >> 4) * 16 + (b & 0xF) == b) by (bit_vector);
    };
    assert(decoded =~= data);
}

} // verus!
