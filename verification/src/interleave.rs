//! Block bit-interleaving: codewords are grouped into blocks of 8, and the
//! 8x8 bit matrix of each block is transposed, so transmitted byte `i` of a
//! block carries bit `i % 8` of every codeword in it. A burst of consecutive
//! corrupted bits on the wire therefore lands on distinct codewords after
//! deinterleaving, which turns a burst the code could never fix into single
//! bit errors it always can.
//!
//! A sequence whose length is not a multiple of 8 is first padded with zero
//! codewords; the pad length is returned beside the interleaved bytes and
//! handed back to the deinterleaver, which strips it unconditionally — a
//! sequence already aligned travels with an explicit pad length of zero.

use vstd::prelude::*;

use vstd::arithmetic::div_mod::lemma_fundamental_div_mod;
use vstd::arithmetic::div_mod::lemma_fundamental_div_mod_converse;

use crate::codec::bit_at;
use crate::codec::lemma_u8_bits_determine;
use crate::CodecError;

verus! {

/// How many zero codewords pad a sequence of length `len` up to the next
/// multiple of the 8-codeword block size: zero when already aligned.
pub open spec fn spec_pad_len(len: int) -> int {
    (8 - len % 8) % 8
}

/// Byte `i` of the per-block bit transpose: bit `j` of output byte `i` is
/// bit `i % 8` of input byte `j` of the same block.
pub open spec fn tr_byte(s: Seq<u8>, i: int) -> u8 {
    let blk = 8 * (i / 8);
    let r = (i % 8) as u8;
    bit_at(s[blk], r) | (bit_at(s[blk + 1], r) << 1) | (bit_at(s[blk + 2], r) << 2) | (bit_at(
        s[blk + 3],
        r,
    ) << 3) | (bit_at(s[blk + 4], r) << 4) | (bit_at(s[blk + 5], r) << 5) | (bit_at(s[blk + 6], r)
        << 6) | (bit_at(s[blk + 7], r) << 7)
}

/// The per-block 8x8 bit transpose of an aligned sequence. It is its own
/// inverse ([`lemma_transpose_involutive`]), which is why one transform
/// serves both directions of the trip.
pub open spec fn spec_transpose(s: Seq<u8>) -> Seq<u8> {
    Seq::new(s.len(), |i: int| tr_byte(s, i))
}

/// What the interleaver emits for a codeword sequence: the sequence padded
/// with zero codewords to a multiple of 8, then transposed block by block.
pub open spec fn spec_interleave(codewords: Seq<u8>) -> Seq<u8> {
    spec_transpose(codewords + Seq::new(spec_pad_len(codewords.len() as int) as nat, |i: int| 0u8))
}

/// What the deinterleaver reconstructs from an aligned byte sequence and a
/// recorded pad length: the transpose undone, then the pad stripped from
/// the tail.
pub open spec fn spec_deinterleave(data: Seq<u8>, pad: int) -> Seq<u8> {
    spec_transpose(data).take(data.len() - pad)
}

/// Transmitted bit `p` of a byte sequence: bit `p % 8` of byte `p / 8`.
pub open spec fn stream_bit(s: Seq<u8>, p: int) -> u8 {
    bit_at(s[p / 8], (p % 8) as u8)
}

/// Index bookkeeping for a position `i` of an aligned sequence: its block
/// starts at `8 * (i / 8)` and the whole block lies within the sequence.
proof fn lemma_block_bounds(i: int, len: int)
    requires
        0 <= i < len,
        len % 8 == 0,
    ensures
        i == 8 * (i / 8) + i % 8,
        0 <= i % 8 < 8,
        0 <= 8 * (i / 8),
        8 * (i / 8) + 7 < len,
{
    lemma_fundamental_div_mod(i, 8);
    lemma_fundamental_div_mod(len, 8);
    let q = i / 8;
    let lq = len / 8;
    assert(q < lq) by (nonlinear_arith)
        requires
            8 * q + i % 8 < 8 * lq,
            0 <= i % 8,
    ;
}

/// Where each bit of a transposed byte comes from: bit `j` of output byte
/// `i` is bit `i % 8` of input byte `8 * (i / 8) + j`.
pub proof fn lemma_tr_byte_bit(s: Seq<u8>, i: int, j: u8)
    requires
        0 <= i < s.len(),
        s.len() % 8 == 0,
        j < 8,
    ensures
        bit_at(tr_byte(s, i), j) == bit_at(s[8 * (i / 8) + j], (i % 8) as u8),
{
    lemma_block_bounds(i, s.len() as int);
    let blk = 8 * (i / 8);
    let r = (i % 8) as u8;
    let x0 = s[blk];
    let x1 = s[blk + 1];
    let x2 = s[blk + 2];
    let x3 = s[blk + 3];
    let x4 = s[blk + 4];
    let x5 = s[blk + 5];
    let x6 = s[blk + 6];
    let x7 = s[blk + 7];
    let t = tr_byte(s, i);
    assert(t == bit_at(x0, r) | (bit_at(x1, r) << 1) | (bit_at(x2, r) << 2) | (bit_at(x3, r) << 3)
        | (bit_at(x4, r) << 4) | (bit_at(x5, r) << 5) | (bit_at(x6, r) << 6) | (bit_at(x7, r)
        << 7));
    assert((j == 0 ==> bit_at(t, j) == bit_at(x0, r)) && (j == 1 ==> bit_at(t, j) == bit_at(x1, r))
        && (j == 2 ==> bit_at(t, j) == bit_at(x2, r)) && (j == 3 ==> bit_at(t, j) == bit_at(x3, r))
        && (j == 4 ==> bit_at(t, j) == bit_at(x4, r)) && (j == 5 ==> bit_at(t, j) == bit_at(x5, r))
        && (j == 6 ==> bit_at(t, j) == bit_at(x6, r)) && (j == 7 ==> bit_at(t, j) == bit_at(
        x7,
        r,
    ))) by (bit_vector)
        requires
            t == bit_at(x0, r) | (bit_at(x1, r) << 1) | (bit_at(x2, r) << 2) | (bit_at(x3, r) << 3)
                | (bit_at(x4, r) << 4) | (bit_at(x5, r) << 5) | (bit_at(x6, r) << 6) | (bit_at(
                x7,
                r,
            ) << 7),
            r < 8,
            j < 8,
    ;
}

/// The per-block bit transpose is an exact involution on any aligned
/// sequence: transposing twice gives the sequence back, independent of what
/// the bytes hold.
pub proof fn lemma_transpose_involutive(s: Seq<u8>)
    requires
        s.len() % 8 == 0,
    ensures
        spec_transpose(spec_transpose(s)) == s,
{
    let t = spec_transpose(s);
    let tt = spec_transpose(t);
    assert forall|i: int| 0 <= i < s.len() implies tt[i] == s[i] by {
        assert forall|j: u8| j < 8 implies bit_at(tt[i], j) == bit_at(s[i], j) by {
            lemma_block_bounds(i, s.len() as int);
            let r = (i % 8) as u8;
            let k = 8 * (i / 8) + j as int;
            lemma_tr_byte_bit(t, i, j);
            lemma_fundamental_div_mod_converse(k, 8, i / 8, j as int);
            lemma_tr_byte_bit(s, k, r);
        };
        lemma_u8_bits_determine(tt[i], s[i]);
    };
    assert(tt =~= s);
}

/// The pad length is under one block, and padding by it aligns the
/// sequence.
pub proof fn lemma_pad_len(len: int)
    requires
        0 <= len,
    ensures
        0 <= spec_pad_len(len) < 8,
        (len + spec_pad_len(len)) % 8 == 0,
{
    lemma_fundamental_div_mod(len, 8);
    let q = len / 8;
    let r = len % 8;
    if r == 0 {
        assert((len + spec_pad_len(len)) % 8 == 0);
    } else {
        assert(len + spec_pad_len(len) == 8 * (q + 1));
        lemma_fundamental_div_mod_converse(8 * (q + 1), 8, q + 1, 0);
    }
}

/// Transpose the 8x8 bit matrix of every block of an aligned sequence.
/// Both directions of the interleaver run through this one transform.
fn transpose_blocks(data: &Vec<u8>) -> (out: Vec<u8>)
    requires
        data.len() % 8 == 0,
    ensures
        out@ == spec_transpose(data@),
{
    let mut out: Vec<u8> = Vec::new();
    let mut i: usize = 0;
    while i < data.len()
        invariant
            i <= data.len(),
            data@.len() % 8 == 0,
            out@.len() == i,
            out@ == spec_transpose(data@).take(i as int),
        decreases data.len() - i,
    {
        proof {
            lemma_block_bounds(i as int, data@.len() as int);
        }
        let blk = (i / 8) * 8;
        let r = (i % 8) as u8;
        let b: u8 = ((data[blk] >> r) & 1) | (((data[blk + 1] >> r) & 1) << 1) | (((data[blk + 2]
            >> r) & 1) << 2) | (((data[blk + 3] >> r) & 1) << 3) | (((data[blk + 4] >> r) & 1)
            << 4) | (((data[blk + 5] >> r) & 1) << 5) | (((data[blk + 6] >> r) & 1) << 6) | (((
        data[blk + 7] >> r) & 1) << 7);
        proof {
            assert(b == tr_byte(data@, i as int));
        }
        out.push(b);
        proof {
            assert(out@ =~= spec_transpose(data@).take(i as int + 1));
        }
        i = i + 1;
    }
    proof {
        assert(out@ =~= spec_transpose(data@));
    }
    out
}

/// Interleave a codeword sequence: pad it with zero codewords to a
/// multiple of the 8-codeword block size, transpose every block, and
/// return the transmitted bytes together with the pad length that the
/// deinterleaver must strip — an explicit zero when no padding was needed.
pub fn interleave(codewords: &Vec<u8>) -> (r: (Vec<u8>, usize))
    requires
        codewords.len() + 7 <= usize::MAX,
    ensures
        r.0@ == spec_interleave(codewords@),
        r.1 == spec_pad_len(codewords@.len() as int),
        r.0@.len() == codewords@.len() + r.1,
{
    proof {
        lemma_pad_len(codewords@.len() as int);
    }
    let pad = (8 - codewords.len() % 8) % 8;
    let mut padded: Vec<u8> = Vec::new();
    let mut k: usize = 0;
    while k < codewords.len()
        invariant
            k <= codewords@.len(),
            padded@ == codewords@.take(k as int),
        decreases codewords.len() - k,
    {
        padded.push(codewords[k]);
        proof {
            assert(padded@ =~= codewords@.take(k as int + 1));
        }
        k = k + 1;
    }
    proof {
        assert(padded@ =~= codewords@);
    }
    let ghost zeros = Seq::new(spec_pad_len(codewords@.len() as int) as nat, |i: int| 0u8);
    let mut t: usize = 0;
    while t < pad
        invariant
            t <= pad,
            pad == spec_pad_len(codewords@.len() as int),
            padded@ == codewords@ + zeros.take(t as int),
            zeros == Seq::new(spec_pad_len(codewords@.len() as int) as nat, |i: int| 0u8),
        decreases pad - t,
    {
        padded.push(0u8);
        proof {
            assert(padded@ =~= codewords@ + zeros.take(t as int + 1));
        }
        t = t + 1;
    }
    proof {
        assert(padded@ =~= codewords@ + zeros);
        assert(padded@.len() % 8 == 0);
    }
    let out = transpose_blocks(&padded);
    (out, pad)
}

/// Undo the interleaving of an aligned byte sequence: transpose every
/// block back and strip the recorded pad from the tail. Fails if and only
/// if the sequence is not block-aligned — every interleaved sequence is —
/// or the recorded pad exceeds the sequence; either condition signals a
/// pipeline bug, never channel noise, so it is reported rather than
/// repaired.
pub fn deinterleave(data: &Vec<u8>, pad: usize) -> (r: Result<Vec<u8>, CodecError>)
    ensures
        match r {
            Ok(codewords) => data@.len() % 8 == 0 && pad <= data@.len() && codewords@
                == spec_deinterleave(data@, pad as int),
            Err(e) => (data@.len() % 8 != 0 && e == CodecError::BlockMisaligned) || (data@.len() % 8
                == 0 && pad > data@.len() && e == CodecError::PadTooLong),
        },
{
    if data.len() % 8 != 0 {
        return Err(CodecError::BlockMisaligned);
    }
    if pad > data.len() {
        return Err(CodecError::PadTooLong);
    }
    let mut codewords = transpose_blocks(data);
    let keep = data.len() - pad;
    codewords.truncate(keep);
    proof {
        assert(codewords@ =~= spec_deinterleave(data@, pad as int));
    }
    Ok(codewords)
}

/// The transmitted bit position that lands on bit `j` of codeword `c`
/// after deinterleaving: bit `c % 8` of transmitted byte `8 * (c / 8) + j`.
pub open spec fn source_pos(c: int, j: int) -> int {
    8 * (8 * (c / 8) + j) + c % 8
}

/// If deinterleaved codeword `c` differs between two transmissions at bit
/// `j`, the transmissions differ at transmitted bit `source_pos(c, j)` —
/// so under a burst hypothesis that position lies inside the burst window.
proof fn lemma_diff_bit_in_window(a: Seq<u8>, b: Seq<u8>, start: int, k: int, c: int, j: u8)
    requires
        a.len() == b.len(),
        a.len() % 8 == 0,
        forall|p: int|
            0 <= p < 8 * a.len() && !(start <= p < start + k) ==> stream_bit(a, p) == stream_bit(
                b,
                p,
            ),
        0 <= c < a.len(),
        j < 8,
        bit_at(spec_transpose(a)[c], j) != bit_at(spec_transpose(b)[c], j),
    ensures
        start <= source_pos(c, j as int) < start + k,
{
    lemma_block_bounds(c, a.len() as int);
    lemma_tr_byte_bit(a, c, j);
    lemma_tr_byte_bit(b, c, j);
    let y = 8 * (c / 8) + j as int;
    let p = source_pos(c, j as int);
    lemma_fundamental_div_mod_converse(p, 8, y, c % 8);
    assert(stream_bit(a, p) == bit_at(a[y], (c % 8) as u8));
    assert(stream_bit(b, p) == bit_at(b[y], (c % 8) as u8));
    if !(start <= p < start + k) {
        assert(stream_bit(a, p) == stream_bit(b, p));
        assert(false);
    }
}

/// Burst errors are spread, never concentrated: if two transmissions of
/// the same aligned length differ only inside a window of at most 8
/// consecutive transmitted bits — a burst — then after deinterleaving no
/// codeword differs in more than one bit position. Together with
/// single-error correction this is why a burst of up to one block-row is
/// always corrected, and it holds independent of what the channel did
/// inside the window.
pub proof fn lemma_burst_spread(a: Seq<u8>, b: Seq<u8>, start: int, k: int)
    requires
        a.len() == b.len(),
        a.len() % 8 == 0,
        0 <= k <= 8,
        forall|p: int|
            0 <= p < 8 * a.len() && !(start <= p < start + k) ==> stream_bit(a, p) == stream_bit(
                b,
                p,
            ),
    ensures
        forall|c: int, j1: u8, j2: u8|
            0 <= c < a.len() && j1 < 8 && j2 < 8 && #[trigger] bit_at(spec_transpose(a)[c], j1)
                != bit_at(spec_transpose(b)[c], j1) && #[trigger] bit_at(spec_transpose(a)[c], j2)
                != bit_at(spec_transpose(b)[c], j2) ==> j1 == j2,
{
    assert forall|c: int, j1: u8, j2: u8|
        0 <= c < a.len() && j1 < 8 && j2 < 8 && #[trigger] bit_at(spec_transpose(a)[c], j1)
            != bit_at(spec_transpose(b)[c], j1) && #[trigger] bit_at(spec_transpose(a)[c], j2)
            != bit_at(spec_transpose(b)[c], j2) implies j1 == j2 by {
        lemma_diff_bit_in_window(a, b, start, k, c, j1);
        lemma_diff_bit_in_window(a, b, start, k, c, j2);
        assert(source_pos(c, j1 as int) - source_pos(c, j2 as int) == 8 * j1 - 8 * j2);
    };
}

/// Round trip of the interleaving stage alone (no channel in between):
/// deinterleaving what interleave produced, with the pad length it
/// recorded, returns the codeword sequence unchanged — for every length,
/// including zero and multiples of the block size.
pub proof fn lemma_deinterleave_inverts_interleave(codewords: Seq<u8>)
    ensures
        spec_interleave(codewords).len() % 8 == 0,
        spec_pad_len(codewords.len() as int) <= spec_interleave(codewords).len(),
        spec_deinterleave(spec_interleave(codewords), spec_pad_len(codewords.len() as int))
            == codewords,
{
    let pad = spec_pad_len(codewords.len() as int);
    let padded = codewords + Seq::new(pad as nat, |i: int| 0u8);
    lemma_pad_len(codewords.len() as int);
    lemma_transpose_involutive(padded);
    assert(spec_transpose(padded).len() == padded.len());
    assert(spec_deinterleave(spec_interleave(codewords), pad) == spec_transpose(
        spec_transpose(padded),
    ).take(padded.len() - pad));
    assert(padded.take(codewords.len() as int) =~= codewords);
}

} // verus!
