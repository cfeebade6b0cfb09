//! The Hamming(7,4) codec: each byte splits into two nibbles, each nibble
//! is carried by one 8-bit codeword with three parity bits, and a non-zero
//! syndrome locates (and corrects) any single flipped bit.
//!
//! Codeword layout, by bit index within the byte: bit 0 is reserved and
//! always zero, bits 1, 2 and 4 hold the parity bits, and bits 3, 5, 6 and 7
//! hold the four data bits (most significant nibble bit at index 3). With
//! this layout the bit index within the codeword *is* its Hamming position,
//! so the syndrome — which recombines the three parity checks — directly
//! names the index of a single flipped bit. The encoder and the decoder
//! share the one layout through the spec functions below; that they agree
//! bit-for-bit is what [`lemma_decode_encode`] and
//! [`lemma_single_error_correction`] prove.

use vstd::prelude::*;

use crate::CodecError;

verus! {

/// Bit `i` of byte `b`, as 0 or 1.
pub open spec fn bit_at(b: u8, i: u8) -> u8 {
    (b >> i) & 1
}

/// The codeword that carries the low four bits of `nibble`: parity bits at
/// indices 1, 2 and 4, data bits at indices 3, 5, 6 and 7 (most significant
/// nibble bit first), index 0 reserved as zero. Each parity bit is the
/// modulo-2 sum of the data bits whose codeword index has the corresponding
/// binary digit set: bit 1 covers indices {3, 5, 7}, bit 2 covers {3, 6, 7},
/// and bit 4 covers {5, 6, 7}.
pub open spec fn spec_encode_nibble(nibble: u8) -> u8 {
    let d3 = bit_at(nibble, 3);
    let d5 = bit_at(nibble, 2);
    let d6 = bit_at(nibble, 1);
    let d7 = bit_at(nibble, 0);
    let p1 = d3 ^ d5 ^ d7;
    let p2 = d3 ^ d6 ^ d7;
    let p4 = d5 ^ d6 ^ d7;
    (p1 << 1) | (p2 << 2) | (d3 << 3) | (p4 << 4) | (d5 << 5) | (d6 << 6) | (d7 << 7)
}

/// The syndrome of a codeword: the three parity checks, recombined into a
/// number that is zero when every check passes and otherwise is the bit
/// index of a single flipped bit.
pub open spec fn spec_syndrome(codeword: u8) -> u8 {
    let s0 = bit_at(codeword, 1) ^ bit_at(codeword, 3) ^ bit_at(codeword, 5) ^ bit_at(codeword, 7);
    let s1 = bit_at(codeword, 2) ^ bit_at(codeword, 3) ^ bit_at(codeword, 6) ^ bit_at(codeword, 7);
    let s2 = bit_at(codeword, 4) ^ bit_at(codeword, 5) ^ bit_at(codeword, 6) ^ bit_at(codeword, 7);
    s0 | (s1 << 1) | (s2 << 2)
}

/// The nibble stored in a codeword's data positions 3, 5, 6 and 7.
pub open spec fn spec_data_bits(codeword: u8) -> u8 {
    (bit_at(codeword, 3) << 3) | (bit_at(codeword, 5) << 2) | (bit_at(codeword, 6) << 1) | bit_at(
        codeword,
        7,
    )
}

/// The codeword after the single-bit correction the syndrome calls for:
/// unchanged when the syndrome is zero, otherwise with the bit at the
/// syndrome's index flipped back.
pub open spec fn spec_correct(codeword: u8) -> u8 {
    if spec_syndrome(codeword) == 0 {
        codeword
    } else {
        codeword ^ (1u8 << spec_syndrome(codeword))
    }
}

/// The nibble a codeword decodes to: its data bits, read after correction.
pub open spec fn spec_decode(codeword: u8) -> u8 {
    spec_data_bits(spec_correct(codeword))
}

/// The syndrome fits in three bits, so it is always a valid bit index.
pub proof fn lemma_syndrome_bound(codeword: u8)
    ensures
        spec_syndrome(codeword) < 8,
{
    assert(spec_syndrome(codeword) < 8) by (bit_vector);
}

/// The three parity checks compute exactly the XOR of the bit indices of
/// every set bit in the codeword — the index-based reading of the same
/// Hamming parity-check matrix. Bit 0 contributes nothing either way,
/// which is why its flips go undetected and also do no harm.
pub proof fn lemma_syndrome_is_index_xor(codeword: u8)
    ensures
        spec_syndrome(codeword) == (if bit_at(codeword, 1) == 1 {
            1u8
        } else {
            0u8
        }) ^ (if bit_at(codeword, 2) == 1 {
            2u8
        } else {
            0u8
        }) ^ (if bit_at(codeword, 3) == 1 {
            3u8
        } else {
            0u8
        }) ^ (if bit_at(codeword, 4) == 1 {
            4u8
        } else {
            0u8
        }) ^ (if bit_at(codeword, 5) == 1 {
            5u8
        } else {
            0u8
        }) ^ (if bit_at(codeword, 6) == 1 {
            6u8
        } else {
            0u8
        }) ^ (if bit_at(codeword, 7) == 1 {
            7u8
        } else {
            0u8
        }),
{
    assert(spec_syndrome(codeword) == (if bit_at(codeword, 1) == 1 {
        1u8
    } else {
        0u8
    }) ^ (if bit_at(codeword, 2) == 1 {
        2u8
    } else {
        0u8
    }) ^ (if bit_at(codeword, 3) == 1 {
        3u8
    } else {
        0u8
    }) ^ (if bit_at(codeword, 4) == 1 {
        4u8
    } else {
        0u8
    }) ^ (if bit_at(codeword, 5) == 1 {
        5u8
    } else {
        0u8
    }) ^ (if bit_at(codeword, 6) == 1 {
        6u8
    } else {
        0u8
    }) ^ (if bit_at(codeword, 7) == 1 {
        7u8
    } else {
        0u8
    })) by (bit_vector);
}

/// Two bytes that agree on all eight bits are equal.
pub proof fn lemma_u8_bits_determine(a: u8, b: u8)
    requires
        forall|j: u8| j < 8 ==> bit_at(a, j) == bit_at(b, j),
    ensures
        a == b,
{
    assert(bit_at(a, 0) == bit_at(b, 0));
    assert(bit_at(a, 1) == bit_at(b, 1));
    assert(bit_at(a, 2) == bit_at(b, 2));
    assert(bit_at(a, 3) == bit_at(b, 3));
    assert(bit_at(a, 4) == bit_at(b, 4));
    assert(bit_at(a, 5) == bit_at(b, 5));
    assert(bit_at(a, 6) == bit_at(b, 6));
    assert(bit_at(a, 7) == bit_at(b, 7));
    assert(a == b) by (bit_vector)
        requires
            bit_at(a, 0) == bit_at(b, 0),
            bit_at(a, 1) == bit_at(b, 1),
            bit_at(a, 2) == bit_at(b, 2),
            bit_at(a, 3) == bit_at(b, 3),
            bit_at(a, 4) == bit_at(b, 4),
            bit_at(a, 5) == bit_at(b, 5),
            bit_at(a, 6) == bit_at(b, 6),
            bit_at(a, 7) == bit_at(b, 7),
    ;
}

/// Two bytes that agree everywhere except possibly at bit `j` are either
/// equal or differ by exactly that one bit.
pub proof fn lemma_single_diff_is_xor(x: u8, y: u8, j: u8)
    requires
        j < 8,
        forall|i: u8| i < 8 && i != j ==> bit_at(x, i) == bit_at(y, i),
    ensures
        y == x || y == x ^ (1u8 << j),
{
    assert(0 != j ==> bit_at(x, 0) == bit_at(y, 0));
    assert(1 != j ==> bit_at(x, 1) == bit_at(y, 1));
    assert(2 != j ==> bit_at(x, 2) == bit_at(y, 2));
    assert(3 != j ==> bit_at(x, 3) == bit_at(y, 3));
    assert(4 != j ==> bit_at(x, 4) == bit_at(y, 4));
    assert(5 != j ==> bit_at(x, 5) == bit_at(y, 5));
    assert(6 != j ==> bit_at(x, 6) == bit_at(y, 6));
    assert(7 != j ==> bit_at(x, 7) == bit_at(y, 7));
    assert(y == x || y == x ^ (1u8 << j)) by (bit_vector)
        requires
            j < 8,
            0 != j ==> bit_at(x, 0) == bit_at(y, 0),
            1 != j ==> bit_at(x, 1) == bit_at(y, 1),
            2 != j ==> bit_at(x, 2) == bit_at(y, 2),
            3 != j ==> bit_at(x, 3) == bit_at(y, 3),
            4 != j ==> bit_at(x, 4) == bit_at(y, 4),
            5 != j ==> bit_at(x, 5) == bit_at(y, 5),
            6 != j ==> bit_at(x, 6) == bit_at(y, 6),
            7 != j ==> bit_at(x, 7) == bit_at(y, 7),
    ;
}

/// Every codeword the encoder produces passes all three parity checks,
/// stores its nibble unchanged in the data positions, and keeps the
/// reserved bit 0 clear.
pub proof fn lemma_encode_valid(nibble: u8)
    requires
        nibble < 16,
    ensures
        spec_syndrome(spec_encode_nibble(nibble)) == 0,
        spec_data_bits(spec_encode_nibble(nibble)) == nibble,
        bit_at(spec_encode_nibble(nibble), 0) == 0,
{
    assert(spec_syndrome(spec_encode_nibble(nibble)) == 0 && spec_data_bits(
        spec_encode_nibble(nibble),
    ) == nibble && bit_at(spec_encode_nibble(nibble), 0) == 0) by (bit_vector)
        requires
            nibble < 16,
    ;
}

/// Decoding inverts encoding when no bit was disturbed.
pub proof fn lemma_decode_encode(nibble: u8)
    requires
        nibble < 16,
    ensures
        spec_decode(spec_encode_nibble(nibble)) == nibble,
{
    assert(spec_decode(spec_encode_nibble(nibble)) == nibble) by (bit_vector)
        requires
            nibble < 16,
    ;
}

/// Single-error correction: flipping any one bit of a codeword whose
/// parity checks pass — an output of the encoder — leaves a codeword that
/// still decodes to the original data bits. A flip of the reserved bit 0
/// goes unnoticed (the syndrome stays zero) but is harmless; a flip of any
/// other bit is located exactly, so the error is reported as corrected.
pub proof fn lemma_single_error_correction(codeword: u8, position: u8)
    requires
        spec_syndrome(codeword) == 0,
        position < 8,
    ensures
        spec_decode(codeword ^ (1u8 << position)) == spec_data_bits(codeword),
        spec_syndrome(codeword ^ (1u8 << position)) == if position == 0 {
            0
        } else {
            position
        },
{
    assert(spec_decode(codeword ^ (1u8 << position)) == spec_data_bits(codeword) && spec_syndrome(
        codeword ^ (1u8 << position),
    ) == (if position == 0 {
        0u8
    } else {
        position
    })) by (bit_vector)
        requires
            spec_syndrome(codeword) == 0,
            position < 8,
    ;
}

/// A codeword that passes all parity checks and then differs from a
/// received byte in at most one bit position — however that one bit was
/// chosen — still decodes to its own data bits.
pub proof fn lemma_codeword_recovered(x: u8, y: u8)
    requires
        spec_syndrome(x) == 0,
        forall|j1: u8, j2: u8|
            j1 < 8 && j2 < 8 && #[trigger] bit_at(x, j1) != bit_at(y, j1) && #[trigger] bit_at(
                x,
                j2,
            ) != bit_at(y, j2) ==> j1 == j2,
    ensures
        spec_decode(y) == spec_data_bits(x),
{
    if x != y {
        if forall|j: u8| j < 8 ==> bit_at(x, j) == bit_at(y, j) {
            lemma_u8_bits_determine(x, y);
            assert(false);
        }
        assert(exists|j: u8| j < 8 && bit_at(x, j) != bit_at(y, j));
        let j = choose|j: u8| j < 8 && bit_at(x, j) != bit_at(y, j);
        assert forall|i: u8| i < 8 && i != j implies bit_at(x, i) == bit_at(y, i) by {
            if bit_at(x, i) != bit_at(y, i) {
                assert(i == j);
            }
        };
        lemma_single_diff_is_xor(x, y, j);
        assert(y == x ^ (1u8 << j));
        lemma_single_error_correction(x, j);
    }
}

/// A byte comes back whole from the nibble split, the two encodings and
/// the two decodings.
pub proof fn lemma_byte_roundtrip(byte: u8)
    ensures
        byte >> 4 < 16,
        byte & 0xF < 16,
        spec_decode(spec_encode_nibble(byte >> 4)) * 16 + spec_decode(
            spec_encode_nibble(byte & 0xF),
        ) == byte,
{
    assert(byte >> 4 < 16 && byte & 0xF < 16) by (bit_vector);
    lemma_decode_encode(byte >> 4);
    lemma_decode_encode(byte & 0xF);
    assert((byte >> 4) * 16 + (byte & 0xF) == byte) by (bit_vector);
}

/// Encode the low four bits of a nibble into one codeword.
pub fn encode_nibble(nibble: u8) -> (codeword: u8)
    requires
        nibble < 16,
    ensures
        codeword == spec_encode_nibble(nibble),
{
    let d3 = (nibble >> 3) & 1;
    let d5 = (nibble >> 2) & 1;
    let d6 = (nibble >> 1) & 1;
    let d7 = nibble & 1;
    let p1 = d3 ^ d5 ^ d7;
    let p2 = d3 ^ d6 ^ d7;
    let p4 = d5 ^ d6 ^ d7;
    proof {
        assert(nibble & 1 == (nibble >> 0) & 1) by (bit_vector);
    }
    (p1 << 1) | (p2 << 2) | (d3 << 3) | (p4 << 4) | (d5 << 5) | (d6 << 6) | (d7 << 7)
}

/// Encode one byte as two codewords, upper nibble first.
pub fn encode(byte: u8) -> (r: (u8, u8))
    ensures
        r.0 == spec_encode_nibble(byte >> 4),
        r.1 == spec_encode_nibble(byte & 0xF),
{
    proof {
        assert(byte >> 4 < 16 && byte & 0xF < 16) by (bit_vector);
    }
    (encode_nibble(byte >> 4), encode_nibble(byte & 0xF))
}

/// The syndrome of a codeword, naming the bit index of a single error
/// (zero when every parity check passes).
pub fn get_error_index(codeword: u8) -> (syndrome: u8)
    ensures
        syndrome == spec_syndrome(codeword),
        syndrome < 8,
{
    let s0 = ((codeword >> 1) & 1) ^ ((codeword >> 3) & 1) ^ ((codeword >> 5) & 1) ^ ((codeword
        >> 7) & 1);
    let s1 = ((codeword >> 2) & 1) ^ ((codeword >> 3) & 1) ^ ((codeword >> 6) & 1) ^ ((codeword
        >> 7) & 1);
    let s2 = ((codeword >> 4) & 1) ^ ((codeword >> 5) & 1) ^ ((codeword >> 6) & 1) ^ ((codeword
        >> 7) & 1);
    proof {
        lemma_syndrome_bound(codeword);
    }
    s0 | (s1 << 1) | (s2 << 2)
}

/// Read the four data bits out of a codeword, into the low half of a byte.
pub fn get_info_bits(codeword: u8) -> (nibble: u8)
    ensures
        nibble == spec_data_bits(codeword),
        nibble < 16,
{
    proof {
        assert(spec_data_bits(codeword) < 16) by (bit_vector);
    }
    (((codeword >> 3) & 1) << 3) | (((codeword >> 5) & 1) << 2) | (((codeword >> 6) & 1) << 1) | ((
    codeword >> 7) & 1)
}

/// Decode one codeword to its nibble, correcting at most one flipped bit.
/// The flag reports whether a correction was applied; two or more flips in
/// the same codeword produce a wrong syndrome and a silent miscorrection,
/// the known limit of a single-error-correcting code.
pub fn decode(codeword: u8) -> (r: (u8, bool))
    ensures
        r.0 == spec_decode(codeword),
        r.0 < 16,
        r.1 == (spec_syndrome(codeword) != 0),
{
    let syndrome = get_error_index(codeword);
    if syndrome != 0 {
        let corrected = codeword ^ (1u8 << syndrome);
        (get_info_bits(corrected), true)
    } else {
        (get_info_bits(codeword), false)
    }
}

/// Reassemble a byte from its two nibbles, upper nibble first. Exact left
/// inverse of the nibble split performed by the encoder.
pub fn merge(upper: u8, lower: u8) -> (byte: u8)
    requires
        upper < 16,
        lower < 16,
    ensures
        byte == upper * 16 + lower,
{
    proof {
        assert((upper << 4 | lower) == upper * 16 + lower) by (bit_vector)
            requires
                upper < 16,
                lower < 16,
        ;
    }
    upper << 4 | lower
}

/// The codeword sequence for a byte sequence: two codewords per byte, in
/// byte order, upper nibble first.
pub open spec fn spec_encode_bytes(data: Seq<u8>) -> Seq<u8> {
    Seq::new(
        data.len() * 2,
        |i: int|
            if i % 2 == 0 {
                spec_encode_nibble(data[i / 2] >> 4)
            } else {
                spec_encode_nibble(data[i / 2] & 0xF)
            },
    )
}

/// The byte sequence a codeword sequence of even length decodes to:
/// consecutive codeword pairs, each corrected and merged.
pub open spec fn spec_decode_merge(codewords: Seq<u8>) -> Seq<u8> {
    Seq::new(
        codewords.len() / 2,
        |i: int| (spec_decode(codewords[2 * i]) * 16 + spec_decode(codewords[2 * i + 1])) as u8,
    )
}

/// What stands at position `c` of an encoded byte sequence: a codeword
/// that passes all parity checks and whose data bits are the upper nibble
/// of byte `c / 2` at even positions, the lower nibble at odd ones.
pub proof fn lemma_encode_bytes_at(data: Seq<u8>, c: int)
    requires
        0 <= c < 2 * data.len(),
    ensures
        spec_syndrome(spec_encode_bytes(data)[c]) == 0,
        spec_data_bits(spec_encode_bytes(data)[c]) == if c % 2 == 0 {
            data[c / 2] >> 4
        } else {
            data[c / 2] & 0xF
        },
{
    let d = data[c / 2];
    assert(d >> 4 < 16 && d & 0xF < 16) by (bit_vector);
    if c % 2 == 0 {
        lemma_encode_valid(d >> 4);
    } else {
        lemma_encode_valid(d & 0xF);
    }
}

/// Encode a whole byte sequence into its codeword sequence.
pub fn encode_all(data: &Vec<u8>) -> (codewords: Vec<u8>)
    requires
        2 * data.len() <= usize::MAX,
    ensures
        codewords@ == spec_encode_bytes(data@),
{
    let mut codewords: Vec<u8> = Vec::new();
    let mut k: usize = 0;
    while k < data.len()
        invariant
            k <= data.len(),
            2 * data.len() <= usize::MAX,
            codewords@.len() == 2 * k,
            codewords@ == spec_encode_bytes(data@).take(2 * k as int),
        decreases data.len() - k,
    {
        let (upper, lower) = encode(data[k]);
        codewords.push(upper);
        codewords.push(lower);
        proof {
            assert((2 * k as int) / 2 == k as int && (2 * k as int) % 2 == 0 && (2 * k as int + 1)
                / 2 == k as int && (2 * k as int + 1) % 2 == 1) by (nonlinear_arith);
            assert(codewords@ =~= spec_encode_bytes(data@).take(2 * (k + 1) as int));
        }
        k = k + 1;
    }
    proof {
        assert(codewords@ =~= spec_encode_bytes(data@));
    }
    codewords
}

/// Decode a codeword sequence back to bytes, correcting at most one
/// flipped bit per codeword. Fails if and only if the sequence holds an
/// odd number of codewords, since every byte decodes from exactly two.
pub fn decode_all(codewords: &Vec<u8>) -> (r: Result<Vec<u8>, CodecError>)
    ensures
        match r {
            Ok(bytes) => codewords@.len() % 2 == 0 && bytes@ == spec_decode_merge(codewords@),
            Err(e) => codewords@.len() % 2 != 0 && e == CodecError::OddCodewordCount,
        },
{
    if codewords.len() % 2 != 0 {
        return Err(CodecError::OddCodewordCount);
    }
    let n = codewords.len();
    let half = n / 2;
    let mut bytes: Vec<u8> = Vec::new();
    let mut i: usize = 0;
    while i < half
        invariant
            i <= half,
            n == codewords@.len(),
            n % 2 == 0,
            half == n / 2,
            bytes@.len() == i,
            bytes@ == spec_decode_merge(codewords@).take(i as int),
        decreases half - i,
    {
        proof {
            assert(2 * (i as int) + 1 < n as int) by (nonlinear_arith)
                requires
                    0 <= i < half,
                    half == n as int / 2,
                    n as int % 2 == 0,
            ;
        }
        let (upper, _) = decode(codewords[2 * i]);
        let (lower, _) = decode(codewords[2 * i + 1]);
        let byte = merge(upper, lower);
        bytes.push(byte);
        proof {
            assert(bytes@ =~= spec_decode_merge(codewords@).take(i as int + 1));
        }
        i = i + 1;
    }
    proof {
        assert(bytes@ =~= spec_decode_merge(codewords@));
    }
    Ok(bytes)
}

} // verus!
