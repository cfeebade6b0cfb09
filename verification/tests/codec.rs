use mmcp::codec::decode;
use mmcp::codec::decode_all;
use mmcp::codec::encode;
use mmcp::codec::encode_all;
use mmcp::codec::encode_nibble;
use mmcp::codec::get_error_index;
use mmcp::codec::get_info_bits;
use mmcp::codec::merge;
use mmcp::CodecError;

#[test]
fn round_trip_identity_all_bytes() {
    for b in 0..=255u8 {
        let (upper_cw, lower_cw) = encode(b);
        let (upper, corrected_upper) = decode(upper_cw);
        let (lower, corrected_lower) = decode(lower_cw);
        assert!(!corrected_upper);
        assert!(!corrected_lower);
        assert_eq!(merge(upper, lower), b);
    }
}

#[test]
fn single_bit_correction_all_nibbles_all_positions() {
    for nibble in 0..16u8 {
        let codeword = encode_nibble(nibble);
        for position in 0..8u8 {
            let damaged = codeword ^ (1 << position);
            let (decoded, corrected) = decode(damaged);
            assert_eq!(decoded, nibble);
            // A flip of the reserved bit 0 passes every parity check and
            // goes unreported; any other flip is located and reported.
            assert_eq!(corrected, position != 0);
        }
    }
}

#[test]
fn encoded_codewords_pass_all_parity_checks() {
    for nibble in 0..16u8 {
        let codeword = encode_nibble(nibble);
        assert_eq!(get_error_index(codeword), 0);
        assert_eq!(get_info_bits(codeword), nibble);
        // Reserved bit 0 stays clear.
        assert_eq!(codeword & 1, 0);
    }
}

#[test]
fn scenario_a5_data_bits_and_parity() {
    let (upper_cw, lower_cw) = encode(0xA5);
    // Data bits of the two codewords are the two nibbles of 0xA5.
    assert_eq!(get_info_bits(upper_cw), 0b1010);
    assert_eq!(get_info_bits(lower_cw), 0b0101);
    // The parity bits satisfy the fixed parity relations: bit 1 covers
    // data indices {3, 5, 7}, bit 2 covers {3, 6, 7}, bit 4 covers
    // {5, 6, 7}.
    for cw in [upper_cw, lower_cw] {
        let bit = |i: u8| (cw >> i) & 1;
        assert_eq!(bit(1), bit(3) ^ bit(5) ^ bit(7));
        assert_eq!(bit(2), bit(3) ^ bit(6) ^ bit(7));
        assert_eq!(bit(4), bit(5) ^ bit(6) ^ bit(7));
    }
    // Decoding with zero flips returns the nibbles unchanged.
    assert_eq!(decode(upper_cw), (0b1010, false));
    assert_eq!(decode(lower_cw), (0b0101, false));
    // Decoding with exactly one flipped bit, any of the 8 positions,
    // still returns the original nibble.
    for position in 0..8u8 {
        let (upper, _) = decode(upper_cw ^ (1 << position));
        let (lower, _) = decode(lower_cw ^ (1 << position));
        assert_eq!(upper, 0b1010);
        assert_eq!(lower, 0b0101);
    }
}

#[test]
fn merge_is_exact_left_inverse_of_split() {
    assert_eq!(merge(0xA, 0x5), 0xA5);
    assert_eq!(merge(0x0, 0x0), 0x00);
    assert_eq!(merge(0xF, 0xF), 0xFF);
}

#[test]
fn encode_all_two_codewords_per_byte() {
    let data = vec![0xA5, 0x00, 0xFF];
    let codewords = encode_all(&data);
    assert_eq!(codewords.len(), 6);
    assert_eq!(codewords[0], encode(0xA5).0);
    assert_eq!(codewords[1], encode(0xA5).1);
    assert_eq!(codewords[4], encode(0xFF).0);
    assert_eq!(codewords[5], encode(0xFF).1);
}

#[test]
fn decode_all_rejects_odd_codeword_count() {
    let codewords = vec![encode_nibble(3)];
    assert_eq!(decode_all(&codewords), Err(CodecError::OddCodewordCount));
}

#[test]
fn decode_all_inverts_encode_all() {
    let data = vec![0x00, 0x12, 0xA5, 0xFF];
    let codewords = encode_all(&data);
    assert_eq!(decode_all(&codewords), Ok(data));
}

#[test]
fn two_flips_in_one_codeword_miscorrect() {
    // The known limit of a single-error-correcting code: two flips inside
    // one codeword produce a wrong syndrome and a wrong "correction".
    let codeword = encode_nibble(0);
    let damaged = codeword ^ (1 << 1) ^ (1 << 2);
    let (decoded, corrected) = decode(damaged);
    assert!(corrected);
    assert_ne!(decoded, 0);
}
