use mmcp::codec::encode_all;
use mmcp::interleave::deinterleave;
use mmcp::pipeline::decode_data;
use mmcp::pipeline::encode_data;
use mmcp::CodecError;

#[test]
fn zero_error_channel_reproduces_every_byte_value() {
    let data: Vec<u8> = (0..=255u8).collect();
    let (sent, pad) = encode_data(&data);
    assert_eq!(decode_data(&sent, pad), Ok(data));
}

#[test]
fn zero_error_channel_empty_message() {
    let (sent, pad) = encode_data(&vec![]);
    assert_eq!(sent.len(), 0);
    assert_eq!(pad, 0);
    assert_eq!(decode_data(&sent, pad), Ok(vec![]));
}

#[test]
fn five_byte_message_two_blocks_pad_six() {
    // 5 bytes become 10 codewords, padded to 16 codewords = 2 blocks,
    // with a pad length of 6 recorded for the far side.
    let message = vec![0x48, 0x61, 0x6D, 0x6D, 0x21];
    let codewords = encode_all(&message);
    assert_eq!(codewords.len(), 10);
    let (sent, pad) = encode_data(&message);
    assert_eq!(pad, 6);
    assert_eq!(sent.len(), 16);
    // Over a zero-error channel the deinterleaver reproduces the original
    // 10 codewords byte for byte...
    assert_eq!(deinterleave(&sent, pad), Ok(codewords));
    // ... and the full decode returns the message.
    assert_eq!(decode_data(&sent, pad), Ok(message));
}

#[test]
fn burst_of_eight_transmitted_bits_is_fully_corrected() {
    // A burst of 8 consecutive corrupted transmitted bits lands, after
    // deinterleaving, on at most one bit of each codeword, which the
    // single-error-correcting code always fixes.
    let message = vec![0xDE, 0xAD, 0xBE, 0xEF, 0x01, 0x23, 0x45, 0x67];
    let (sent, pad) = encode_data(&message);
    assert_eq!(pad, 0);
    for start in [0usize, 13, 56, 120] {
        let mut damaged = sent.clone();
        for p in start..start + 8 {
            damaged[p / 8] ^= 1 << (p % 8);
        }
        assert_ne!(damaged, sent);
        assert_eq!(decode_data(&damaged, pad), Ok(message.clone()));
    }
}

#[test]
fn shorter_bursts_anywhere_in_a_block_are_corrected() {
    let message = vec![0xA5, 0x5A, 0xFF, 0x00];
    let (sent, pad) = encode_data(&message);
    let total_bits = sent.len() * 8;
    for k in 1..=8usize {
        for start in 0..=(total_bits - k) {
            let mut damaged = sent.clone();
            for p in start..start + k {
                damaged[p / 8] ^= 1 << (p % 8);
            }
            assert_eq!(decode_data(&damaged, pad), Ok(message.clone()));
        }
    }
}

#[test]
fn decode_data_rejects_misaligned_input() {
    assert_eq!(
        decode_data(&vec![0; 12], 0),
        Err(CodecError::BlockMisaligned)
    );
}

#[test]
fn decode_data_rejects_pad_longer_than_sequence() {
    assert_eq!(decode_data(&vec![0; 8], 20), Err(CodecError::PadTooLong));
}

#[test]
fn decode_data_rejects_odd_codeword_count() {
    // Aligned input whose pad leaves an odd number of codewords.
    assert_eq!(
        decode_data(&vec![0; 8], 1),
        Err(CodecError::OddCodewordCount)
    );
}
