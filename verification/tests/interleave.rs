use mmcp::interleave::deinterleave;
use mmcp::interleave::interleave;
use mmcp::CodecError;

fn round_trip(codewords: Vec<u8>) {
    let (sent, pad) = interleave(&codewords);
    assert_eq!(sent.len() % 8, 0);
    assert_eq!(sent.len(), codewords.len() + pad);
    assert_eq!(deinterleave(&sent, pad), Ok(codewords));
}

#[test]
fn round_trip_empty_sequence() {
    round_trip(vec![]);
}

#[test]
fn round_trip_single_codeword() {
    round_trip(vec![0xC3]);
}

#[test]
fn round_trip_partial_block() {
    round_trip(vec![0x01, 0x80, 0xFF, 0x55, 0xAA]);
}

#[test]
fn round_trip_exact_block() {
    round_trip(vec![1, 2, 4, 8, 16, 32, 64, 128]);
}

#[test]
fn round_trip_two_blocks() {
    round_trip((0..16u8).map(|i| i.wrapping_mul(37)).collect());
}

#[test]
fn round_trip_two_blocks_and_one() {
    round_trip((0..17u8).map(|i| 255 - i).collect());
}

#[test]
fn pad_is_recorded_explicitly() {
    // 5 codewords need 3 pads to reach one block.
    let (sent, pad) = interleave(&vec![1, 2, 3, 4, 5]);
    assert_eq!(pad, 3);
    assert_eq!(sent.len(), 8);
    // An aligned sequence still carries an explicit pad length of zero, so
    // the stripping step on the far side is unconditional and symmetric.
    let (sent, pad) = interleave(&vec![0; 8]);
    assert_eq!(pad, 0);
    assert_eq!(sent.len(), 8);
}

#[test]
fn interleaved_byte_gathers_one_bit_per_codeword() {
    // Block of 8 codewords, codeword j being 1 << j: bit j of every
    // codeword is set exactly when the codeword index equals j, so
    // transmitted byte i, which carries bit i of every codeword, must be
    // 1 << i.
    let block: Vec<u8> = (0..8u8).map(|j| 1 << j).collect();
    let (sent, pad) = interleave(&block);
    assert_eq!(pad, 0);
    for i in 0..8usize {
        assert_eq!(sent[i], 1 << i);
    }
}

#[test]
fn deinterleave_rejects_misaligned_input() {
    assert_eq!(
        deinterleave(&vec![0; 7], 0),
        Err(CodecError::BlockMisaligned)
    );
    assert_eq!(
        deinterleave(&vec![0; 9], 1),
        Err(CodecError::BlockMisaligned)
    );
}

#[test]
fn deinterleave_rejects_pad_longer_than_sequence() {
    assert_eq!(deinterleave(&vec![0; 8], 9), Err(CodecError::PadTooLong));
}
