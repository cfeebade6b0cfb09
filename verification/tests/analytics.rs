use mmcp::analytics::analyze;
use mmcp::analytics::count_ones;
use mmcp::analytics::residual_bit_errors;
use mmcp::analytics::Analytics;
use mmcp::analytics::RunMetrics;
use mmcp::CodecError;

#[test]
fn count_ones_exact_values() {
    assert_eq!(count_ones(0x00), 0);
    assert_eq!(count_ones(0x01), 1);
    assert_eq!(count_ones(0xA5), 4);
    assert_eq!(count_ones(0xFF), 8);
}

#[test]
fn residual_error_scenario() {
    // Population count of 0x00 ^ 0x01 plus that of 0xFF ^ 0xFF: 1 + 0 = 1.
    let original = vec![0x00, 0xFF];
    let received = vec![0x01, 0xFF];
    assert_eq!(residual_bit_errors(&original, &received), Ok(1));
}

#[test]
fn residual_is_zero_on_identical_sequences() {
    let data = vec![0x12, 0x34, 0x56];
    assert_eq!(residual_bit_errors(&data, &data), Ok(0));
    assert_eq!(residual_bit_errors(&vec![], &vec![]), Ok(0));
}

#[test]
fn residual_counts_every_position() {
    let original = vec![0xFF, 0x0F, 0x00];
    let received = vec![0x00, 0x0F, 0x01];
    assert_eq!(residual_bit_errors(&original, &received), Ok(9));
}

#[test]
fn residual_rejects_length_mismatch() {
    assert_eq!(
        residual_bit_errors(&vec![0x00], &vec![0x00, 0x01]),
        Err(CodecError::LengthMismatch)
    );
}

#[test]
fn analyze_builds_the_record() {
    let original = vec![0x00, 0xFF];
    let received = vec![0x01, 0xFF];
    let metrics = RunMetrics {
        end_to_end_micros: 1250,
        input_byte_count: 2,
        channel_byte_count: 8,
    };
    let record = analyze(&original, &received, 17, metrics);
    assert_eq!(
        record,
        Ok(Analytics {
            residual_bit_errors: 1,
            channel_bit_errors: 17,
            input_byte_count: 2,
            channel_byte_count: 8,
            end_to_end_micros: 1250,
        })
    );
}

#[test]
fn analyze_rejects_length_mismatch() {
    let metrics = RunMetrics {
        end_to_end_micros: 0,
        input_byte_count: 0,
        channel_byte_count: 0,
    };
    assert_eq!(
        analyze(&vec![1, 2, 3], &vec![1, 2], 0, metrics),
        Err(CodecError::LengthMismatch)
    );
}
