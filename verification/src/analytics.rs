//! Residual-error accounting: after a round trip, the original and the
//! final byte sequence are compared bit for bit, and the number of bits
//! the code failed to correct is combined with the channel's own counters
//! into one immutable record per run. Reading the two streams and
//! rendering the comparison table stay with the caller; this module owns
//! only the comparison itself.

use vstd::prelude::*;

use crate::codec::bit_at;
use crate::CodecError;

verus! {

/// The number of set bits in a byte.
pub open spec fn spec_ones(b: u8) -> int {
    bit_at(b, 0) + bit_at(b, 1) + bit_at(b, 2) + bit_at(b, 3) + bit_at(b, 4) + bit_at(b, 5)
        + bit_at(b, 6) + bit_at(b, 7)
}

/// The residual bit errors over the first `n` positions of two sequences:
/// the population count of the bytewise XOR, summed position by position.
pub open spec fn spec_residual(a: Seq<u8>, b: Seq<u8>, n: int) -> int
    decreases n,
{
    if n <= 0 {
        0
    } else {
        spec_residual(a, b, n - 1) + spec_ones(a[n - 1] ^ b[n - 1])
    }
}

/// Count the set bits of one byte.
pub fn count_ones(b: u8) -> (n: u8)
    ensures
        n == spec_ones(b),
        n <= 8,
{
    proof {
        assert((b >> 0) & 1 <= 1 && (b >> 1) & 1 <= 1 && (b >> 2) & 1 <= 1 && (b >> 3) & 1 <= 1 && (
        b >> 4) & 1 <= 1 && (b >> 5) & 1 <= 1 && (b >> 6) & 1 <= 1 && (b >> 7) & 1 <= 1)
            by (bit_vector);
    }
    ((b >> 0) & 1) + ((b >> 1) & 1) + ((b >> 2) & 1) + ((b >> 3) & 1) + ((b >> 4) & 1) + ((b >> 5)
        & 1) + ((b >> 6) & 1) + ((b >> 7) & 1)
}

/// Count the bit positions at which two equal-length byte sequences
/// differ. Fails if and only if the lengths differ, which a sound
/// round trip can never produce.
pub fn residual_bit_errors(original: &Vec<u8>, received: &Vec<u8>) -> (r: Result<
    u64,
    CodecError,
>)
    requires
        8 * original@.len() <= u64::MAX,
    ensures
        match r {
            Ok(n) => original@.len() == received@.len() && n == spec_residual(
                original@,
                received@,
                original@.len() as int,
            ),
            Err(e) => original@.len() != received@.len() && e == CodecError::LengthMismatch,
        },
{
    if original.len() != received.len() {
        return Err(CodecError::LengthMismatch);
    }
    let mut total: u64 = 0;
    let mut i: usize = 0;
    while i < original.len()
        invariant
            i <= original@.len(),
            original@.len() == received@.len(),
            8 * original@.len() <= u64::MAX,
            total == spec_residual(original@, received@, i as int),
            total <= 8 * i,
        decreases original.len() - i,
    {
        let ones = count_ones(original[i] ^ received[i]);
        total = total + ones as u64;
        i = i + 1;
    }
    Ok(total)
}

/// What the pipeline runner measures about one run: how long the full
/// traversal took and how many bytes crossed each side of the codec, the
/// latter pair capturing the code-rate overhead.
#[derive(Clone, Copy, Debug, PartialEq, Eq, Structural)]
pub struct RunMetrics {
    /// Wall-clock duration of the run, in microseconds.
    pub end_to_end_micros: u64,
    /// Bytes entering the encoder.
    pub input_byte_count: u32,
    /// Bytes leaving the encoder, i.e. crossing the channel.
    pub channel_byte_count: u32,
}

/// One immutable record per run: the runner's metrics, the channel's
/// cumulative bit-error count, and the residual errors left after the
/// round trip. Appended to a results list in configuration order and
/// consumed only by the final report.
#[derive(Clone, Copy, Debug, PartialEq, Eq, Structural)]
pub struct Analytics {
    /// Bit positions still wrong after decoding, compared to the original.
    pub residual_bit_errors: u64,
    /// Bit flips the channel reports having introduced.
    pub channel_bit_errors: u32,
    /// Bytes entering the encoder.
    pub input_byte_count: u32,
    /// Bytes crossing the channel.
    pub channel_byte_count: u32,
    /// Wall-clock duration of the run, in microseconds.
    pub end_to_end_micros: u64,
}

/// Build the analytics record of one run from the original and the
/// round-tripped byte sequence, the channel's bit-error counter and the
/// runner's metrics. Fails if and only if the two sequences differ in
/// length, which signals a codec or interleaver invariant violation, not
/// channel noise.
pub fn analyze(
    original: &Vec<u8>,
    received: &Vec<u8>,
    channel_bit_errors: u32,
    run_metrics: RunMetrics,
) -> (r: Result<Analytics, CodecError>)
    requires
        8 * original@.len() <= u64::MAX,
    ensures
        match r {
            Ok(a) => original@.len() == received@.len() && a == (Analytics {
                residual_bit_errors: spec_residual(
                    original@,
                    received@,
                    original@.len() as int,
                ) as u64,
                channel_bit_errors,
                input_byte_count: run_metrics.input_byte_count,
                channel_byte_count: run_metrics.channel_byte_count,
                end_to_end_micros: run_metrics.end_to_end_micros,
            }),
            Err(e) => original@.len() != received@.len() && e == CodecError::LengthMismatch,
        },
{
    let residual = residual_bit_errors(original, received)?;
    Ok(
        Analytics {
            residual_bit_errors: residual,
            channel_bit_errors,
            input_byte_count: run_metrics.input_byte_count,
            channel_byte_count: run_metrics.channel_byte_count,
            end_to_end_micros: run_metrics.end_to_end_micros,
        },
    )
}

} // verus!
