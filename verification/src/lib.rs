//! A forward-error-correction library: a Hamming(7,4) block code over
//! 8-bit codewords, combined with block bit-interleaving so that burst
//! errors on the transmission medium are spread across independent
//! codewords, plus the residual-error accounting that compares a stream
//! before and after its round trip.

use vstd::prelude::*;

pub mod analytics;
pub mod codec;
pub mod interleave;
pub mod pipeline;

verus! {

/// A structural invariant of the codec or interleaver was violated by the
/// caller's data. These conditions signal a bug in the surrounding pipeline,
/// never channel noise, so they are reported loudly instead of being patched
/// over.
#[derive(Clone, Copy, Debug, PartialEq, Eq, Structural)]
pub enum CodecError {
    /// A transmitted byte sequence whose length is not a multiple of the
    /// 8-byte block size was handed to the deinterleaver.
    BlockMisaligned,
    /// A recorded pad length exceeds the length of the sequence it should
    /// be stripped from.
    PadTooLong,
    /// A codeword sequence with an odd number of codewords cannot be merged
    /// into whole bytes: every byte decodes from exactly two codewords.
    OddCodewordCount,
    /// Residual-error comparison was asked of two sequences of different
    /// lengths, which the round trip can never produce.
    LengthMismatch,
}

} // verus!
