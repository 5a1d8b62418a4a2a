//! The error taxonomy shared by every operation that can fail: exact-size
//! and growing decompression, and the batch decompress(-and-decode)
//! operations.  Pure decoders never fail and do not use it.

use vstd::prelude::*;

verus! {

/// Why a decompression or batch operation failed.
#[derive(Clone, Copy, Debug, PartialEq, Eq, Structural)]
pub enum DecodeError {
    /// The provided output capacity is smaller than the decompressed
    /// stream (fatal in the exact-size path; in a batch, a sub-block grew
    /// past the declared per-block bound).
    InsufficientSpace,
    /// The stream decompressed to fewer bytes than the exact-size path's
    /// declared capacity: the true size differs from the capacity.
    CapacityMismatch,
    /// The compressed bytes are not a well-formed raw-deflate stream.
    Malformed,
    /// The decompressed output would exceed the growth cap, or a packed
    /// result field would not fit its 32-bit slot.
    OutputTooLarge,
    /// A declared sub-block range lies outside the input buffer, is
    /// shorter than the stripped prefix, or a decoded block declares more
    /// records than its bytes hold.
    OutOfBounds,
}

impl DecodeError {
    /// A human-readable description of the error.
    pub fn message(&self) -> &'static str {
        match self {
            DecodeError::InsufficientSpace => "decompression output buffer too small",
            DecodeError::CapacityMismatch => "decompressed size differs from the declared capacity",
            DecodeError::Malformed => "decompression failed: malformed deflate stream",
            DecodeError::OutputTooLarge => "decompression output too large",
            DecodeError::OutOfBounds => "declared block range lies outside the buffer",
        }
    }
}

} // verus!
