use vstd::prelude::*;

verus! {

/// Failure cases of decoding or examining a single chunk record.
#[derive(Debug, Clone, Copy, PartialEq, Eq, Structural)]
pub enum ChunkError {
    /// The stored checksum differs from the one computed over type and data.
    BadCRC,
    /// The buffer is shorter than the smallest possible record (12 bytes).
    TooShort,
    /// The declared data length overruns the end of the buffer.
    TooLong,
    /// Catch-all for capability checks, such as rejected type-code text.
    GenericError,
}

} // verus!
