use crate::chunk_error::ChunkError;
use vstd::prelude::*;

verus! {

/// Failure cases of container-level operations; chunk failures are wrapped.
#[derive(Debug, Clone, Copy, PartialEq, Eq, Structural)]
pub enum PngError {
    /// The buffer does not start with the fixed eight-byte signature.
    BadHeader,
    /// The leading image-header chunk or the trailing end chunk is absent.
    MissingRequiredChunks,
    /// No chunk with the requested type code exists in the container.
    ChunkNotFound,
    /// Catch-all, also used when a type-code string is rejected.
    GenericError,
    /// Reading or writing the underlying file failed; raised by callers
    /// that perform the actual input and output.
    IOError,
    /// A chunk inside the buffer failed to decode.
    ChunkError(ChunkError),
}

} // verus!
