use vstd::prelude::*;

verus! {

/// The ways in which reading or changing a PNG file can fail.
#[derive(Debug, Clone, Copy, PartialEq, Eq, Structural)]
pub enum PngError {
    /// A chunk type holds a byte that is not an ASCII letter, or is not four characters long.
    InvalidChunkType,
    /// Fewer bytes are left than a chunk's header or declared length needs.
    TruncatedChunk,
    /// The checksum stored with a chunk disagrees with the one computed over its type and data.
    CrcMismatch,
    /// The file does not start with the PNG signature.
    BadSignature,
    /// Bytes are left after the last chunk that are too few to hold a chunk header.
    TrailingBytes,
    /// No chunk of the requested type is in the file.
    ChunkNotFound,
    /// A chunk's data is not valid UTF-8.
    NotUtf8,
}

} // verus!
