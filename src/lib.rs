//! Chunk-level reading and writing of PNG files: chunk types and their
//! property bits, checksummed chunks, and the whole-file container.

pub mod bytes;
pub mod chunk;
pub mod chunk_type;
pub mod commands;
pub mod error;
pub mod png;
pub mod text;

pub use chunk::Chunk;
pub use chunk_type::ChunkType;
pub use error::PngError;
pub use png::Png;
