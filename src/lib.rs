//! Codec for PNG-style chunks: a length-prefixed, type-tagged record
//! protected by a CRC-32 checksum.

pub mod chunk;
pub mod chunk_type;
pub mod text;
