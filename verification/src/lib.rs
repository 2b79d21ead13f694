//! Reading, editing and writing the chunk container of PNG files.
//!
//! A container is the fixed eight-byte signature followed by records
//! ("chunks"), each framed as a big-endian length, a four-letter type code,
//! the payload and a CRC-32 over type code and payload. The crate parses a
//! buffer into chunks, lets callers append, find and remove chunks by type,
//! and serialises the result; parsing and serialising are proved to be
//! inverses of each other.

pub mod checksum;
pub mod chunk;
pub mod chunk_type;
pub mod commands;
pub mod endian;
pub mod idat_chunk;
pub mod ihdr_chunk;
pub mod png;
pub mod text;
