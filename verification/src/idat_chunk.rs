//! The thirteen-byte record of dimensions and methods, as a type of its own
//! beside [`IhdrChunk`].

use crate::chunk::{Chunk, ChunkView};
use crate::ihdr_chunk::{header_error_message, header_line, header_of, IhdrChunk, IhdrChunkError};
use vstd::prelude::*;
use vstd::std_specs::convert::TryFromSpecImpl;

verus! {

/// Why a chunk could not be read as an [`IdatChunk`].
#[derive(Debug, PartialEq, Eq, Clone, Copy, Structural)]
pub enum IdatChunkError {
    /// The payload is not exactly thirteen bytes long.
    InvalidLength,
}

/// The record read from a payload of thirteen bytes: two dimensions and five
/// methods, laid out and described as the fields of an [`IhdrChunk`] are.
#[derive(Debug, PartialEq, Eq, Clone, Copy, Structural)]
pub struct IdatChunk {
    /// Width of the image in pixels.
    pub width: u32,
    /// Height of the image in pixels.
    pub height: u32,
    /// Bits per sample or per palette index.
    pub bit_depth: u8,
    /// How pixels are to be read.
    pub color_type: u8,
    /// How the image data is compressed.
    pub compression_method: u8,
    /// How scanlines are filtered before compression.
    pub filter_method: u8,
    /// In what order the pixels are transmitted.
    pub interlace_method: u8,
}

/// What reading `chunk` as an [`IdatChunk`] yields: what reading it as an
/// image header yields, field for field.
pub open spec fn record_of(chunk: ChunkView) -> Result<IdatChunk, IdatChunkError> {
    match header_of(chunk) {
        Ok(header) => Ok(
            IdatChunk {
                width: header.width,
                height: header.height,
                bit_depth: header.bit_depth,
                color_type: header.color_type,
                compression_method: header.compression_method,
                filter_method: header.filter_method,
                interlace_method: header.interlace_method,
            },
        ),
        Err(_) => Err(IdatChunkError::InvalidLength),
    }
}

impl IdatChunkError {
    /// The error in words.
    pub fn to_string(&self) -> (text: String)
        ensures
            text@ == header_error_message(IhdrChunkError::InvalidLength),
    {
        IhdrChunkError::InvalidLength.to_string()
    }
}

impl IdatChunk {
    /// The image header with the same fields.
    pub open spec fn header(self) -> IhdrChunk {
        IhdrChunk {
            width: self.width,
            height: self.height,
            bit_depth: self.bit_depth,
            color_type: self.color_type,
            compression_method: self.compression_method,
            filter_method: self.filter_method,
            interlace_method: self.interlace_method,
        }
    }

    /// Reads the fields from the payload of `chunk`.
    pub fn from_chunk(chunk: &Chunk) -> (r: Result<IdatChunk, IdatChunkError>)
        ensures
            r == record_of(chunk@),
    {
        match IhdrChunk::from_chunk(chunk) {
            Ok(header) => Ok(
                IdatChunk {
                    width: header.width,
                    height: header.height,
                    bit_depth: header.bit_depth,
                    color_type: header.color_type,
                    compression_method: header.compression_method,
                    filter_method: header.filter_method,
                    interlace_method: header.interlace_method,
                },
            ),
            Err(_) => Err(IdatChunkError::InvalidLength),
        }
    }

    /// The record as one line of text: the line of the image header with the
    /// same fields.
    pub fn to_string(&self) -> (text: String)
        ensures
            text@ == header_line(self.header()),
    {
        let header = IhdrChunk {
            width: self.width,
            height: self.height,
            bit_depth: self.bit_depth,
            color_type: self.color_type,
            compression_method: self.compression_method,
            filter_method: self.filter_method,
            interlace_method: self.interlace_method,
        };
        header.to_string()
    }
}

impl TryFrom<Chunk> for IdatChunk {
    type Error = IdatChunkError;

    /// Reads the fields from the payload of `chunk`.
    fn try_from(chunk: Chunk) -> (r: Result<IdatChunk, IdatChunkError>)
        ensures
            r == record_of(chunk@),
    {
        IdatChunk::from_chunk(&chunk)
    }
}

impl TryFromSpecImpl<Chunk> for IdatChunk {
    open spec fn obeys_try_from_spec() -> bool {
        true
    }

    open spec fn try_from_spec(chunk: Chunk) -> Result<Self, Self::Error> {
        record_of(chunk@)
    }
}

} // verus!
