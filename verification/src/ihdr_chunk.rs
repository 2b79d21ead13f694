//! The image header: the thirteen-byte payload of an `IHDR` chunk.

use crate::chunk::{Chunk, ChunkView};
use crate::endian::{be_u32, read_be_u32};
use crate::text::{decimal, push_decimal};
use vstd::prelude::*;
use vstd::std_specs::convert::TryFromSpecImpl;
use vstd::string::StringExecFns;

verus! {

/// Why a chunk could not be read as an image header.
#[derive(Debug, PartialEq, Eq, Clone, Copy, Structural)]
pub enum IhdrChunkError {
    /// The payload is not exactly thirteen bytes long.
    InvalidLength,
}

/// The fields of an image header.
///
/// Which bit depths go with which colour type:
///
/// | Colour type | Bit depths     | Each pixel is                            |
/// |-------------|----------------|------------------------------------------|
/// | 0           | 1, 2, 4, 8, 16 | a grayscale sample                       |
/// | 2           | 8, 16          | an RGB triple                            |
/// | 3           | 1, 2, 4, 8     | a palette index; a `PLTE` chunk follows  |
/// | 4           | 8, 16          | a grayscale sample and an alpha sample   |
/// | 6           | 8, 16          | an RGB triple and an alpha sample        |
#[derive(Debug, PartialEq, Eq, Clone, Copy, Structural)]
pub struct IhdrChunk {
    /// Width of the image in pixels.
    pub width: u32,
    /// Height of the image in pixels.
    pub height: u32,
    /// Bits per sample or per palette index.
    pub bit_depth: u8,
    /// How pixels are to be read.
    pub color_type: u8,
    /// How the image data is compressed.
    pub compression_method: u8,
    /// How scanlines are filtered before compression.
    pub filter_method: u8,
    /// In what order the pixels are transmitted.
    pub interlace_method: u8,
}

/// The number of payload bytes in an image header.
pub const HEADER_LENGTH: u32 = 13;

/// The header that a payload of thirteen bytes spells out: two big-endian
/// integers and five single bytes.
pub open spec fn header_fields(data: Seq<u8>) -> IhdrChunk
    recommends
        data.len() == 13,
{
    IhdrChunk {
        width: be_u32(data.subrange(0, 4)),
        height: be_u32(data.subrange(4, 8)),
        bit_depth: data[8],
        color_type: data[9],
        compression_method: data[10],
        filter_method: data[11],
        interlace_method: data[12],
    }
}

/// What reading `chunk` as an image header yields.
pub open spec fn header_of(chunk: ChunkView) -> Result<IhdrChunk, IhdrChunkError> {
    if chunk.length != HEADER_LENGTH {
        Err(IhdrChunkError::InvalidLength)
    } else {
        Ok(header_fields(chunk.data))
    }
}

/// The line that describes a header.
pub open spec fn header_line(header: IhdrChunk) -> Seq<char> {
    "IHDR : "@ + decimal(header.width as nat) + "x"@ + decimal(header.height as nat)
        + " bith_depth="@ + decimal(header.bit_depth as nat) + ", color_type="@ + decimal(
        header.color_type as nat,
    ) + ", compression_method="@ + decimal(header.compression_method as nat)
        + ", filter_method="@ + decimal(header.filter_method as nat) + ", interlace_method="@
        + decimal(header.interlace_method as nat) + "\n"@
}

/// What is wrong with a chunk that is no image header, in words.
pub open spec fn header_error_message(error: IhdrChunkError) -> Seq<char> {
    "IHDR chunk must be exactly 13 bytes long"@
}

impl IhdrChunkError {
    /// The error in words.
    pub fn to_string(&self) -> (text: String)
        ensures
            text@ == header_error_message(*self),
    {
        String::from_str("IHDR chunk must be exactly 13 bytes long")
    }
}

impl IhdrChunk {
    /// Reads the header fields from the payload of `chunk`.
    pub fn from_chunk(chunk: &Chunk) -> (r: Result<IhdrChunk, IhdrChunkError>)
        ensures
            r == header_of(chunk@),
    {
        if chunk.len() != HEADER_LENGTH {
            return Err(IhdrChunkError::InvalidLength);
        }
        let data = chunk.data();
        Ok(
            IhdrChunk {
                width: read_be_u32(data, 0),
                height: read_be_u32(data, 4),
                bit_depth: data[8],
                color_type: data[9],
                compression_method: data[10],
                filter_method: data[11],
                interlace_method: data[12],
            },
        )
    }

    /// The header as one line of text.
    pub fn to_string(&self) -> (text: String)
        ensures
            text@ == header_line(*self),
    {
        let mut text = String::from_str("IHDR : ");
        push_decimal(&mut text, self.width as u64);
        text.append("x");
        push_decimal(&mut text, self.height as u64);
        text.append(" bith_depth=");
        push_decimal(&mut text, self.bit_depth as u64);
        text.append(", color_type=");
        push_decimal(&mut text, self.color_type as u64);
        text.append(", compression_method=");
        push_decimal(&mut text, self.compression_method as u64);
        text.append(", filter_method=");
        push_decimal(&mut text, self.filter_method as u64);
        text.append(", interlace_method=");
        push_decimal(&mut text, self.interlace_method as u64);
        text.append("\n");
        assert(text@ =~= header_line(*self));
        text
    }
}

impl TryFrom<Chunk> for IhdrChunk {
    type Error = IhdrChunkError;

    /// Reads the header fields from the payload of `chunk`.
    fn try_from(chunk: Chunk) -> (r: Result<IhdrChunk, IhdrChunkError>)
        ensures
            r == header_of(chunk@),
    {
        IhdrChunk::from_chunk(&chunk)
    }
}

impl TryFromSpecImpl<Chunk> for IhdrChunk {
    open spec fn obeys_try_from_spec() -> bool {
        true
    }

    open spec fn try_from_spec(chunk: Chunk) -> Result<Self, Self::Error> {
        header_of(chunk@)
    }
}

} // verus!
