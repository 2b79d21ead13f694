//! A single chunk: length, type code, payload and checksum.

use crate::checksum::{checksum, crc32_iso_hdlc};
use crate::chunk_type::{is_type_code, parse_type_code, role_of, ChunkType, ChunkTypeError, Types};
use crate::endian::{
    be_bytes, be_u32, lemma_be_bytes_of_be_u32, lemma_be_u32_injective, lemma_be_u32_of_be_bytes,
    push_be_u32, read_be_u32,
};
use crate::ihdr_chunk::{header_line, header_of, IhdrChunk};
use crate::text::{byte_list, decimal, latin, push_byte_list, push_decimal, string_from_utf8};
use vstd::prelude::*;
use vstd::slice::{slice_subrange, slice_to_vec, spec_slice_len};
use vstd::std_specs::convert::TryFromSpecImpl;
use vstd::string::StringExecFns;
use vstd::utf8::{decode_utf8, encode_utf8_decode_utf8, valid_utf8};

verus! {

broadcast use vstd::slice::axiom_spec_len;

/// Why a chunk could not be read or built.
#[derive(Debug, PartialEq, Eq, Clone, Copy, Structural)]
pub enum ChunkError {
    /// The buffer ends before the chunk does.
    TooShort,
    /// The type code is not four ASCII letters.
    InvalidChunkType(ChunkTypeError),
    /// The stored checksum is not the checksum of type code and payload.
    InvalidCrc,
    /// The payload is longer than a 32-bit length can say.
    PayloadTooLarge,
    /// The payload is not UTF-8 text.
    NotText,
}

/// The defect in words.
pub open spec fn chunk_error_message(error: ChunkError) -> Seq<char> {
    match error {
        ChunkError::TooShort => "Input data must be at least 12 bytes long"@,
        ChunkError::InvalidChunkType(_) => "Invalid chunk type"@,
        ChunkError::InvalidCrc => "Invalid CRC"@,
        ChunkError::PayloadTooLarge => "Payload does not fit a 32-bit length"@,
        ChunkError::NotText => "Payload is not valid UTF-8"@,
    }
}

impl ChunkError {
    /// The defect in words.
    pub fn to_string(&self) -> (text: String)
        ensures
            text@ == chunk_error_message(*self),
    {
        match self {
            ChunkError::TooShort => String::from_str("Input data must be at least 12 bytes long"),
            ChunkError::InvalidChunkType(_) => String::from_str("Invalid chunk type"),
            ChunkError::InvalidCrc => String::from_str("Invalid CRC"),
            ChunkError::PayloadTooLarge => String::from_str("Payload does not fit a 32-bit length"),
            ChunkError::NotText => String::from_str("Payload is not valid UTF-8"),
        }
    }
}

/// The mathematical content of a chunk.
pub struct ChunkView {
    /// The length field.
    pub length: u32,
    /// The four bytes of the type code.
    pub code: Seq<u8>,
    /// The payload.
    pub data: Seq<u8>,
    /// The checksum field.
    pub crc: u32,
}

impl ChunkView {
    /// The fields agree with each other: the code is four letters, the length
    /// field counts the payload, and the checksum field is the checksum of
    /// code and payload.
    pub open spec fn wf(self) -> bool {
        &&& is_type_code(self.code)
        &&& self.length == self.data.len()
        &&& self.crc == crc32_iso_hdlc(self.code + self.data)
    }

    /// The chunk as it lies in a file: length, code, payload, checksum.
    pub open spec fn serialize(self) -> Seq<u8> {
        be_bytes(self.length) + self.code + self.data + be_bytes(self.crc)
    }
}

/// The chunk that is built from a type code and a payload: the length and
/// the checksum are computed from them.
pub open spec fn built(code: Seq<u8>, data: Seq<u8>) -> ChunkView {
    ChunkView { length: data.len() as u32, code, data, crc: crc32_iso_hdlc(code + data) }
}

/// The line that describes a chunk by length, type code and checksum.
pub open spec fn plain_line(chunk: ChunkView) -> Seq<char> {
    "Chunk: Data_len="@ + decimal(chunk.length as nat) + ", type="@ + latin(chunk.code)
        + ", crc="@ + decimal(chunk.crc as nat) + "\n"@
}

/// The line that describes a chunk together with its payload.
pub open spec fn data_line(chunk: ChunkView) -> Seq<char> {
    "Chunk: Data_len="@ + decimal(chunk.length as nat) + ", Data="@ + byte_list(chunk.data)
        + " , type="@ + latin(chunk.code) + ", crc="@ + decimal(chunk.crc as nat) + "\n"@
}

/// The line that describes a chunk, chosen by the role of its type code: the
/// header's fields for an image header of thirteen bytes, the payload for
/// image data, a fixed text for the end of the image, and the plain line for
/// everything else.
pub open spec fn summary(chunk: ChunkView) -> Seq<char> {
    match role_of(chunk.code) {
        Types::IHDR => match header_of(chunk) {
            Ok(header) => header_line(header),
            Err(_) => plain_line(chunk),
        },
        Types::IDAT => data_line(chunk),
        Types::IEND => "IEND : END OF IMAGE\n"@,
        _ => plain_line(chunk),
    }
}

/// The length field of the chunk at the head of `bytes`, provided the buffer
/// holds the twelve bytes of framing and the payload that the field announces.
pub open spec fn framed_length(bytes: Seq<u8>) -> Result<u32, ChunkError> {
    if bytes.len() < 12 {
        Err(ChunkError::TooShort)
    } else if bytes.len() < 12 + be_u32(bytes.subrange(0, 4)) {
        Err(ChunkError::TooShort)
    } else {
        Ok(be_u32(bytes.subrange(0, 4)))
    }
}

/// The bytes that the checksum of the chunk at the head of `bytes` covers:
/// its type code and payload. Empty where the buffer is too short.
pub open spec fn checked_region(bytes: Seq<u8>) -> Seq<u8> {
    match framed_length(bytes) {
        Ok(length) => bytes.subrange(4, 8 + length),
        Err(_) => Seq::empty(),
    }
}

/// What reading the chunk at the head of `bytes` yields when `sum` is the
/// checksum of its checked region: the chunk and the number of bytes it
/// occupies, or the first defect found. The buffer's length is examined
/// first, then the type code, then the checksum.
pub open spec fn parse_chunk_with(bytes: Seq<u8>, sum: u32) -> Result<(ChunkView, nat), ChunkError> {
    match framed_length(bytes) {
        Err(e) => Err(e),
        Ok(length) => match parse_type_code(bytes.subrange(4, 8)) {
            Err(e) => Err(ChunkError::InvalidChunkType(e)),
            Ok(code) => if be_u32(bytes.subrange(8 + length, 12 + length)) != sum {
                Err(ChunkError::InvalidCrc)
            } else {
                Ok(
                    (
                        ChunkView {
                            length,
                            code,
                            data: bytes.subrange(8, 8 + length),
                            crc: sum,
                        },
                        (12 + length) as nat,
                    ),
                )
            },
        },
    }
}

/// What reading the chunk at the head of `bytes` yields.
pub open spec fn parse_chunk(bytes: Seq<u8>) -> Result<(ChunkView, nat), ChunkError> {
    parse_chunk_with(bytes, crc32_iso_hdlc(checked_region(bytes)))
}

/// A chunk built from a valid type code and a payload that fits the length
/// field is well formed.
pub proof fn lemma_built_chunk_wf(code: Seq<u8>, data: Seq<u8>)
    requires
        is_type_code(code),
        data.len() <= u32::MAX,
    ensures
        built(code, data).wf(),
{
}

/// Serialising a chunk and reading it back gives the same chunk, and the
/// reader consumes exactly the serialised bytes, whatever follows them.
pub proof fn lemma_parse_serialized_chunk(chunk: ChunkView, rest: Seq<u8>)
    requires
        chunk.wf(),
    ensures
        parse_chunk(chunk.serialize() + rest) == Ok::<(ChunkView, nat), ChunkError>(
            (chunk, chunk.serialize().len()),
        ),
        chunk.serialize().len() == 12 + chunk.length,
{
    let bytes = chunk.serialize() + rest;
    let n = chunk.length as int;
    lemma_be_u32_of_be_bytes(chunk.length);
    lemma_be_u32_of_be_bytes(chunk.crc);
    assert(bytes.subrange(0, 4) =~= be_bytes(chunk.length));
    assert(bytes.subrange(4, 8) =~= chunk.code);
    assert(bytes.subrange(8, 8 + n) =~= chunk.data);
    assert(bytes.subrange(8 + n, 12 + n) =~= be_bytes(chunk.crc));
    assert(bytes.subrange(4, 8 + n) =~= chunk.code + chunk.data);
}

/// A chunk that was read is well formed, and serialising it gives back the
/// bytes it was read from.
pub proof fn lemma_serialize_parsed_chunk(bytes: Seq<u8>)
    requires
        parse_chunk(bytes) is Ok,
    ensures
        ({
            let (chunk, used) = parse_chunk(bytes).unwrap();
            &&& chunk.wf()
            &&& used == 12 + chunk.length
            &&& used <= bytes.len()
            &&& chunk.serialize() == bytes.subrange(0, used as int)
        }),
{
    let (chunk, used) = parse_chunk(bytes).unwrap();
    let n = chunk.length as int;
    lemma_be_bytes_of_be_u32(bytes.subrange(0, 4));
    lemma_be_bytes_of_be_u32(bytes.subrange(8 + n, 12 + n));
    assert(bytes.subrange(4, 8 + n) =~= chunk.code + chunk.data);
    assert(chunk.serialize() =~= bytes.subrange(0, used as int));
}

/// A serialised chunk whose checksum field was altered, and nothing else, is
/// rejected for its checksum.
pub proof fn lemma_altered_checksum_rejected(chunk: ChunkView, bytes: Seq<u8>)
    requires
        chunk.wf(),
        bytes.len() == chunk.serialize().len(),
        bytes.subrange(0, 8 + chunk.length) == chunk.serialize().subrange(0, 8 + chunk.length),
        bytes != chunk.serialize(),
    ensures
        parse_chunk(bytes) == Err::<(ChunkView, nat), ChunkError>(ChunkError::InvalidCrc),
{
    let good = chunk.serialize();
    let n = chunk.length as int;
    lemma_parse_serialized_chunk(chunk, Seq::empty());
    assert(good + Seq::<u8>::empty() =~= good);
    assert(bytes.subrange(0, 4) =~= bytes.subrange(0, 8 + n).subrange(0, 4));
    assert(good.subrange(0, 4) =~= good.subrange(0, 8 + n).subrange(0, 4));
    assert(bytes.subrange(4, 8) =~= bytes.subrange(0, 8 + n).subrange(4, 8));
    assert(good.subrange(4, 8) =~= good.subrange(0, 8 + n).subrange(4, 8));
    assert(bytes.subrange(4, 8 + n) =~= bytes.subrange(0, 8 + n).subrange(4, 8 + n));
    assert(good.subrange(4, 8 + n) =~= good.subrange(0, 8 + n).subrange(4, 8 + n));
    let field = bytes.subrange(8 + n, 12 + n);
    let good_field = good.subrange(8 + n, 12 + n);
    if be_u32(field) == be_u32(good_field) {
        lemma_be_u32_injective(field, good_field);
        assert(bytes =~= bytes.subrange(0, 8 + n) + field);
        assert(good =~= good.subrange(0, 8 + n) + good_field);
    }
}

/// A serialised chunk whose type code or payload was altered, the length and
/// checksum fields left alone, is rejected wherever the checksum of the
/// altered content differs from the stored one: for its checksum where the
/// type code is still four letters, for its type code otherwise.
pub proof fn lemma_altered_content_rejected(chunk: ChunkView, bytes: Seq<u8>)
    requires
        chunk.wf(),
        bytes.len() == chunk.serialize().len(),
        bytes.subrange(0, 4) == chunk.serialize().subrange(0, 4),
        bytes.subrange(8 + chunk.length, 12 + chunk.length) == chunk.serialize().subrange(
            8 + chunk.length,
            12 + chunk.length,
        ),
        crc32_iso_hdlc(bytes.subrange(4, 8 + chunk.length)) != crc32_iso_hdlc(
            chunk.code + chunk.data,
        ),
    ensures
        parse_chunk(bytes) == (if is_type_code(bytes.subrange(4, 8)) {
            Err::<(ChunkView, nat), ChunkError>(ChunkError::InvalidCrc)
        } else {
            Err::<(ChunkView, nat), ChunkError>(
                ChunkError::InvalidChunkType(ChunkTypeError::NotASCII),
            )
        }),
{
    lemma_parse_serialized_chunk(chunk, Seq::empty());
    assert(chunk.serialize() + Seq::<u8>::empty() =~= chunk.serialize());
}

/// A serialised chunk whose length field was altered, and nothing else, is
/// never read as the chunk it was. A larger length runs past the end of the
/// buffer; a smaller one is rejected for its checksum, or gives another chunk
/// that is well formed, stops short of the end of the buffer and serialises
/// to the bytes it was read from.
pub proof fn lemma_altered_length_detected(chunk: ChunkView, bytes: Seq<u8>)
    requires
        chunk.wf(),
        bytes.len() == chunk.serialize().len(),
        bytes.subrange(4, bytes.len() as int) == chunk.serialize().subrange(
            4,
            bytes.len() as int,
        ),
        bytes != chunk.serialize(),
    ensures
        be_u32(bytes.subrange(0, 4)) != chunk.length,
        be_u32(bytes.subrange(0, 4)) > chunk.length ==> parse_chunk(bytes) == Err::<
            (ChunkView, nat),
            ChunkError,
        >(ChunkError::TooShort),
        match parse_chunk(bytes) {
            Err(e) => e == ChunkError::TooShort || e == ChunkError::InvalidCrc,
            Ok((other, used)) => {
                &&& other.wf()
                &&& other != chunk
                &&& other.length < chunk.length
                &&& used == 12 + other.length
                &&& other.serialize() == bytes.subrange(0, used as int)
            },
        },
{
    let good = chunk.serialize();
    let total = bytes.len() as int;
    lemma_parse_serialized_chunk(chunk, Seq::empty());
    assert(good + Seq::<u8>::empty() =~= good);
    lemma_be_u32_of_be_bytes(chunk.length);
    assert(good.subrange(0, 4) =~= be_bytes(chunk.length));
    if be_u32(bytes.subrange(0, 4)) == chunk.length {
        lemma_be_u32_injective(bytes.subrange(0, 4), good.subrange(0, 4));
        assert(bytes =~= bytes.subrange(0, 4) + bytes.subrange(4, total));
        assert(good =~= good.subrange(0, 4) + good.subrange(4, total));
    }
    assert(bytes.subrange(4, 8) =~= bytes.subrange(4, total).subrange(0, 4));
    assert(good.subrange(4, 8) =~= good.subrange(4, total).subrange(0, 4));
    assert(good.subrange(4, 8) =~= chunk.code);
    if parse_chunk(bytes) is Ok {
        lemma_serialize_parsed_chunk(bytes);
    }
}

/// The length of a slice is a machine integer.
proof fn lemma_slice_len_fits(bytes: &[u8])
    ensures
        bytes@.len() <= usize::MAX,
{
    assert(bytes@.len() == spec_slice_len(bytes));
}

/// One record of a PNG file.
#[derive(Debug)]
pub struct Chunk {
    len: u32,
    chunk_type: ChunkType,
    data: Vec<u8>,
    crc: u32,
}

impl View for Chunk {
    type V = ChunkView;

    closed spec fn view(&self) -> ChunkView {
        ChunkView { length: self.len, code: self.chunk_type@, data: self.data@, crc: self.crc }
    }
}

impl Clone for Chunk {
    fn clone(&self) -> (copy: Self)
        ensures
            copy@ == self@,
            copy.kind() == self.kind(),
    {
        proof {
            use_type_invariant(self);
        }
        let data = self.data.clone();
        assert(data@ =~= self.data@);
        Chunk { len: self.len, chunk_type: self.chunk_type, data, crc: self.crc }
    }
}

impl TryFrom<&[u8]> for Chunk {
    type Error = ChunkError;

    /// Reads the chunk at the head of `bytes`, whatever follows it there.
    /// [`Chunk::parse`] also says how many bytes the chunk occupies.
    fn try_from(bytes: &[u8]) -> (r: Result<Chunk, ChunkError>)
        ensures
            match r {
                Ok(chunk) => parse_chunk(bytes@) matches Ok((view, _)) && view == chunk@,
                Err(e) => parse_chunk(bytes@) == Err::<(ChunkView, nat), ChunkError>(e),
            },
    {
        match Chunk::parse(bytes) {
            Ok((chunk, _)) => Ok(chunk),
            Err(e) => Err(e),
        }
    }
}

impl TryFromSpecImpl<&[u8]> for Chunk {
    /// The general law of conversions is not claimed: what `try_from` yields
    /// is stated over views, in its own contract.
    open spec fn obeys_try_from_spec() -> bool {
        false
    }

    open spec fn try_from_spec(bytes: &[u8]) -> Result<Self, Self::Error> {
        arbitrary()
    }
}

impl Chunk {
    /// The type code held by the chunk.
    pub closed spec fn kind(&self) -> ChunkType {
        self.chunk_type
    }

    /// The type code is valid and is the code of the view, and the view's
    /// fields agree with each other.
    #[verifier::type_invariant]
    pub open spec fn wf(&self) -> bool {
        &&& self.kind().wf()
        &&& self.kind()@ == self@.code
        &&& self@.wf()
    }

    /// Reads the length field of the chunk at the head of `bytes` and checks
    /// that the buffer holds the whole chunk.
    pub fn frame_length(bytes: &[u8]) -> (r: Result<u32, ChunkError>)
        ensures
            r == framed_length(bytes@),
    {
        if bytes.len() < 12 {
            return Err(ChunkError::TooShort);
        }
        let length = read_be_u32(bytes, 0);
        if bytes.len() - 12 < length as usize {
            return Err(ChunkError::TooShort);
        }
        Ok(length)
    }

    /// Judges the chunk at the head of `bytes` against `sum`, the checksum
    /// computed over its type code and payload: yields the type code and the
    /// length field where the chunk is sound, and the first defect otherwise.
    pub fn check_frame(bytes: &[u8], sum: u32) -> (r: Result<(ChunkType, u32), ChunkError>)
        ensures
            match r {
                Ok((chunk_type, length)) => parse_chunk_with(bytes@, sum) == Ok::<
                    (ChunkView, nat),
                    ChunkError,
                >(
                    (
                        ChunkView {
                            length,
                            code: chunk_type@,
                            data: bytes@.subrange(8, 8 + length),
                            crc: sum,
                        },
                        (12 + length) as nat,
                    ),
                ),
                Err(e) => parse_chunk_with(bytes@, sum) == Err::<(ChunkView, nat), ChunkError>(e),
            },
    {
        let length = match Chunk::frame_length(bytes) {
            Ok(length) => length,
            Err(e) => {
                return Err(e);
            },
        };
        let chunk_type = match ChunkType::from_bytes(slice_subrange(bytes, 4, 8)) {
            Ok(chunk_type) => chunk_type,
            Err(e) => {
                return Err(ChunkError::InvalidChunkType(e));
            },
        };
        proof {
            lemma_slice_len_fits(bytes);
        }
        let stored = read_be_u32(bytes, 8 + length as usize);
        if stored != sum {
            return Err(ChunkError::InvalidCrc);
        }
        Ok((chunk_type, length))
    }

    /// Reads the chunk at the head of `bytes` and says how many bytes it
    /// occupies. What follows the chunk in `bytes` is not looked at.
    pub fn parse(bytes: &[u8]) -> (r: Result<(Chunk, usize), ChunkError>)
        ensures
            match r {
                Ok((chunk, used)) => parse_chunk(bytes@) == Ok::<(ChunkView, nat), ChunkError>(
                    (chunk@, used as nat),
                ),
                Err(e) => parse_chunk(bytes@) == Err::<(ChunkView, nat), ChunkError>(e),
            },
    {
        let length = match Chunk::frame_length(bytes) {
            Ok(length) => length,
            Err(e) => {
                return Err(e);
            },
        };
        proof {
            lemma_slice_len_fits(bytes);
        }
        let end = 8 + length as usize;
        let sum = checksum(slice_subrange(bytes, 4, end));
        let chunk_type = match Chunk::check_frame(bytes, sum) {
            Ok((chunk_type, _)) => chunk_type,
            Err(e) => {
                return Err(e);
            },
        };
        let data = slice_to_vec(slice_subrange(bytes, 8, end));
        proof {
            use_type_invariant(&chunk_type);
            assert(bytes@.subrange(4, end as int) =~= chunk_type@ + data@);
        }
        Ok((Chunk { len: length, chunk_type, data, crc: sum }, end + 4))
    }

    /// Builds a chunk from a type code and a payload; the length and the
    /// checksum are computed. Fails only where the payload's length does not
    /// fit the 32-bit length field.
    pub fn new(chunk_type: ChunkType, data: Vec<u8>) -> (r: Result<Chunk, ChunkError>)
        ensures
            match r {
                Ok(chunk) => data@.len() <= u32::MAX && chunk@ == built(chunk_type@, data@),
                Err(e) => e == ChunkError::PayloadTooLarge && data@.len() > u32::MAX,
            },
    {
        if data.len() > u32::MAX as usize {
            return Err(ChunkError::PayloadTooLarge);
        }
        let code = chunk_type.bytes();
        let mut covered: Vec<u8> = Vec::new();
        covered.extend_from_slice(code.as_slice());
        covered.extend_from_slice(data.as_slice());
        let sum = checksum(covered.as_slice());
        proof {
            use_type_invariant(&chunk_type);
            assert(covered@ =~= chunk_type@ + data@);
        }
        Ok(Chunk { len: data.len() as u32, chunk_type, data, crc: sum })
    }

    /// The length field: the number of payload bytes.
    pub fn length(&self) -> (length: u32)
        ensures
            length == self@.length,
            length == self@.data.len(),
    {
        proof {
            use_type_invariant(self);
        }
        self.len
    }

    /// The type code.
    pub fn chunk_type(&self) -> (chunk_type: &ChunkType)
        ensures
            *chunk_type == self.kind(),
            chunk_type@ == self@.code,
            chunk_type.wf(),
    {
        proof {
            use_type_invariant(self);
        }
        &self.chunk_type
    }

    /// The payload.
    pub fn data(&self) -> (data: &[u8])
        ensures
            data@ == self@.data,
            data@.len() == self@.length,
    {
        proof {
            use_type_invariant(self);
        }
        self.data.as_slice()
    }

    /// The checksum of type code and payload.
    pub fn crc(&self) -> (crc: u32)
        ensures
            crc == self@.crc,
            crc == crc32_iso_hdlc(self@.code + self@.data),
    {
        proof {
            use_type_invariant(self);
        }
        self.crc
    }

    /// The payload as text, where it is valid UTF-8.
    pub fn data_as_string(&self) -> (r: Result<String, ChunkError>)
        ensures
            match r {
                Ok(text) => valid_utf8(self@.data) && text@ == decode_utf8(self@.data),
                Err(e) => e == ChunkError::NotText && !valid_utf8(self@.data),
            },
    {
        let bytes = self.data.clone();
        assert(bytes@ =~= self.data@);
        match string_from_utf8(bytes) {
            Some(text) => {
                proof {
                    encode_utf8_decode_utf8(text@);
                }
                Ok(text)
            },
            None => Err(ChunkError::NotText),
        }
    }

    /// The length field: the number of payload bytes.
    pub fn len(&self) -> (length: u32)
        ensures
            length == self@.length,
            length == self@.data.len(),
    {
        self.length()
    }

    /// The type code as text: its four letters.
    pub fn type_str(&self) -> (text: String)
        ensures
            text@ == latin(self@.code),
    {
        self.chunk_type.to_string()
    }

    /// The role of the type code.
    pub fn get_type(&self) -> (typ: Types)
        ensures
            typ == role_of(self@.code),
    {
        self.chunk_type.get_type()
    }

    fn plain_string(&self) -> (text: String)
        ensures
            text@ == plain_line(self@),
    {
        let mut text = String::from_str("Chunk: Data_len=");
        push_decimal(&mut text, self.len as u64);
        text.append(", type=");
        let code = self.chunk_type.to_string();
        text.append(code.as_str());
        text.append(", crc=");
        push_decimal(&mut text, self.crc as u64);
        text.append("\n");
        assert(text@ =~= plain_line(self@));
        text
    }

    fn data_string(&self) -> (text: String)
        ensures
            text@ == data_line(self@),
    {
        let mut text = String::from_str("Chunk: Data_len=");
        push_decimal(&mut text, self.len as u64);
        text.append(", Data=");
        push_byte_list(&mut text, self.data.as_slice());
        text.append(" , type=");
        let code = self.chunk_type.to_string();
        text.append(code.as_str());
        text.append(", crc=");
        push_decimal(&mut text, self.crc as u64);
        text.append("\n");
        assert(text@ =~= data_line(self@));
        text
    }

    /// The chunk as one line of text, chosen by the role of its type code.
    pub fn to_string(&self) -> (text: String)
        ensures
            text@ == summary(self@),
    {
        match self.get_type() {
            Types::IHDR => match IhdrChunk::from_chunk(self) {
                Ok(header) => header.to_string(),
                Err(_) => self.plain_string(),
            },
            Types::IDAT => self.data_string(),
            Types::IEND => String::from_str("IEND : END OF IMAGE\n"),
            _ => self.plain_string(),
        }
    }

    /// The chunk as it lies in a file: length, type code, payload, checksum.
    /// Reading these bytes gives the chunk back.
    pub fn as_bytes(&self) -> (bytes: Vec<u8>)
        ensures
            bytes@ == self@.serialize(),
            parse_chunk(bytes@) == Ok::<(ChunkView, nat), ChunkError>((self@, bytes@.len())),
    {
        let mut bytes: Vec<u8> = Vec::new();
        push_be_u32(&mut bytes, self.len);
        let code = self.chunk_type.bytes();
        bytes.extend_from_slice(code.as_slice());
        bytes.extend_from_slice(self.data.as_slice());
        push_be_u32(&mut bytes, self.crc);
        proof {
            use_type_invariant(self);
            assert(bytes@ =~= self@.serialize());
            lemma_parse_serialized_chunk(self@, Seq::empty());
            assert(self@.serialize() + Seq::<u8>::empty() =~= self@.serialize());
        }
        bytes
    }
}

} // verus!
