//! The operations offered to a command line: each takes the bytes of a file
//! and gives back what is to be written or shown.

use crate::chunk::{
    built, chunk_error_message, lemma_built_chunk_wf, lemma_parse_serialized_chunk, summary, Chunk,
    ChunkError, ChunkView,
};
use crate::chunk_type::{
    is_type_code, parse_type_code, type_error_message, ChunkType, ChunkTypeError,
};
use crate::endian::lemma_be_u32_of_be_bytes;
use crate::png::{
    all_wf, ends_with_terminator, is_first_of_type, lemma_first_of_type_unique,
    lemma_no_chunk_of_invalid_type, lemma_parse_serialized_png, lemma_position_of_type,
    lemma_serialize_chunks_push, lemma_serialize_parsed_png, parse_png, png_error_message,
    position_of_type, serialize_png, Png, PngError,
};
use vstd::prelude::*;
use vstd::slice::slice_to_vec;
use vstd::string::StringSliceAdditionalSpecFns;
use vstd::utf8::{decode_utf8, valid_utf8};

verus! {

/// Why an operation on a file failed.
#[derive(Debug, PartialEq, Eq, Clone, Copy, Structural)]
pub enum CommandError {
    /// The file is no well-formed container, or lacks the chunk asked for.
    Png(PngError),
    /// The type given is no type code.
    ChunkType(ChunkTypeError),
    /// The chunk could not be built, or its payload is no text.
    Chunk(ChunkError),
}

/// The failure in words: the words of the error it wraps.
pub open spec fn command_error_message(error: CommandError) -> Seq<char> {
    match error {
        CommandError::Png(e) => png_error_message(e),
        CommandError::ChunkType(e) => type_error_message(e),
        CommandError::Chunk(e) => chunk_error_message(e),
    }
}

impl CommandError {
    /// The failure in words.
    pub fn to_string(&self) -> (text: String)
        ensures
            text@ == command_error_message(*self),
    {
        match self {
            CommandError::Png(e) => e.to_string(),
            CommandError::ChunkType(e) => e.to_string(),
            CommandError::Chunk(e) => e.to_string(),
        }
    }
}

/// The bytes of `png`, the one file-name extension the operations are meant
/// for.
pub open spec fn png_extension() -> Seq<u8> {
    seq![112u8, 110u8, 103u8]
}

/// Tells whether `extension`, a file name's extension without its dot, is
/// `png` in lower case.
pub fn is_png_extension(extension: &str) -> (r: bool)
    ensures
        r == (extension.spec_bytes() == png_extension()),
{
    let bytes = extension.as_bytes();
    let r = bytes.len() == 3 && bytes[0] == 112 && bytes[1] == 110 && bytes[2] == 103;
    proof {
        if r {
            assert(bytes@ =~= png_extension());
        } else if bytes@.len() == 3 {
            assert(png_extension()[0] == 112 && png_extension()[1] == 110 && png_extension()[2]
                == 103);
        }
    }
    r
}

/// What [`encode`] yields: the file with one more chunk at its end. The file
/// is read first, then the type is validated, then the payload's length is
/// checked; the first failure is the result.
pub open spec fn encoded(bytes: Seq<u8>, type_text: Seq<u8>, message: Seq<u8>) -> Result<
    Seq<u8>,
    CommandError,
> {
    match parse_png(bytes) {
        Err(e) => Err(CommandError::Png(e)),
        Ok(chunks) => match parse_type_code(type_text) {
            Err(e) => Err(CommandError::ChunkType(e)),
            Ok(code) => if message.len() > u32::MAX {
                Err(CommandError::Chunk(ChunkError::PayloadTooLarge))
            } else {
                Ok(serialize_png(chunks.push(built(code, message))))
            },
        },
    }
}

/// What [`decode`] yields: the text of the first chunk whose type code is
/// the bytes of the given text, or `None` where there is no such chunk; no
/// chunk has a type that is not four letters. A payload that is not UTF-8
/// is an error.
pub open spec fn decoded(bytes: Seq<u8>, type_text: Seq<u8>) -> Result<
    Option<Seq<char>>,
    CommandError,
> {
    match parse_png(bytes) {
        Err(e) => Err(CommandError::Png(e)),
        Ok(chunks) => match position_of_type(chunks, type_text) {
            None => Ok(None),
            Some(i) => if valid_utf8(chunks[i].data) {
                Ok(Some(decode_utf8(chunks[i].data)))
            } else {
                Err(CommandError::Chunk(ChunkError::NotText))
            },
        },
    }
}

/// What [`remove`] yields: the file without the first chunk whose type code
/// is the bytes of the given text. A file without such a chunk is an error;
/// no chunk has a type that is not four letters.
pub open spec fn removed(bytes: Seq<u8>, type_text: Seq<u8>) -> Result<Seq<u8>, CommandError> {
    match parse_png(bytes) {
        Err(e) => Err(CommandError::Png(e)),
        Ok(chunks) => match position_of_type(chunks, type_text) {
            None => Err(CommandError::Png(PngError::NotFound)),
            Some(i) => Ok(serialize_png(chunks.remove(i))),
        },
    }
}

/// What [`inspect`] yields: one line for each chunk of the file.
pub open spec fn inspected(bytes: Seq<u8>) -> Result<Seq<Seq<char>>, PngError> {
    match parse_png(bytes) {
        Err(e) => Err(e),
        Ok(chunks) => Ok(chunks.map_values(|chunk: ChunkView| summary(chunk))),
    }
}

/// What [`verify`] yields: the file is a well-formed container and its last
/// chunk is the end-of-image chunk.
pub open spec fn verified(bytes: Seq<u8>) -> bool {
    match parse_png(bytes) {
        Err(_) => false,
        Ok(chunks) => ends_with_terminator(chunks),
    }
}

/// A file to which a chunk was added reads back as the chunks it had,
/// followed by the new chunk.
pub proof fn lemma_parse_encoded(bytes: Seq<u8>, type_text: Seq<u8>, message: Seq<u8>)
    requires
        encoded(bytes, type_text, message) is Ok,
    ensures
        parse_png(encoded(bytes, type_text, message).unwrap()) == Ok::<Seq<ChunkView>, PngError>(
            parse_png(bytes).unwrap().push(built(type_text, message)),
        ),
        encoded(bytes, type_text, message).unwrap() == bytes + built(
            type_text,
            message,
        ).serialize(),
{
    let chunks = parse_png(bytes).unwrap();
    let chunk = built(type_text, message);
    lemma_serialize_parsed_png(bytes);
    lemma_built_chunk_wf(type_text, message);
    assert(all_wf(chunks.push(chunk)));
    lemma_parse_serialized_png(chunks.push(chunk));
    lemma_serialize_chunks_push(chunks, chunk);
    assert(serialize_png(chunks.push(chunk)) =~= serialize_png(chunks) + chunk.serialize());
}

/// Adding a chunk to a well-formed file succeeds wherever the type is four
/// letters and the message fits the length field. What is written is the
/// file, byte for byte, followed by the twelve bytes of framing and the
/// message: nothing of the file is reordered, merged or dropped.
pub proof fn lemma_encode_extends_file(bytes: Seq<u8>, type_text: Seq<u8>, message: Seq<u8>)
    requires
        parse_png(bytes) is Ok,
        is_type_code(type_text),
        message.len() <= u32::MAX,
    ensures
        encoded(bytes, type_text, message) is Ok,
        ({
            let out = encoded(bytes, type_text, message).unwrap();
            let at = bytes.len() as int;
            &&& out.len() == bytes.len() + 12 + message.len()
            &&& out.subrange(0, bytes.len() as int) == bytes
            &&& out.subrange(bytes.len() as int, out.len() as int) == built(
                type_text,
                message,
            ).serialize()
            &&& out.subrange(at + 4, at + 8) == type_text
            &&& out.subrange(at + 8, at + 8 + message.len()) == message
        }),
{
    let chunk = built(type_text, message);
    let out = encoded(bytes, type_text, message).unwrap();
    let at = bytes.len() as int;
    lemma_parse_encoded(bytes, type_text, message);
    lemma_built_chunk_wf(type_text, message);
    lemma_parse_serialized_chunk(chunk, Seq::empty());
    lemma_be_u32_of_be_bytes(chunk.length);
    assert(out.subrange(0, bytes.len() as int) =~= bytes);
    assert(out.subrange(bytes.len() as int, out.len() as int) =~= chunk.serialize());
    assert(out.subrange(at + 4, at + 8) =~= type_text);
    assert(out.subrange(at + 8, at + 8 + message.len()) =~= message);
}

/// After a message was added under a type that the file did not hold yet,
/// decoding that type gives the message back, where it is text.
pub proof fn lemma_decode_encoded(bytes: Seq<u8>, type_text: Seq<u8>, message: Seq<u8>)
    requires
        encoded(bytes, type_text, message) is Ok,
        position_of_type(parse_png(bytes).unwrap(), type_text) is None,
        valid_utf8(message),
    ensures
        decoded(encoded(bytes, type_text, message).unwrap(), type_text) == Ok::<
            Option<Seq<char>>,
            CommandError,
        >(Some(decode_utf8(message))),
{
    let chunks = parse_png(bytes).unwrap();
    let chunk = built(type_text, message);
    lemma_parse_encoded(bytes, type_text, message);
    lemma_position_of_type(chunks, type_text);
    assert(is_first_of_type(chunks.push(chunk), type_text, chunks.len() as int)) by {
        assert forall|j: int| 0 <= j < chunks.len() implies (#[trigger] chunks.push(
            chunk,
        )[j]).code != type_text by {
            assert(chunks.push(chunk)[j] == chunks[j]);
        }
    }
    lemma_first_of_type_unique(chunks.push(chunk), type_text, chunks.len() as int);
}

/// After a message was added under a type that the file did not hold yet,
/// removing that type gives the file back as it was, byte for byte.
pub proof fn lemma_remove_encoded(bytes: Seq<u8>, type_text: Seq<u8>, message: Seq<u8>)
    requires
        encoded(bytes, type_text, message) is Ok,
        position_of_type(parse_png(bytes).unwrap(), type_text) is None,
    ensures
        removed(encoded(bytes, type_text, message).unwrap(), type_text) == Ok::<
            Seq<u8>,
            CommandError,
        >(bytes),
{
    let chunks = parse_png(bytes).unwrap();
    let chunk = built(type_text, message);
    lemma_parse_encoded(bytes, type_text, message);
    lemma_position_of_type(chunks, type_text);
    assert(is_first_of_type(chunks.push(chunk), type_text, chunks.len() as int)) by {
        assert forall|j: int| 0 <= j < chunks.len() implies (#[trigger] chunks.push(
            chunk,
        )[j]).code != type_text by {
            assert(chunks.push(chunk)[j] == chunks[j]);
        }
    }
    lemma_first_of_type_unique(chunks.push(chunk), type_text, chunks.len() as int);
    assert(chunks.push(chunk).remove(chunks.len() as int) =~= chunks);
    lemma_serialize_parsed_png(bytes);
}

/// The texts of `lines`, in order.
pub open spec fn texts(lines: Seq<String>) -> Seq<Seq<char>> {
    lines.map_values(|line: String| line@)
}

/// Adds a chunk of type `chunk_type` with the payload `message` after the
/// last chunk of the file `bytes`. The result is the file followed by the
/// bytes of the new chunk.
pub fn encode(bytes: &[u8], chunk_type: &str, message: &[u8]) -> (r: Result<Vec<u8>, CommandError>)
    ensures
        match r {
            Ok(out) => {
                &&& encoded(bytes@, chunk_type.spec_bytes(), message@) == Ok::<
                    Seq<u8>,
                    CommandError,
                >(out@)
                &&& out@ == bytes@ + built(chunk_type.spec_bytes(), message@).serialize()
                &&& out@.len() == bytes@.len() + 12 + message@.len()
                &&& out@.subrange(0, bytes@.len() as int) == bytes@
            },
            Err(e) => encoded(bytes@, chunk_type.spec_bytes(), message@) == Err::<
                Seq<u8>,
                CommandError,
            >(e),
        },
{
    let mut png = match Png::try_from(bytes) {
        Ok(png) => png,
        Err(e) => {
            return Err(CommandError::Png(e));
        },
    };
    let chunk_type = match ChunkType::from_str(chunk_type) {
        Ok(chunk_type) => chunk_type,
        Err(e) => {
            return Err(CommandError::ChunkType(e));
        },
    };
    let chunk = match Chunk::new(chunk_type, slice_to_vec(message)) {
        Ok(chunk) => chunk,
        Err(e) => {
            return Err(CommandError::Chunk(e));
        },
    };
    proof {
        lemma_serialize_chunks_push(png@, chunk@);
        assert(serialize_png(png@.push(chunk@)) =~= serialize_png(png@) + chunk@.serialize());
        lemma_encode_extends_file(bytes@, chunk_type@, message@);
    }
    png.append_chunk(chunk);
    Ok(png.as_bytes())
}

/// Reads the text carried by the first chunk of type `chunk_type` in the
/// file `bytes`. A text that is no type code names no chunk.
pub fn decode(bytes: &[u8], chunk_type: &str) -> (r: Result<Option<String>, CommandError>)
    ensures
        match r {
            Ok(Some(text)) => decoded(bytes@, chunk_type.spec_bytes()) == Ok::<
                Option<Seq<char>>,
                CommandError,
            >(Some(text@)),
            Ok(None) => decoded(bytes@, chunk_type.spec_bytes()) == Ok::<
                Option<Seq<char>>,
                CommandError,
            >(None),
            Err(e) => decoded(bytes@, chunk_type.spec_bytes()) == Err::<
                Option<Seq<char>>,
                CommandError,
            >(e),
        },
{
    let png = match Png::try_from(bytes) {
        Ok(png) => png,
        Err(e) => {
            return Err(CommandError::Png(e));
        },
    };
    let chunk_type = match ChunkType::from_str(chunk_type) {
        Ok(chunk_type) => chunk_type,
        Err(_) => {
            proof {
                lemma_no_chunk_of_invalid_type(png@, chunk_type.spec_bytes());
            }
            return Ok(None);
        },
    };
    match png.chunk_by_type(&chunk_type) {
        None => Ok(None),
        Some(chunk) => match chunk.data_as_string() {
            Ok(text) => Ok(Some(text)),
            Err(e) => Err(CommandError::Chunk(e)),
        },
    }
}

/// Takes the first chunk of type `chunk_type` out of the file `bytes`. A
/// text that is no type code names no chunk.
pub fn remove(bytes: &[u8], chunk_type: &str) -> (r: Result<Vec<u8>, CommandError>)
    ensures
        match r {
            Ok(out) => removed(bytes@, chunk_type.spec_bytes()) == Ok::<Seq<u8>, CommandError>(
                out@,
            ),
            Err(e) => removed(bytes@, chunk_type.spec_bytes()) == Err::<Seq<u8>, CommandError>(e),
        },
{
    let mut png = match Png::try_from(bytes) {
        Ok(png) => png,
        Err(e) => {
            return Err(CommandError::Png(e));
        },
    };
    let chunk_type = match ChunkType::from_str(chunk_type) {
        Ok(chunk_type) => chunk_type,
        Err(_) => {
            proof {
                lemma_no_chunk_of_invalid_type(png@, chunk_type.spec_bytes());
            }
            return Err(CommandError::Png(PngError::NotFound));
        },
    };
    match png.remove_first_chunk(&chunk_type) {
        Ok(_) => Ok(png.as_bytes()),
        Err(e) => Err(CommandError::Png(e)),
    }
}

/// Describes each chunk of the file `bytes` in one line of text.
pub fn inspect(bytes: &[u8]) -> (r: Result<Vec<String>, PngError>)
    ensures
        match r {
            Ok(lines) => inspected(bytes@) == Ok::<Seq<Seq<char>>, PngError>(texts(lines@)),
            Err(e) => inspected(bytes@) == Err::<Seq<Seq<char>>, PngError>(e),
        },
{
    match Png::try_from(bytes) {
        Ok(png) => {
            let lines = png.summaries();
            assert(texts(lines@) =~= png@.map_values(|chunk: ChunkView| summary(chunk)));
            Ok(lines)
        },
        Err(e) => Err(e),
    }
}

/// Checks that the file `bytes` is a well-formed container whose last chunk
/// is the end-of-image chunk. Any defect gives `false`.
pub fn verify(bytes: &[u8]) -> (r: bool)
    ensures
        r == verified(bytes@),
{
    match Png::try_from(bytes) {
        Ok(png) => png.verify(),
        Err(_) => false,
    }
}

} // verus!
