//! The container: the signature and the chunks that follow it.

use crate::chunk::{
    chunk_error_message, lemma_parse_serialized_chunk, lemma_serialize_parsed_chunk, parse_chunk,
    summary, Chunk, ChunkError, ChunkView,
};
use crate::chunk_type::{iend_code, is_type_code, lemma_role_of_known_codes, ChunkType, Types};
use crate::text::{decimal, push_decimal};
use vstd::prelude::*;
use vstd::slice::slice_subrange;
use vstd::std_specs::convert::TryFromSpecImpl;
use vstd::string::StringExecFns;

verus! {

/// Why a container could not be read or edited.
#[derive(Debug, PartialEq, Eq, Clone, Copy, Structural)]
pub enum PngError {
    /// The buffer does not start with the eight bytes of the signature.
    InvalidSignature,
    /// The chunk that starts at `offset` has the defect `error`.
    InvalidChunk { offset: usize, error: ChunkError },
    /// The bytes from `offset` to the end are too few to hold a chunk.
    TrailingGarbage { offset: usize },
    /// No chunk has the type asked for.
    NotFound,
}

/// The defect in words.
pub open spec fn png_error_message(error: PngError) -> Seq<char> {
    match error {
        PngError::InvalidSignature => "Invalid PNG signature"@,
        PngError::InvalidChunk { offset, error } => "Invalid chunk at offset "@ + decimal(
            offset as nat,
        ) + ": "@ + chunk_error_message(error),
        PngError::TrailingGarbage { offset } => "Trailing bytes at offset "@ + decimal(
            offset as nat,
        ) + " do not form a chunk"@,
        PngError::NotFound => "Chunk not found"@,
    }
}

impl PngError {
    /// The defect in words.
    pub fn to_string(&self) -> (text: String)
        ensures
            text@ == png_error_message(*self),
    {
        match self {
            PngError::InvalidSignature => String::from_str("Invalid PNG signature"),
            PngError::InvalidChunk { offset, error } => {
                let mut text = String::from_str("Invalid chunk at offset ");
                push_decimal(&mut text, *offset as u64);
                text.append(": ");
                let detail = error.to_string();
                text.append(detail.as_str());
                assert(text@ =~= png_error_message(*self));
                text
            },
            PngError::TrailingGarbage { offset } => {
                let mut text = String::from_str("Trailing bytes at offset ");
                push_decimal(&mut text, *offset as u64);
                text.append(" do not form a chunk");
                assert(text@ =~= png_error_message(*self));
                text
            },
            PngError::NotFound => String::from_str("Chunk not found"),
        }
    }
}

/// The eight bytes every PNG file starts with.
pub open spec fn signature() -> Seq<u8> {
    seq![137u8, 80u8, 78u8, 71u8, 13u8, 10u8, 26u8, 10u8]
}

/// The chunks that fill `bytes` from offset `at` to its end, or the first
/// defect met on the way, with the offset of the chunk that has it.
pub open spec fn parse_chunks(bytes: Seq<u8>, at: nat) -> Result<Seq<ChunkView>, PngError>
    decreases bytes.len() - at,
{
    if at >= bytes.len() {
        Ok(Seq::empty())
    } else {
        match parse_chunk(bytes.subrange(at as int, bytes.len() as int)) {
            Err(ChunkError::TooShort) => Err(PngError::TrailingGarbage { offset: at as usize }),
            Err(error) => Err(PngError::InvalidChunk { offset: at as usize, error }),
            Ok((chunk, used)) => match parse_chunks(bytes, at + used) {
                Ok(rest) => Ok(seq![chunk] + rest),
                Err(e) => Err(e),
            },
        }
    }
}

/// What reading `bytes` as a container yields: its chunks in order, or the
/// first defect.
pub open spec fn parse_png(bytes: Seq<u8>) -> Result<Seq<ChunkView>, PngError> {
    if bytes.len() < 8 || bytes.subrange(0, 8) != signature() {
        Err(PngError::InvalidSignature)
    } else {
        parse_chunks(bytes, 8)
    }
}

/// The chunks one after the other, as they lie in a file.
pub open spec fn serialize_chunks(chunks: Seq<ChunkView>) -> Seq<u8>
    decreases chunks.len(),
{
    if chunks.len() == 0 {
        Seq::empty()
    } else {
        chunks[0].serialize() + serialize_chunks(chunks.skip(1))
    }
}

/// The container as it lies in a file: the signature, then the chunks.
pub open spec fn serialize_png(chunks: Seq<ChunkView>) -> Seq<u8> {
    signature() + serialize_chunks(chunks)
}

/// Every chunk of `chunks` is well formed.
pub open spec fn all_wf(chunks: Seq<ChunkView>) -> bool {
    forall|i: int| 0 <= i < chunks.len() ==> (#[trigger] chunks[i]).wf()
}

/// `i` is the position of the first chunk of `chunks` whose type code is
/// `code`.
pub open spec fn is_first_of_type(chunks: Seq<ChunkView>, code: Seq<u8>, i: int) -> bool {
    &&& 0 <= i < chunks.len()
    &&& chunks[i].code == code
    &&& forall|j: int| 0 <= j < i ==> (#[trigger] chunks[j]).code != code
}

/// No chunk of `chunks` has the type code `code`.
pub open spec fn none_of_type(chunks: Seq<ChunkView>, code: Seq<u8>) -> bool {
    forall|j: int| 0 <= j < chunks.len() ==> (#[trigger] chunks[j]).code != code
}

/// The position of the first chunk of `chunks` whose type code is `code`, if
/// there is one.
pub open spec fn position_of_type(chunks: Seq<ChunkView>, code: Seq<u8>) -> Option<int> {
    if exists|i: int| is_first_of_type(chunks, code, i) {
        Some(choose|i: int| is_first_of_type(chunks, code, i))
    } else {
        None
    }
}

/// The position of the first chunk of a type is where that chunk stands, and
/// there is none exactly where no chunk has the type.
pub proof fn lemma_position_of_type(chunks: Seq<ChunkView>, code: Seq<u8>)
    ensures
        match position_of_type(chunks, code) {
            Some(i) => is_first_of_type(chunks, code, i),
            None => none_of_type(chunks, code),
        },
{
    if position_of_type(chunks, code) is None {
        assert forall|j: int| 0 <= j < chunks.len() implies (#[trigger] chunks[j]).code
            != code by {
            if chunks[j].code == code {
                lemma_first_of_type_exists(chunks, code, j);
            }
        }
    }
}

/// Where some chunk at or before `k` has the type, a first one exists.
proof fn lemma_first_of_type_exists(chunks: Seq<ChunkView>, code: Seq<u8>, k: int)
    requires
        0 <= k < chunks.len(),
        chunks[k].code == code,
    ensures
        exists|i: int| is_first_of_type(chunks, code, i),
    decreases k,
{
    if exists|j: int| 0 <= j < k && (#[trigger] chunks[j]).code == code {
        let j = choose|j: int| 0 <= j < k && (#[trigger] chunks[j]).code == code;
        lemma_first_of_type_exists(chunks, code, j);
    } else {
        assert(is_first_of_type(chunks, code, k));
    }
}

/// Among well-formed chunks none has a type that is not four letters.
pub proof fn lemma_no_chunk_of_invalid_type(chunks: Seq<ChunkView>, code: Seq<u8>)
    requires
        all_wf(chunks),
        !is_type_code(code),
    ensures
        position_of_type(chunks, code) is None,
{
    lemma_position_of_type(chunks, code);
}

/// The first chunk of a type is unique: whatever position is first is the
/// position of the type.
pub proof fn lemma_first_of_type_unique(chunks: Seq<ChunkView>, code: Seq<u8>, i: int)
    requires
        is_first_of_type(chunks, code, i),
    ensures
        position_of_type(chunks, code) == Some(i),
{
    let j = choose|j: int| is_first_of_type(chunks, code, j);
    assert(is_first_of_type(chunks, code, j));
    if i < j {
        assert(chunks[i].code != code);
    }
    if j < i {
        assert(chunks[j].code != code);
    }
}

/// The last chunk of `chunks` is the end-of-image chunk.
pub open spec fn ends_with_terminator(chunks: Seq<ChunkView>) -> bool {
    chunks.len() > 0 && chunks.last().code == iend_code()
}

/// The views of `chunks`, in order.
pub open spec fn views(chunks: Seq<Chunk>) -> Seq<ChunkView> {
    chunks.map_values(|chunk: Chunk| chunk@)
}

/// `found` put in front of the outcome of reading the rest.
spec fn prepend(found: Seq<ChunkView>, rest: Result<Seq<ChunkView>, PngError>) -> Result<
    Seq<ChunkView>,
    PngError,
> {
    match rest {
        Ok(chunks) => Ok(found + chunks),
        Err(e) => Err(e),
    }
}

/// A PNG file as a sequence of chunks.
#[derive(Debug)]
pub struct Png {
    chunks: Vec<Chunk>,
}

impl View for Png {
    type V = Seq<ChunkView>;

    closed spec fn view(&self) -> Seq<ChunkView> {
        views(self.chunks@)
    }
}

impl TryFrom<&[u8]> for Png {
    type Error = PngError;

    /// Reads a container: the signature, then chunks up to the end of the
    /// buffer. A chunk with a defect ends the reading with the offset at
    /// which that chunk starts; bytes at the end that are too few for a
    /// chunk are trailing garbage. Serialising the container that was read
    /// gives `bytes` back.
    fn try_from(bytes: &[u8]) -> (r: Result<Png, PngError>)
        ensures
            match r {
                Ok(png) => parse_png(bytes@) == Ok::<Seq<ChunkView>, PngError>(png@)
                    && serialize_png(png@) == bytes@ && all_wf(png@),
                Err(e) => parse_png(bytes@) == Err::<Seq<ChunkView>, PngError>(e),
            },
    {
        if bytes.len() < 8 {
            return Err(PngError::InvalidSignature);
        }
        let mut k: usize = 0;
        while k < 8
            invariant
                k <= 8 <= bytes@.len(),
                forall|j: int| 0 <= j < k ==> bytes@[j] == signature()[j],
            decreases 8 - k,
        {
            if bytes[k] != Png::STANDARD_HEADER[k] {
                assert(bytes@.subrange(0, 8)[k as int] != signature()[k as int]);
                return Err(PngError::InvalidSignature);
            }
            k += 1;
        }
        assert(bytes@.subrange(0, 8) =~= signature());
        let mut chunks: Vec<Chunk> = Vec::new();
        let mut cursor: usize = 8;
        assert(prepend(views(chunks@), parse_chunks(bytes@, 8)) =~= parse_chunks(bytes@, 8)) by {
            assert(views(chunks@) =~= Seq::<ChunkView>::empty());
            if let Ok(all) = parse_chunks(bytes@, 8) {
                assert(Seq::<ChunkView>::empty() + all =~= all);
            }
        }
        while cursor < bytes.len()
            invariant
                8 <= cursor <= bytes@.len(),
                parse_png(bytes@) == parse_chunks(bytes@, 8),
                parse_chunks(bytes@, 8) == prepend(
                    views(chunks@),
                    parse_chunks(bytes@, cursor as nat),
                ),
            decreases bytes@.len() - cursor,
        {
            let ghost found = views(chunks@);
            match Chunk::parse(slice_subrange(bytes, cursor, bytes.len())) {
                Ok((chunk, used)) => {
                    proof {
                        lemma_serialize_parsed_chunk(
                            bytes@.subrange(cursor as int, bytes@.len() as int),
                        );
                        let rest = parse_chunks(bytes@, (cursor + used) as nat);
                        assert(views(chunks@.push(chunk)) =~= found.push(chunk@));
                        if let Ok(tail) = rest {
                            assert(found + (seq![chunk@] + tail) =~= found.push(chunk@) + tail);
                        }
                    }
                    chunks.push(chunk);
                    cursor += used;
                },
                Err(ChunkError::TooShort) => {
                    return Err(PngError::TrailingGarbage { offset: cursor });
                },
                Err(error) => {
                    return Err(PngError::InvalidChunk { offset: cursor, error });
                },
            }
        }
        let png = Png { chunks };
        proof {
            assert(views(png.chunks@) + Seq::<ChunkView>::empty() =~= png@);
            lemma_serialize_parsed_png(bytes@);
        }
        Ok(png)
    }
}

impl TryFromSpecImpl<&[u8]> for Png {
    /// The general law of conversions is not claimed: what `try_from` yields
    /// is stated over views, in its own contract.
    open spec fn obeys_try_from_spec() -> bool {
        false
    }

    open spec fn try_from_spec(bytes: &[u8]) -> Result<Self, Self::Error> {
        arbitrary()
    }
}

impl Png {
    /// The signature: the eight bytes every PNG file starts with.
    pub const STANDARD_HEADER: [u8; 8] = [137, 80, 78, 71, 13, 10, 26, 10];

    /// A container without chunks.
    pub fn new() -> (png: Png)
        ensures
            png@ == Seq::<ChunkView>::empty(),
    {
        let png = Png { chunks: Vec::new() };
        assert(png@ =~= Seq::<ChunkView>::empty());
        png
    }

    /// Adds `chunk` at the end of the container, after every chunk it holds,
    /// even after the end-of-image chunk. A caller that wants the new chunk
    /// before the end-of-image chunk has to arrange that itself.
    pub fn append_chunk(&mut self, chunk: Chunk)
        ensures
            final(self)@ == old(self)@.push(chunk@),
    {
        proof {
            assert(views(self.chunks@.push(chunk)) =~= views(self.chunks@).push(chunk@));
        }
        self.chunks.push(chunk);
    }

    /// The chunks of the container, in order.
    pub fn chunks(&self) -> (chunks: &[Chunk])
        ensures
            views(chunks@) == self@,
    {
        self.chunks.as_slice()
    }

    /// The first chunk whose type code is that of `chunk_type`, if any.
    pub fn chunk_by_type(&self, chunk_type: &ChunkType) -> (r: Option<&Chunk>)
        ensures
            match r {
                Some(chunk) => position_of_type(self@, chunk_type@) matches Some(i) && self@[i]
                    == chunk@,
                None => position_of_type(self@, chunk_type@) is None,
            },
    {
        match self.position(chunk_type) {
            Some(i) => Some(&self.chunks[i]),
            None => None,
        }
    }

    /// The position of the first chunk whose type code is that of
    /// `chunk_type`, if any.
    fn position(&self, chunk_type: &ChunkType) -> (r: Option<usize>)
        ensures
            match r {
                Some(i) => position_of_type(self@, chunk_type@) == Some(i as int) && i
                    < self.chunks@.len(),
                None => position_of_type(self@, chunk_type@) is None,
            },
    {
        let wanted = chunk_type.bytes();
        let mut i: usize = 0;
        while i < self.chunks.len()
            invariant
                i <= self.chunks@.len(),
                self@.len() == self.chunks@.len(),
                wanted@ == chunk_type@,
                forall|j: int| 0 <= j < i ==> (#[trigger] self@[j]).code != chunk_type@,
            decreases self.chunks@.len() - i,
        {
            let code = self.chunks[i].chunk_type().bytes();
            assert(code@ == self@[i as int].code);
            if code[0] == wanted[0] && code[1] == wanted[1] && code[2] == wanted[2] && code[3]
                == wanted[3] {
                proof {
                    use_type_invariant(chunk_type);
                    assert(code@ =~= wanted@);
                    lemma_first_of_type_unique(self@, chunk_type@, i as int);
                }
                return Some(i);
            }
            i += 1;
        }
        proof {
            if position_of_type(self@, chunk_type@) is Some {
                lemma_position_of_type(self@, chunk_type@);
            }
        }
        None
    }

    /// Removes the first chunk whose type code is that of `chunk_type` and
    /// hands it out; the other chunks keep their order. Where no chunk has
    /// that type the container is left as it was.
    pub fn remove_first_chunk(&mut self, chunk_type: &ChunkType) -> (r: Result<Chunk, PngError>)
        ensures
            match r {
                Ok(chunk) => position_of_type(old(self)@, chunk_type@) matches Some(i) && old(
                    self,
                )@[i] == chunk@ && final(self)@ == old(self)@.remove(i),
                Err(e) => e == PngError::NotFound && position_of_type(old(self)@, chunk_type@)
                    is None && final(self)@ == old(self)@,
            },
    {
        match self.position(chunk_type) {
            Some(i) => {
                proof {
                    assert(views(self.chunks@.remove(i as int)) =~= self@.remove(i as int));
                }
                let chunk = self.chunks.remove(i);
                Ok(chunk)
            },
            None => Err(PngError::NotFound),
        }
    }

    /// The container as it lies in a file: the signature, then every chunk.
    /// Reading these bytes gives the container back.
    pub fn as_bytes(&self) -> (bytes: Vec<u8>)
        ensures
            bytes@ == serialize_png(self@),
            parse_png(bytes@) == Ok::<Seq<ChunkView>, PngError>(self@),
    {
        let mut bytes: Vec<u8> = Vec::new();
        bytes.extend_from_slice(Png::STANDARD_HEADER.as_slice());
        assert(bytes@ =~= signature());
        let mut i: usize = 0;
        assert(self@.take(0) =~= Seq::<ChunkView>::empty());
        while i < self.chunks.len()
            invariant
                i <= self.chunks@.len(),
                self@.len() == self.chunks@.len(),
                bytes@ == signature() + serialize_chunks(self@.take(i as int)),
                all_wf(self@.take(i as int)),
            decreases self.chunks@.len() - i,
        {
            let chunk = &self.chunks[i];
            let piece = chunk.as_bytes();
            bytes.extend_from_slice(piece.as_slice());
            proof {
                use_type_invariant(chunk);
                lemma_serialize_chunks_push(self@.take(i as int), self@[i as int]);
                assert(self@.take(i + 1) =~= self@.take(i as int).push(self@[i as int]));
                assert(bytes@ =~= signature() + serialize_chunks(self@.take(i + 1)));
            }
            i += 1;
        }
        proof {
            assert(self@.take(i as int) =~= self@);
            lemma_parse_serialized_png(self@);
        }
        bytes
    }

    /// The container ends as a PNG file must: its last chunk is the
    /// end-of-image chunk.
    pub fn verify(&self) -> (r: bool)
        ensures
            r == ends_with_terminator(self@),
    {
        let n = self.chunks.len();
        if n == 0 {
            return false;
        }
        let last = self.chunks[n - 1].get_type();
        proof {
            lemma_role_of_known_codes(self@[n - 1].code);
        }
        match last {
            Types::IEND => true,
            _ => false,
        }
    }

    /// One line of text for each chunk, in order.
    pub fn summaries(&self) -> (lines: Vec<String>)
        ensures
            lines@.len() == self@.len(),
            forall|i: int| 0 <= i < lines@.len() ==> (#[trigger] lines@[i])@ == summary(self@[i]),
    {
        let mut lines: Vec<String> = Vec::new();
        let mut i: usize = 0;
        while i < self.chunks.len()
            invariant
                i <= self.chunks@.len(),
                self@.len() == self.chunks@.len(),
                lines@.len() == i,
                forall|j: int| 0 <= j < i ==> (#[trigger] lines@[j])@ == summary(self@[j]),
            decreases self.chunks@.len() - i,
        {
            lines.push(self.chunks[i].to_string());
            i += 1;
        }
        lines
    }
}

/// Appending a chunk to a sequence appends its bytes to the serialisation.
pub proof fn lemma_serialize_chunks_push(chunks: Seq<ChunkView>, chunk: ChunkView)
    ensures
        serialize_chunks(chunks.push(chunk)) == serialize_chunks(chunks) + chunk.serialize(),
    decreases chunks.len(),
{
    let extended = chunks.push(chunk);
    if chunks.len() == 0 {
        assert(extended.skip(1) =~= Seq::<ChunkView>::empty());
        assert(serialize_chunks(extended.skip(1)) =~= Seq::<u8>::empty());
        assert(serialize_chunks(extended) =~= chunk.serialize());
    } else {
        lemma_serialize_chunks_push(chunks.skip(1), chunk);
        assert(extended.skip(1) =~= chunks.skip(1).push(chunk));
        assert(serialize_chunks(extended) =~= serialize_chunks(chunks) + chunk.serialize());
    }
}

/// Reading the serialisation of well-formed chunks, wherever it stands at the
/// end of a buffer, gives the chunks back.
pub proof fn lemma_parse_serialized_chunks(before: Seq<u8>, chunks: Seq<ChunkView>)
    requires
        all_wf(chunks),
    ensures
        parse_chunks(before + serialize_chunks(chunks), before.len()) == Ok::<
            Seq<ChunkView>,
            PngError,
        >(chunks),
    decreases chunks.len(),
{
    let bytes = before + serialize_chunks(chunks);
    if chunks.len() == 0 {
        assert(serialize_chunks(chunks) =~= Seq::<u8>::empty());
        assert(chunks =~= Seq::<ChunkView>::empty());
    } else {
        let head = chunks[0];
        let tail = chunks.skip(1);
        assert(head.wf());
        assert(all_wf(tail)) by {
            assert forall|i: int| 0 <= i < tail.len() implies (#[trigger] tail[i]).wf() by {
                assert(tail[i] == chunks[i + 1]);
            }
        }
        lemma_parse_serialized_chunk(head, serialize_chunks(tail));
        assert(bytes.subrange(before.len() as int, bytes.len() as int) =~= head.serialize()
            + serialize_chunks(tail));
        lemma_parse_serialized_chunks(before + head.serialize(), tail);
        assert(before + head.serialize() + serialize_chunks(tail) =~= bytes);
        assert(seq![head] + tail =~= chunks);
    }
}

/// Chunks that were read from offset `at` on are well formed, and their
/// serialisation is the buffer from `at` on.
pub proof fn lemma_serialize_parsed_chunks(bytes: Seq<u8>, at: nat)
    requires
        at <= bytes.len(),
        parse_chunks(bytes, at) is Ok,
    ensures
        all_wf(parse_chunks(bytes, at).unwrap()),
        serialize_chunks(parse_chunks(bytes, at).unwrap()) == bytes.subrange(
            at as int,
            bytes.len() as int,
        ),
    decreases bytes.len() - at,
{
    let chunks = parse_chunks(bytes, at).unwrap();
    let rest = bytes.subrange(at as int, bytes.len() as int);
    if at >= bytes.len() {
        assert(serialize_chunks(chunks) =~= rest);
    } else {
        let (head, used) = parse_chunk(rest).unwrap();
        lemma_serialize_parsed_chunk(rest);
        lemma_serialize_parsed_chunks(bytes, at + used);
        let tail = parse_chunks(bytes, at + used).unwrap();
        assert(chunks == seq![head] + tail);
        assert(chunks.skip(1) =~= tail);
        assert(serialize_chunks(chunks) =~= rest) by {
            assert(rest.subrange(0, used as int) + bytes.subrange(
                (at + used) as int,
                bytes.len() as int,
            ) =~= rest);
        }
        assert forall|i: int| 0 <= i < chunks.len() implies (#[trigger] chunks[i]).wf() by {
            if i > 0 {
                assert(chunks[i] == tail[i - 1]);
            }
        }
    }
}

/// A container that was read is made of well-formed chunks, and serialising
/// it gives back the buffer it was read from, byte for byte.
pub proof fn lemma_serialize_parsed_png(bytes: Seq<u8>)
    requires
        parse_png(bytes) is Ok,
    ensures
        all_wf(parse_png(bytes).unwrap()),
        serialize_png(parse_png(bytes).unwrap()) == bytes,
{
    lemma_serialize_parsed_chunks(bytes, 8);
    assert(bytes.subrange(0, 8) + bytes.subrange(8, bytes.len() as int) =~= bytes);
}

/// Serialising well-formed chunks and reading the result gives the same
/// chunks in the same order.
pub proof fn lemma_parse_serialized_png(chunks: Seq<ChunkView>)
    requires
        all_wf(chunks),
    ensures
        parse_png(serialize_png(chunks)) == Ok::<Seq<ChunkView>, PngError>(chunks),
{
    lemma_parse_serialized_chunks(signature(), chunks);
    assert(serialize_png(chunks).subrange(0, 8) =~= signature());
}

} // verus!
