use pngme::chunk::{Chunk, ChunkError};
use pngme::chunk_type::{ChunkType, ChunkTypeError, Types};
use pngme::png::{Png, PngError};
use std::convert::TryFrom;
use std::str::FromStr;

const SIGNATURE: [u8; 8] = [137, 80, 78, 71, 13, 10, 26, 10];

fn chunk(code: &str, payload: &[u8]) -> Chunk {
    Chunk::new(ChunkType::from_str(code).unwrap(), payload.to_vec()).unwrap()
}

fn code(text: &str) -> ChunkType {
    ChunkType::from_str(text).unwrap()
}

fn header_payload() -> Vec<u8> {
    vec![0, 0, 0, 1, 0, 0, 0, 1, 8, 0, 0, 0, 0]
}

fn minimal_file() -> Vec<u8> {
    let mut bytes = SIGNATURE.to_vec();
    bytes.extend_from_slice(&chunk("IHDR", &header_payload()).as_bytes());
    bytes.extend_from_slice(&chunk("IEND", &[]).as_bytes());
    bytes
}

fn codes(png: &Png) -> Vec<String> {
    png.chunks().iter().map(|c| c.type_str()).collect()
}

#[test]
fn the_signature_constant() {
    assert_eq!(Png::STANDARD_HEADER, SIGNATURE);
    assert_eq!(&Png::STANDARD_HEADER[1..4], b"PNG");
}

#[test]
fn minimal_file_is_two_chunks() {
    let bytes = minimal_file();
    assert_eq!(bytes.len(), 8 + 25 + 12);
    let png = Png::try_from(bytes.as_slice()).unwrap();
    assert_eq!(codes(&png), vec!["IHDR", "IEND"]);
    assert_eq!(png.chunks()[0].data(), header_payload().as_slice());
    assert_eq!(png.chunks()[1].length(), 0);
}

#[test]
fn container_round_trip() {
    let mut bytes = SIGNATURE.to_vec();
    for (code, payload) in [
        ("IHDR", header_payload()),
        ("tEXt", b"Comment\0hello".to_vec()),
        ("IDAT", vec![1, 2, 3, 4, 5]),
        ("IDAT", vec![]),
        ("ruSt", vec![0xFF; 300]),
        ("IEND", vec![]),
    ] {
        bytes.extend_from_slice(&chunk(code, &payload).as_bytes());
    }
    let png = Png::try_from(bytes.as_slice()).unwrap();
    assert_eq!(codes(&png), vec!["IHDR", "tEXt", "IDAT", "IDAT", "ruSt", "IEND"]);
    assert_eq!(png.as_bytes(), bytes);
}

#[test]
fn signature_alone_is_an_empty_container() {
    let png = Png::try_from(SIGNATURE.as_slice()).unwrap();
    assert_eq!(png.chunks().len(), 0);
    assert_eq!(png.as_bytes(), SIGNATURE.to_vec());
    assert!(!png.verify());
}

#[test]
fn new_container_is_empty() {
    let png = Png::new();
    assert_eq!(png.chunks().len(), 0);
    assert_eq!(png.as_bytes(), SIGNATURE.to_vec());
}

#[test]
fn wrong_or_short_signature() {
    assert_eq!(Png::try_from([].as_slice()).unwrap_err(), PngError::InvalidSignature);
    assert_eq!(
        Png::try_from(&SIGNATURE[..7]).unwrap_err(),
        PngError::InvalidSignature
    );
    for position in 0..8 {
        let mut bytes = minimal_file();
        bytes[position] ^= 1;
        assert_eq!(
            Png::try_from(bytes.as_slice()).unwrap_err(),
            PngError::InvalidSignature
        );
    }
}

#[test]
fn trailing_bytes_are_garbage() {
    let good = minimal_file();
    for extra in 1..12usize {
        let mut bytes = good.clone();
        bytes.extend(std::iter::repeat(0u8).take(extra));
        assert_eq!(
            Png::try_from(bytes.as_slice()).unwrap_err(),
            PngError::TrailingGarbage { offset: good.len() }
        );
    }
}

#[test]
fn truncated_last_chunk_is_garbage_at_its_offset() {
    let good = minimal_file();
    for cut in 1..12usize {
        let bytes = &good[..good.len() - cut];
        assert_eq!(
            Png::try_from(bytes).unwrap_err(),
            PngError::TrailingGarbage { offset: 8 + 25 }
        );
    }
    // Cutting into the first chunk: the bytes from offset 8 on hold no chunk.
    assert_eq!(
        Png::try_from(&good[..20]).unwrap_err(),
        PngError::TrailingGarbage { offset: 8 }
    );
}

#[test]
fn chunk_defects_carry_the_offset_of_the_chunk() {
    let good = minimal_file();
    // A wrong checksum in the second chunk.
    let mut bytes = good.clone();
    let last = bytes.len() - 1;
    bytes[last] ^= 0x01;
    assert_eq!(
        Png::try_from(bytes.as_slice()).unwrap_err(),
        PngError::InvalidChunk { offset: 33, error: ChunkError::InvalidCrc }
    );
    // A digit in the type of the first chunk.
    let mut bytes = good.clone();
    bytes[8 + 4] = b'1';
    assert_eq!(
        Png::try_from(bytes.as_slice()).unwrap_err(),
        PngError::InvalidChunk {
            offset: 8,
            error: ChunkError::InvalidChunkType(ChunkTypeError::NotASCII)
        }
    );
    // A payload byte changed in the first chunk.
    let mut bytes = good.clone();
    bytes[8 + 8] ^= 0x80;
    assert_eq!(
        Png::try_from(bytes.as_slice()).unwrap_err(),
        PngError::InvalidChunk { offset: 8, error: ChunkError::InvalidCrc }
    );
}

#[test]
fn a_failed_parse_yields_no_chunks() {
    let mut bytes = minimal_file();
    bytes.push(0);
    assert!(Png::try_from(bytes.as_slice()).is_err());
}

#[test]
fn append_puts_the_chunk_last_even_after_the_terminator() {
    let mut png = Png::try_from(minimal_file().as_slice()).unwrap();
    png.append_chunk(chunk("ruSt", b"hello"));
    assert_eq!(codes(&png), vec!["IHDR", "IEND", "ruSt"]);
    let mut expected = minimal_file();
    expected.extend_from_slice(&chunk("ruSt", b"hello").as_bytes());
    assert_eq!(png.as_bytes(), expected);
}

#[test]
fn chunk_by_type_finds_the_first_of_several() {
    let mut png = Png::new();
    png.append_chunk(chunk("ruSt", b"first"));
    png.append_chunk(chunk("teSt", b"other"));
    png.append_chunk(chunk("ruSt", b"second"));
    let found = png.chunk_by_type(&code("ruSt")).unwrap();
    assert_eq!(found.data_as_string().unwrap(), "first");
    assert_eq!(png.chunk_by_type(&code("teSt")).unwrap().data(), b"other");
    assert!(png.chunk_by_type(&code("none")).is_none());
}

#[test]
fn chunk_by_type_compares_bytes_exactly() {
    let mut png = Png::new();
    png.append_chunk(chunk("ruSt", b"x"));
    assert!(png.chunk_by_type(&code("RuSt")).is_none());
    assert!(png.chunk_by_type(&code("rust")).is_none());
    assert!(png.chunk_by_type(&code("ruSu")).is_none());
    assert!(png.chunk_by_type(&code("suSt")).is_none());
    assert!(png.chunk_by_type(&code("ruSt")).is_some());
}

#[test]
fn remove_first_takes_only_the_first_and_keeps_the_order() {
    let mut png = Png::new();
    png.append_chunk(chunk("aaaa", b"0"));
    png.append_chunk(chunk("ruSt", b"first"));
    png.append_chunk(chunk("bbbb", b"1"));
    png.append_chunk(chunk("ruSt", b"second"));
    png.append_chunk(chunk("cccc", b"2"));
    let removed = png.remove_first_chunk(&code("ruSt")).unwrap();
    assert_eq!(removed.data(), b"first");
    assert_eq!(codes(&png), vec!["aaaa", "bbbb", "ruSt", "cccc"]);
    let removed = png.remove_first_chunk(&code("ruSt")).unwrap();
    assert_eq!(removed.data(), b"second");
    assert_eq!(codes(&png), vec!["aaaa", "bbbb", "cccc"]);
    assert_eq!(
        png.remove_first_chunk(&code("ruSt")).unwrap_err(),
        PngError::NotFound
    );
    assert_eq!(codes(&png), vec!["aaaa", "bbbb", "cccc"]);
}

#[test]
fn remove_from_an_empty_container() {
    let mut png = Png::new();
    assert_eq!(
        png.remove_first_chunk(&code("ruSt")).unwrap_err(),
        PngError::NotFound
    );
    assert_eq!(png.chunks().len(), 0);
}

#[test]
fn verify_asks_for_the_terminator_last() {
    let mut png = Png::try_from(minimal_file().as_slice()).unwrap();
    assert!(png.verify());
    png.append_chunk(chunk("ruSt", b"hello"));
    assert!(!png.verify());
    png.append_chunk(chunk("IEND", b""));
    assert!(png.verify());
    let mut only_end = Png::new();
    only_end.append_chunk(chunk("IEND", b""));
    assert!(only_end.verify());
    assert!(!Png::new().verify());
}

#[test]
fn summaries_give_one_line_per_chunk() {
    let mut png = Png::try_from(minimal_file().as_slice()).unwrap();
    png.append_chunk(chunk("ruSt", b"hi"));
    let extra = chunk("ruSt", b"hi");
    assert_eq!(
        png.summaries(),
        vec![
            "IHDR : 1x1 bith_depth=8, color_type=0, compression_method=0, filter_method=0, interlace_method=0\n"
                .to_string(),
            "IEND : END OF IMAGE\n".to_string(),
            format!("Chunk: Data_len=2, type=ruSt, crc={}\n", extra.crc()),
        ]
    );
    assert_eq!(Png::new().summaries(), Vec::<String>::new());
}

#[test]
fn roles_of_parsed_chunks() {
    let png = Png::try_from(minimal_file().as_slice()).unwrap();
    assert_eq!(png.chunks()[0].get_type(), Types::IHDR);
    assert_eq!(png.chunks()[1].get_type(), Types::IEND);
}

#[test]
fn end_to_end_append_find_remove() {
    let file = minimal_file();
    let mut png = Png::try_from(file.as_slice()).unwrap();
    let custom = chunk("ruSt", b"hello");
    let record = custom.as_bytes();
    png.append_chunk(custom);

    let written = png.as_bytes();
    let mut reread = Png::try_from(written.as_slice()).unwrap();
    let found = reread.chunk_by_type(&code("ruSt")).unwrap();
    assert_eq!(found.data_as_string().unwrap(), "hello");

    let removed = reread.remove_first_chunk(&code("ruSt")).unwrap();
    assert_eq!(removed.as_bytes(), record);
    assert!(reread.chunk_by_type(&code("ruSt")).is_none());

    let last = reread.as_bytes();
    assert_eq!(last, file);
    assert!(!last.windows(record.len()).any(|window| window == record.as_slice()));
    assert!(written.windows(record.len()).any(|window| window == record.as_slice()));
}
