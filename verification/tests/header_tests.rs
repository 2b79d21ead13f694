use pngme::chunk::Chunk;
use pngme::chunk_type::ChunkType;
use pngme::idat_chunk::{IdatChunk, IdatChunkError};
use pngme::ihdr_chunk::{IhdrChunk, IhdrChunkError};
use std::convert::TryFrom;
use std::str::FromStr;

fn header_payload() -> Vec<u8> {
    vec![0, 0, 1, 0, 0, 0, 2, 88, 8, 6, 0, 0, 1]
}

fn header_chunk() -> Chunk {
    Chunk::new(ChunkType::from_str("IHDR").unwrap(), header_payload()).unwrap()
}

#[test]
fn header_fields_are_read_in_order() {
    let header = IhdrChunk::try_from(header_chunk()).unwrap();
    assert_eq!(header.width, 256);
    assert_eq!(header.height, 600);
    assert_eq!(header.bit_depth, 8);
    assert_eq!(header.color_type, 6);
    assert_eq!(header.compression_method, 0);
    assert_eq!(header.filter_method, 0);
    assert_eq!(header.interlace_method, 1);
    assert_eq!(IhdrChunk::from_chunk(&header_chunk()), Ok(header));
}

#[test]
fn header_of_largest_dimensions() {
    let payload = vec![255, 255, 255, 255, 128, 0, 0, 1, 16, 2, 3, 4, 5];
    let chunk = Chunk::new(ChunkType::from_str("IHDR").unwrap(), payload).unwrap();
    let header = IhdrChunk::from_chunk(&chunk).unwrap();
    assert_eq!(header.width, 4294967295);
    assert_eq!(header.height, 2147483649);
    assert_eq!(
        header.to_string(),
        "IHDR : 4294967295x2147483649 bith_depth=16, color_type=2, compression_method=3, filter_method=4, interlace_method=5\n"
    );
}

#[test]
fn header_needs_thirteen_bytes() {
    for n in [0usize, 1, 12, 14, 26] {
        let chunk = Chunk::new(ChunkType::from_str("IHDR").unwrap(), vec![0u8; n]).unwrap();
        assert_eq!(IhdrChunk::from_chunk(&chunk), Err(IhdrChunkError::InvalidLength));
        assert_eq!(IhdrChunk::try_from(chunk), Err(IhdrChunkError::InvalidLength));
    }
}

#[test]
fn header_line() {
    let header = IhdrChunk::try_from(header_chunk()).unwrap();
    assert_eq!(
        header.to_string(),
        format!(
            "IHDR : {}x{} bith_depth={}, color_type={}, compression_method={}, filter_method={}, interlace_method={}\n",
            256, 600, 8, 6, 0, 0, 1
        )
    );
}

#[test]
fn header_chunk_summary_is_the_header_line() {
    assert_eq!(
        header_chunk().to_string(),
        "IHDR : 256x600 bith_depth=8, color_type=6, compression_method=0, filter_method=0, interlace_method=1\n"
    );
}

#[test]
fn malformed_header_chunk_falls_back_to_the_plain_line() {
    let chunk = Chunk::new(ChunkType::from_str("IHDR").unwrap(), vec![1, 2, 3]).unwrap();
    assert_eq!(
        chunk.to_string(),
        format!("Chunk: Data_len=3, type=IHDR, crc={}\n", chunk.crc())
    );
}

#[test]
fn header_error_message() {
    assert_eq!(
        IhdrChunkError::InvalidLength.to_string(),
        "IHDR chunk must be exactly 13 bytes long"
    );
}

#[test]
fn the_data_record_reads_the_same_layout() {
    let record = IdatChunk::try_from(header_chunk()).unwrap();
    assert_eq!(
        record,
        IdatChunk {
            width: 256,
            height: 600,
            bit_depth: 8,
            color_type: 6,
            compression_method: 0,
            filter_method: 0,
            interlace_method: 1,
        }
    );
    assert_eq!(IdatChunk::from_chunk(&header_chunk()), Ok(record));
    let payload = vec![0, 0, 0, 7, 0, 0, 0, 9, 1, 2, 3, 4, 5];
    let data = Chunk::new(ChunkType::from_str("IDAT").unwrap(), payload).unwrap();
    let record = IdatChunk::try_from(data).unwrap();
    assert_eq!(record.width, 7);
    assert_eq!(record.height, 9);
    assert_eq!(record.bit_depth, 1);
    assert_eq!(record.color_type, 2);
    assert_eq!(record.compression_method, 3);
    assert_eq!(record.filter_method, 4);
    assert_eq!(record.interlace_method, 5);
}

#[test]
fn the_data_record_needs_thirteen_bytes() {
    for n in [0usize, 4, 12, 14] {
        let short = Chunk::new(ChunkType::from_str("IDAT").unwrap(), vec![0u8; n]).unwrap();
        assert_eq!(IdatChunk::from_chunk(&short), Err(IdatChunkError::InvalidLength));
        assert_eq!(IdatChunk::try_from(short), Err(IdatChunkError::InvalidLength));
    }
}

#[test]
fn the_data_record_is_described_as_a_header_is() {
    let record = IdatChunk::try_from(header_chunk()).unwrap();
    let header = IhdrChunk::try_from(header_chunk()).unwrap();
    assert_eq!(record.to_string(), header.to_string());
    assert_eq!(
        record.to_string(),
        "IHDR : 256x600 bith_depth=8, color_type=6, compression_method=0, filter_method=0, interlace_method=1\n"
    );
    assert_eq!(
        IdatChunkError::InvalidLength.to_string(),
        "IHDR chunk must be exactly 13 bytes long"
    );
}
