use pngme::chunk_type::{ChunkType, ChunkTypeError, Types};
use std::convert::TryFrom;
use std::str::FromStr;

#[test]
pub fn test_chunk_type_from_bytes() {
    let expected = [82, 117, 83, 116];
    let actual = ChunkType::try_from([82, 117, 83, 116]).unwrap();

    assert_eq!(expected, actual.bytes());
}

#[test]
pub fn test_chunk_type_from_str() {
    let expected = ChunkType::try_from([82, 117, 83, 116]).unwrap();
    let actual = ChunkType::from_str("RuSt").unwrap();
    assert_eq!(expected, actual);
}

#[test]
pub fn test_chunk_type_is_critical() {
    let chunk = ChunkType::from_str("RuSt").unwrap();
    assert!(chunk.is_critical());
}

#[test]
pub fn test_chunk_type_is_not_critical() {
    let chunk = ChunkType::from_str("ruSt").unwrap();
    assert!(!chunk.is_critical());
}

#[test]
pub fn test_chunk_type_is_public() {
    let chunk = ChunkType::from_str("RUSt").unwrap();
    assert!(chunk.is_public());
}

#[test]
pub fn test_chunk_type_is_not_public() {
    let chunk = ChunkType::from_str("RuSt").unwrap();
    assert!(!chunk.is_public());
}

#[test]
pub fn test_chunk_type_is_reserved_bit_valid() {
    let chunk = ChunkType::from_str("RuSt").unwrap();
    assert!(chunk.is_reserved_bit_valid());
}

#[test]
pub fn test_chunk_type_is_reserved_bit_invalid() {
    let chunk = ChunkType::from_str("Rust").unwrap();
    assert!(!chunk.is_reserved_bit_valid());
}

#[test]
pub fn test_chunk_type_is_safe_to_copy() {
    let chunk = ChunkType::from_str("RuSt").unwrap();
    assert!(chunk.is_safe_to_copy());
}

#[test]
pub fn test_chunk_type_is_unsafe_to_copy() {
    let chunk = ChunkType::from_str("RuST").unwrap();
    assert!(!chunk.is_safe_to_copy());
}

#[test]
pub fn test_valid_chunk_is_valid() {
    let chunk = ChunkType::from_str("RuSt").unwrap();
    assert!(chunk.is_valid());
}

#[test]
pub fn test_invalid_chunk_is_valid() {
    let chunk = ChunkType::from_str("Rust").unwrap();
    assert!(!chunk.is_valid());

    let chunk = ChunkType::from_str("Ru1t");
    assert!(chunk.is_err());
}

#[test]
pub fn test_chunk_type_string() {
    let chunk = ChunkType::from_str("RuSt").unwrap();
    assert_eq!(&chunk.to_string(), "RuSt");
}

#[test]
pub fn test_chunk_type_trait_impls() {
    let chunk_type_1: ChunkType = TryFrom::try_from([82, 117, 83, 116]).unwrap();
    let chunk_type_2: ChunkType = FromStr::from_str("RuSt").unwrap();
    let _chunk_string = format!("{}", chunk_type_1.to_string());
    let _are_chunks_equal = chunk_type_1 == chunk_type_2;
}

#[test]
fn classification_of_rust_code() {
    let code = ChunkType::from_str("RuSt").unwrap();
    assert!(code.is_critical());
    assert!(!code.is_public());
    assert!(code.is_reserved_bit_valid());
    assert!(code.is_safe_to_copy());
    assert!(code.is_valid());
}

#[test]
fn reserved_bit_does_not_block_construction() {
    let code = ChunkType::from_str("Rust").unwrap();
    assert_eq!(code.bytes(), [82, 117, 115, 116]);
    assert!(!code.is_reserved_bit_valid());
}

#[test]
fn digit_in_code_is_not_ascii_letter() {
    assert_eq!(ChunkType::from_str("Ru1t"), Err(ChunkTypeError::NotASCII));
    assert_eq!(ChunkType::from_bytes(b"Ru1t"), Err(ChunkTypeError::NotASCII));
}

#[test]
fn five_letters_is_invalid_length() {
    assert_eq!(ChunkType::from_str("abcde"), Err(ChunkTypeError::InvalidLength));
    assert_eq!(ChunkType::from_str("abc"), Err(ChunkTypeError::InvalidLength));
    assert_eq!(ChunkType::from_str(""), Err(ChunkTypeError::InvalidLength));
}

#[test]
fn length_is_checked_before_letters() {
    assert_eq!(ChunkType::from_str("12345"), Err(ChunkTypeError::InvalidLength));
}

#[test]
fn length_counts_bytes_not_characters() {
    // Two characters of two bytes each: four bytes, none of them a letter.
    assert_eq!(ChunkType::from_str("éé"), Err(ChunkTypeError::NotASCII));
    // Four characters, five bytes.
    assert_eq!(ChunkType::from_str("abcé"), Err(ChunkTypeError::InvalidLength));
}

#[test]
fn boundary_bytes_around_the_letters() {
    for b in [64u8, 91, 96, 123, 0, 255, 32] {
        assert_eq!(ChunkType::try_from([b, 65, 65, 65]), Err(ChunkTypeError::NotASCII));
        assert_eq!(ChunkType::try_from([65, 65, 65, b]), Err(ChunkTypeError::NotASCII));
    }
    for b in [65u8, 90, 97, 122] {
        let code = ChunkType::try_from([b, b, b, b]).unwrap();
        assert_eq!(code.bytes(), [b, b, b, b]);
    }
}

#[test]
fn well_known_codes_have_their_roles() {
    assert_eq!(ChunkType::from_str("IHDR").unwrap().get_type(), Types::IHDR);
    assert_eq!(ChunkType::from_str("IDAT").unwrap().get_type(), Types::IDAT);
    assert_eq!(ChunkType::from_str("PLTE").unwrap().get_type(), Types::PLTE);
    assert_eq!(ChunkType::from_str("IEND").unwrap().get_type(), Types::IEND);
    assert_eq!(ChunkType::from_str("RuSt").unwrap().get_type(), Types::ANCILLARY);
    assert_eq!(ChunkType::from_str("iend").unwrap().get_type(), Types::ANCILLARY);
    assert_eq!(ChunkType::_get_type_from_code([73, 72, 68, 82]), Types::IHDR);
    assert_eq!(ChunkType::_get_type_from_code([73, 72, 68, 83]), Types::ANCILLARY);
}

#[test]
fn type_error_messages() {
    assert_eq!(
        ChunkTypeError::InvalidLength.to_string(),
        "Input must be exactly 4 bytes/characters long"
    );
    assert_eq!(ChunkTypeError::NotASCII.to_string(), "Not all data is ASCII");
}

#[test]
fn parse_through_str_parse() {
    let code: ChunkType = "bLOb".parse().unwrap();
    assert_eq!(code.to_string(), "bLOb");
    assert!(!code.is_critical());
    assert!(code.is_public());
    assert!(code.is_reserved_bit_valid());
    assert!(code.is_safe_to_copy());
}
