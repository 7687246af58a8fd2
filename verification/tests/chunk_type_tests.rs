use pngme::chunk_type::ChunkType;
use pngme::error::PngError;
use std::convert::TryFrom;
use std::str::FromStr;

#[test]
pub fn test_chunk_type_from_bytes() {
    let expected = [82, 117, 83, 116];
    let actual = ChunkType::try_from([82, 117, 83, 116]).unwrap();

    assert_eq!(expected, actual.bytes());
}

#[test]
pub fn test_chunk_type_from_str() {
    let expected = ChunkType::try_from([82, 117, 83, 116]).unwrap();
    let actual = ChunkType::from_str("RuSt").unwrap();
    assert_eq!(expected, actual);
}

#[test]
pub fn test_chunk_type_is_critical() {
    let chunk = ChunkType::from_str("RuSt").unwrap();
    assert!(chunk.is_critical());
}

#[test]
pub fn test_chunk_type_is_not_critical() {
    let chunk = ChunkType::from_str("ruSt").unwrap();
    assert!(!chunk.is_critical());
}

#[test]
pub fn test_chunk_type_is_public() {
    let chunk = ChunkType::from_str("RUSt").unwrap();
    assert!(chunk.is_public());
}

#[test]
pub fn test_chunk_type_is_not_public() {
    let chunk = ChunkType::from_str("RuSt").unwrap();
    assert!(!chunk.is_public());
}

#[test]
pub fn test_chunk_type_is_reserved_bit_valid() {
    let chunk = ChunkType::from_str("RuSt").unwrap();
    assert!(chunk.is_reserved_bit_valid());
}

#[test]
pub fn test_chunk_type_is_reserved_bit_invalid() {
    let chunk = ChunkType::from_str("Rust").unwrap();
    assert!(!chunk.is_reserved_bit_valid());
}

#[test]
pub fn test_chunk_type_is_safe_to_copy() {
    let chunk = ChunkType::from_str("RuSt").unwrap();
    assert!(chunk.is_safe_to_copy());
}

#[test]
pub fn test_chunk_type_is_unsafe_to_copy() {
    let chunk = ChunkType::from_str("RuST").unwrap();
    assert!(!chunk.is_safe_to_copy());
}

#[test]
pub fn test_valid_chunk_is_valid() {
    let chunk = ChunkType::from_str("RuSt").unwrap();
    assert!(chunk.is_valid());
}

#[test]
pub fn test_invalid_chunk_is_valid() {
    let chunk = ChunkType::from_str("Rust").unwrap();
    assert!(!chunk.is_valid());

    let chunk = ChunkType::from_str("Ru1t");
    assert!(chunk.is_err());
}

#[test]
pub fn test_chunk_type_string() {
    let chunk = ChunkType::from_str("RuSt").unwrap();
    assert_eq!(&chunk.to_string(), "RuSt");
}

#[test]
pub fn test_chunk_type_trait_impls() {
    let chunk_type_1: ChunkType = TryFrom::try_from([82, 117, 83, 116]).unwrap();
    let chunk_type_2: ChunkType = FromStr::from_str("RuSt").unwrap();
    let _chunk_string = chunk_type_1.to_string();
    let _are_chunks_equal = chunk_type_1 == chunk_type_2;
}

#[test]
pub fn test_chunk_type_flags_of_valid_code() {
    let chunk = ChunkType::from_str("RuSt").unwrap();
    assert!(chunk.is_critical());
    assert!(!chunk.is_public());
    assert!(chunk.is_reserved_bit_valid());
    assert!(chunk.is_safe_to_copy());
    assert!(chunk.is_valid());
}

#[test]
pub fn test_chunk_type_reserved_bit_does_not_block_construction() {
    let chunk = ChunkType::from_str("Rust").unwrap();
    assert!(!chunk.is_reserved_bit_valid());
    assert!(!chunk.is_valid());
    assert_eq!(chunk.bytes(), [82, 117, 115, 116]);
}

#[test]
pub fn test_chunk_type_digit_is_rejected() {
    assert_eq!(ChunkType::from_str("Ru1t"), Err(PngError::InvalidTypeBytes));
    assert_eq!(
        ChunkType::try_from([82, 117, 49, 116]),
        Err(PngError::InvalidTypeBytes)
    );
}

#[test]
pub fn test_chunk_type_wrong_length_is_rejected() {
    assert_eq!(ChunkType::from_str(""), Err(PngError::WrongLength));
    assert_eq!(ChunkType::from_str("RuS"), Err(PngError::WrongLength));
    assert_eq!(ChunkType::from_str("RuStt"), Err(PngError::WrongLength));
}

#[test]
pub fn test_chunk_type_length_counts_bytes() {
    // Two characters, four bytes: the length fits, the bytes are no letters.
    assert_eq!(ChunkType::from_str("éé"), Err(PngError::InvalidTypeBytes));
    // Four characters, five bytes.
    assert_eq!(ChunkType::from_str("Rußt"), Err(PngError::WrongLength));
}

#[test]
pub fn test_chunk_type_edges_of_the_alphabet() {
    for text in ["AAAA", "ZZZZ", "aaaa", "zzzz", "AzZa"] {
        let chunk = ChunkType::from_str(text).unwrap();
        assert_eq!(chunk.to_string(), text);
    }
    for byte in [0x40u8, 0x5b, 0x60, 0x7b, 0x00, 0xff] {
        assert_eq!(
            ChunkType::try_from([byte, 65, 65, 65]),
            Err(PngError::InvalidTypeBytes)
        );
        assert_eq!(
            ChunkType::try_from([65, 65, 65, byte]),
            Err(PngError::InvalidTypeBytes)
        );
    }
}

#[test]
pub fn test_chunk_type_bytes_and_text_round_trip() {
    let chunk = ChunkType::try_from([116, 101, 83, 116]).unwrap();
    assert_eq!(ChunkType::try_from(chunk.bytes()), Ok(chunk));
    assert_eq!(ChunkType::from_str(&chunk.to_string()), Ok(chunk));
    assert_eq!(chunk.to_string(), "teSt");
}

#[test]
pub fn test_chunk_type_equality_is_case_sensitive() {
    let upper = ChunkType::from_str("RuSt").unwrap();
    let lower = ChunkType::from_str("rust").unwrap();
    assert_ne!(upper, lower);
    assert_eq!(upper, ChunkType::from_str("RuSt").unwrap());
}
