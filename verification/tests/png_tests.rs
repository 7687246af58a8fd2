use pngme::chunk::Chunk;
use pngme::chunk_type::ChunkType;
use pngme::error::PngError;
use pngme::png::Png;
use std::convert::TryFrom;
use std::str::FromStr;

const SIGNATURE: [u8; 8] = [137, 80, 78, 71, 13, 10, 26, 10];

fn chunk_of(chunk_type: &str, data: &[u8]) -> Chunk {
    Chunk::new(ChunkType::from_str(chunk_type).unwrap(), data.to_vec())
}

fn types_of(png: &Png) -> Vec<String> {
    png.chunks()
        .iter()
        .map(|chunk| chunk.chunk_type().to_string())
        .collect()
}

fn three_chunks() -> Png {
    Png::from_chunks(vec![
        chunk_of("IHDR", &[0, 0, 0, 1, 0, 0, 0, 1, 8, 0, 0, 0, 0]),
        chunk_of("teSt", b"hello"),
        chunk_of("IEND", b""),
    ])
}

#[test]
fn test_png_header() {
    let png = Png::from_chunks(Vec::new());
    assert_eq!(png.header(), SIGNATURE);
    assert_eq!(png.as_bytes(), SIGNATURE.to_vec());
    assert!(png.chunks().is_empty());
}

#[test]
fn test_png_of_signature_alone() {
    let png = Png::try_from(&SIGNATURE[..]).unwrap();
    assert!(png.chunks().is_empty());
    assert_eq!(png.as_bytes(), SIGNATURE.to_vec());
}

#[test]
fn test_png_bad_signature() {
    for n in 0..8 {
        assert_eq!(
            Png::try_from(&SIGNATURE[..n]).err(),
            Some(PngError::BadSignature)
        );
    }
    for i in 0..8 {
        let mut bytes = three_chunks().as_bytes();
        bytes[i] ^= 0x20;
        assert_eq!(
            Png::try_from(bytes.as_ref()).err(),
            Some(PngError::BadSignature)
        );
    }
}

#[test]
fn test_png_as_bytes_is_signature_then_chunks() {
    let png = three_chunks();
    let mut expected = SIGNATURE.to_vec();
    for chunk in png.chunks() {
        expected.extend(chunk.as_bytes());
    }
    assert_eq!(png.as_bytes(), expected);
    assert_eq!(expected.len(), 8 + 25 + 17 + 12);
}

#[test]
fn test_png_round_trip() {
    let png = three_chunks();
    let bytes = png.as_bytes();
    let again = Png::try_from(bytes.as_ref()).unwrap();
    assert_eq!(types_of(&again), vec!["IHDR", "teSt", "IEND"]);
    assert_eq!(again.chunks().len(), png.chunks().len());
    for (a, b) in again.chunks().iter().zip(png.chunks().iter()) {
        assert_eq!(a.length(), b.length());
        assert_eq!(a.chunk_type(), b.chunk_type());
        assert_eq!(a.data(), b.data());
        assert_eq!(a.crc(), b.crc());
    }
}

#[test]
fn test_png_rewriting_is_stable() {
    let first = three_chunks().as_bytes();
    let mut bytes = first.clone();
    for _ in 0..3 {
        bytes = Png::try_from(bytes.as_ref()).unwrap().as_bytes();
        assert_eq!(bytes, first);
    }
}

#[test]
fn test_png_encode_then_decode() {
    let mut png = Png::try_from(&SIGNATURE[..]).unwrap();
    png.append_chunk(Chunk::new(
        ChunkType::from_str("teSt").unwrap(),
        b"hello".to_vec(),
    ));
    let bytes = png.as_bytes();
    let again = Png::try_from(bytes.as_ref()).unwrap();
    let chunk = again.chunk_by_type("teSt").unwrap();
    assert_eq!(chunk.data_as_string(), Ok(String::from("hello")));
}

#[test]
fn test_png_remove() {
    let mut png = three_chunks();
    let removed = png.remove_first_chunk("teSt").unwrap();
    assert_eq!(removed.chunk_type().to_string(), "teSt");
    assert_eq!(removed.data(), b"hello");
    assert_eq!(types_of(&png), vec!["IHDR", "IEND"]);
    assert_eq!(
        png.remove_first_chunk("teSt").err(),
        Some(PngError::ChunkNotFound)
    );
    assert_eq!(types_of(&png), vec!["IHDR", "IEND"]);
}

#[test]
fn test_png_append_keeps_order_and_duplicates() {
    let mut png = three_chunks();
    png.append_chunk(chunk_of("teSt", b"second"));
    png.append_chunk(chunk_of("IEND", b""));
    assert_eq!(types_of(&png), vec!["IHDR", "teSt", "IEND", "teSt", "IEND"]);
    // The first of two chunks of one type is found, and the first is removed.
    assert_eq!(png.chunk_by_type("teSt").unwrap().data(), b"hello");
    let removed = png.remove_first_chunk("teSt").unwrap();
    assert_eq!(removed.data(), b"hello");
    assert_eq!(types_of(&png), vec!["IHDR", "IEND", "teSt", "IEND"]);
    assert_eq!(png.chunk_by_type("teSt").unwrap().data(), b"second");
}

#[test]
fn test_png_chunk_by_type() {
    let png = three_chunks();
    assert_eq!(png.chunk_by_type("IHDR").unwrap().length(), 13);
    assert_eq!(png.chunk_by_type("IEND").unwrap().length(), 0);
    assert!(png.chunk_by_type("test").is_none());
    assert!(png.chunk_by_type("TEST").is_none());
    assert!(png.chunk_by_type("").is_none());
    assert!(png.chunk_by_type("teStx").is_none());
    assert!(png.chunk_by_type("t\u{e9}S").is_none());
}

#[test]
fn test_png_chunk_errors_are_passed_on() {
    let good = three_chunks().as_bytes();

    // A changed payload byte in the second chunk.
    let mut bytes = good.clone();
    bytes[8 + 25 + 8] ^= 1;
    assert_eq!(
        Png::try_from(bytes.as_ref()).err(),
        Some(PngError::ChecksumMismatch)
    );

    // A digit in the type of the first chunk.
    let mut bytes = good.clone();
    bytes[8 + 4] = b'1';
    assert_eq!(
        Png::try_from(bytes.as_ref()).err(),
        Some(PngError::InvalidTypeBytes)
    );

    // The file ends inside the last chunk.
    assert_eq!(
        Png::try_from(&good[..good.len() - 1]).err(),
        Some(PngError::IncompleteChunk)
    );
    assert_eq!(
        Png::try_from(&good[..8 + 25 + 10]).err(),
        Some(PngError::TruncatedData)
    );

    // One to three bytes behind the last chunk hold no length field.
    for extra in 1..4 {
        let mut bytes = good.clone();
        bytes.extend(vec![0u8; extra]);
        assert_eq!(
            Png::try_from(bytes.as_ref()).err(),
            Some(PngError::IncompleteChunk)
        );
    }
}

#[test]
fn test_png_first_error_wins() {
    let mut bytes = three_chunks().as_bytes();
    // The first chunk gets a wrong checksum, the second a wrong type.
    bytes[8 + 24] ^= 0xff;
    bytes[8 + 25 + 4] = b'1';
    assert_eq!(
        Png::try_from(bytes.as_ref()).err(),
        Some(PngError::ChecksumMismatch)
    );
}

#[test]
fn test_png_to_string() {
    let mut png = Png::from_chunks(vec![
        chunk_of("teSt", b"hello"),
        chunk_of("biNa", &[0xff, 0x00]),
        chunk_of("IEND", b""),
    ]);
    assert_eq!(png.to_string(), "teSt: hello\nbiNa\nIEND: \n");
    png.append_chunk(chunk_of("teXt", "grüße".as_bytes()));
    assert_eq!(png.to_string(), "teSt: hello\nbiNa\nIEND: \nteXt: grüße\n");
    assert_eq!(Png::from_chunks(Vec::new()).to_string(), "");
}
