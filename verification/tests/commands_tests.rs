use pngme::chunk::Chunk;
use pngme::chunk_type::ChunkType;
use pngme::commands::decode_msg;
use pngme::commands::encode_msg;
use pngme::commands::print_msg;
use pngme::commands::remove_msg;
use pngme::error::PngError;
use pngme::png::Png;
use std::convert::TryFrom;
use std::str::FromStr;

fn picture() -> Vec<u8> {
    Png::from_chunks(vec![
        Chunk::new(
            ChunkType::from_str("IHDR").unwrap(),
            vec![0, 0, 0, 200, 0, 0, 0, 100, 8, 0, 0, 0, 0],
        ),
        Chunk::new(ChunkType::from_str("IEND").unwrap(), Vec::new()),
    ])
    .as_bytes()
}

#[test]
fn test_encode_msg_appends_a_chunk() {
    let file = picture();
    let out = encode_msg(&file, "teSt", b"hello".to_vec()).unwrap();
    let chunk = Chunk::new(ChunkType::from_str("teSt").unwrap(), b"hello".to_vec());
    let mut expected = file.clone();
    expected.extend(chunk.as_bytes());
    assert_eq!(out, expected);
    let png = Png::try_from(out.as_ref()).unwrap();
    assert_eq!(png.chunks().len(), 3);
    assert_eq!(png.chunks()[2].data(), b"hello");
}

#[test]
fn test_encode_msg_errors() {
    let file = picture();
    assert_eq!(
        encode_msg(&file[1..], "teSt", b"hello".to_vec()),
        Err(PngError::BadSignature)
    );
    assert_eq!(
        encode_msg(&file, "teS", b"hello".to_vec()),
        Err(PngError::WrongLength)
    );
    assert_eq!(
        encode_msg(&file, "te5t", b"hello".to_vec()),
        Err(PngError::InvalidTypeBytes)
    );
    // The file is read before the type.
    assert_eq!(
        encode_msg(&file[..file.len() - 2], "te5t", b"hello".to_vec()),
        Err(PngError::IncompleteChunk)
    );
}

#[test]
fn test_decode_msg() {
    let file = picture();
    assert_eq!(decode_msg(&file, "teSt"), Ok(None));
    let out = encode_msg(&file, "teSt", b"hello".to_vec()).unwrap();
    assert_eq!(decode_msg(&out, "teSt"), Ok(Some(String::from("hello"))));
    assert_eq!(decode_msg(&out, "test"), Ok(None));
    let out = encode_msg(&out, "teSt", b"again".to_vec()).unwrap();
    assert_eq!(decode_msg(&out, "teSt"), Ok(Some(String::from("hello"))));
    let out = encode_msg(&file, "biNa", vec![0xc0, 0x80]).unwrap();
    assert_eq!(
        decode_msg(&out, "biNa"),
        Ok(Some(String::from("Invalid utf-8 sequence")))
    );
    assert_eq!(decode_msg(&out[..5], "biNa"), Err(PngError::BadSignature));
}

#[test]
fn test_remove_msg() {
    let file = picture();
    let out = encode_msg(&file, "teSt", b"hello".to_vec()).unwrap();
    assert_eq!(remove_msg(&out, "teSt"), Ok(file.clone()));
    assert_eq!(remove_msg(&file, "teSt"), Err(PngError::ChunkNotFound));
    let mut broken = out.clone();
    let last = broken.len() - 1;
    broken[last] ^= 1;
    assert_eq!(remove_msg(&broken, "teSt"), Err(PngError::ChecksumMismatch));
    // The chunk that is removed is the first of its type.
    let twice = encode_msg(&out, "teSt", b"again".to_vec()).unwrap();
    let once = remove_msg(&twice, "teSt").unwrap();
    assert_eq!(decode_msg(&once, "teSt"), Ok(Some(String::from("again"))));
    assert_eq!(once, encode_msg(&file, "teSt", b"again".to_vec()).unwrap());
}

#[test]
fn test_print_msg() {
    let out = encode_msg(&picture(), "teSt", b"hello".to_vec()).unwrap();
    // The header's payload is no text, so only its type is shown.
    assert_eq!(print_msg(&out), Ok(String::from("IHDR\nIEND: \nteSt: hello\n")));
    let plain = encode_msg(&[137, 80, 78, 71, 13, 10, 26, 10], "teXt", b"a: b".to_vec()).unwrap();
    assert_eq!(print_msg(&plain), Ok(String::from("teXt: a: b\n")));
    assert_eq!(print_msg(&out[..9]), Err(PngError::IncompleteChunk));
    assert_eq!(print_msg(&[]), Err(PngError::BadSignature));
}
