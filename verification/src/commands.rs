//! The four operations on a PNG file, from the bytes of the file to the
//! bytes or the text that results.

use vstd::prelude::*;
use std::str::FromStr;
use crate::chunk::Chunk;
use crate::chunk::ChunkView;
use crate::chunk_type::ChunkType;
use crate::chunk_type::lemma_type_text_unique;
use crate::chunk_type::parse_type_text;
use crate::error::PngError;
use crate::png::Png;
use crate::png::has_type;
use crate::png::lemma_all_wf_push;
use crate::png::lemma_parsed_png_encodes;
use crate::png::lemma_png_round_trip;
use crate::png::lemma_position_of_type;
use crate::png::lemma_position_of_type_is;
use crate::png::parse_png;
use crate::png::png_to_bytes;
use crate::png::position_of_type;
use crate::png::render;

verus! {

/// The file that results from putting a chunk of the type `chunk_type`, with
/// the payload `message`, behind the chunks of `file`.
pub open spec fn encoded(file: Seq<u8>, chunk_type: Seq<char>, message: Seq<u8>) -> Result<
    Seq<u8>,
    PngError,
> {
    match parse_png(file) {
        Err(e) => Err(e),
        Ok(chunks) => match parse_type_text(chunk_type) {
            Err(e) => Err(e),
            Ok(type_bytes) => Ok(png_to_bytes(chunks.push(ChunkView::new(type_bytes, message)))),
        },
    }
}

/// What is shown for the first chunk of `file` whose type is `chunk_type`,
/// if there is one.
pub open spec fn decoded(file: Seq<u8>, chunk_type: Seq<char>) -> Result<
    Option<Seq<char>>,
    PngError,
> {
    match parse_png(file) {
        Err(e) => Err(e),
        Ok(chunks) => if position_of_type(chunks, chunk_type) < chunks.len() {
            Ok(Some(chunks[position_of_type(chunks, chunk_type)].display()))
        } else {
            Ok(None)
        },
    }
}

/// The file that results from taking the first chunk whose type is
/// `chunk_type` out of `file`.
pub open spec fn removed(file: Seq<u8>, chunk_type: Seq<char>) -> Result<Seq<u8>, PngError> {
    match parse_png(file) {
        Err(e) => Err(e),
        Ok(chunks) => if position_of_type(chunks, chunk_type) < chunks.len() {
            Ok(png_to_bytes(chunks.remove(position_of_type(chunks, chunk_type))))
        } else {
            Err(PngError::ChunkNotFound)
        },
    }
}

/// What is shown for the whole of `file`.
pub open spec fn printed(file: Seq<u8>) -> Result<Seq<char>, PngError> {
    match parse_png(file) {
        Err(e) => Err(e),
        Ok(chunks) => Ok(render(chunks)),
    }
}

/// A message that was embedded is there to be found: the new file reads as
/// the chunks of the old one with the new chunk behind them. Looking for the
/// type of the new chunk shows the message, unless the old file had a chunk
/// of that type already, which is then still the first one.
pub proof fn lemma_encode_then_decode(file: Seq<u8>, chunk_type: Seq<char>, message: Seq<u8>)
    requires
        message.len() <= u32::MAX,
        encoded(file, chunk_type, message) is Ok,
    ensures
        ({
            let out = encoded(file, chunk_type, message)->Ok_0;
            let chunks = parse_png(file)->Ok_0;
            let chunk = ChunkView::new(parse_type_text(chunk_type)->Ok_0, message);
            &&& chunk.wf()
            &&& has_type(chunk, chunk_type)
            &&& parse_png(out) == Ok::<Seq<ChunkView>, PngError>(chunks.push(chunk))
            &&& decoded(out, chunk_type) == if position_of_type(chunks, chunk_type)
                < chunks.len() {
                decoded(file, chunk_type)
            } else {
                Ok(Some(chunk.display()))
            }
        }),
{
    let chunks = parse_png(file)->Ok_0;
    let type_bytes = parse_type_text(chunk_type)->Ok_0;
    let chunk = ChunkView::new(type_bytes, message);
    let longer = chunks.push(chunk);
    lemma_type_text_unique(type_bytes, chunk_type);
    lemma_parsed_png_encodes(file);
    lemma_all_wf_push(chunks, chunk);
    lemma_png_round_trip(longer);
    lemma_position_of_type(chunks, chunk_type);
    let k = position_of_type(chunks, chunk_type);
    assert forall|j: int| 0 <= j < k implies !has_type(#[trigger] longer[j], chunk_type) by {
        assert(longer[j] == chunks[j]);
    }
    lemma_position_of_type_is(longer, chunk_type, k);
}

/// Taking out a message that was embedded gives the old file back, byte for
/// byte, where the old file had no chunk of that type.
pub proof fn lemma_encode_then_remove(file: Seq<u8>, chunk_type: Seq<char>, message: Seq<u8>)
    requires
        message.len() <= u32::MAX,
        encoded(file, chunk_type, message) is Ok,
        decoded(file, chunk_type) == Ok::<Option<Seq<char>>, PngError>(None),
    ensures
        removed(encoded(file, chunk_type, message)->Ok_0, chunk_type) == Ok::<
            Seq<u8>,
            PngError,
        >(file),
{
    let chunks = parse_png(file)->Ok_0;
    let chunk = ChunkView::new(parse_type_text(chunk_type)->Ok_0, message);
    lemma_encode_then_decode(file, chunk_type, message);
    lemma_position_of_type(chunks, chunk_type);
    lemma_position_of_type_is(chunks.push(chunk), chunk_type, chunks.len() as int);
    assert(chunks.push(chunk).remove(chunks.len() as int) =~= chunks);
    lemma_parsed_png_encodes(file);
}

/// Embeds `message` in a file, as the payload of a new last chunk of the
/// type `chunk_type`, and returns the bytes of the new file.
pub fn encode_msg(file_bytes: &[u8], chunk_type: &str, message: Vec<u8>) -> (r: Result<
    Vec<u8>,
    PngError,
>)
    requires
        message@.len() <= u32::MAX,
    ensures
        match r {
            Ok(out) => encoded(file_bytes@, chunk_type@, message@) == Ok::<Seq<u8>, PngError>(
                out@,
            ),
            Err(e) => encoded(file_bytes@, chunk_type@, message@) == Err::<Seq<u8>, PngError>(e),
        },
{
    let mut png = match Png::try_from(file_bytes) {
        Ok(png) => png,
        Err(e) => {
            return Err(e);
        },
    };
    let chunk_type = match ChunkType::from_str(chunk_type) {
        Ok(chunk_type) => chunk_type,
        Err(e) => {
            return Err(e);
        },
    };
    let chunk = Chunk::new(chunk_type, message);
    png.append_chunk(chunk);
    Ok(png.as_bytes())
}

/// Looks for the first chunk of the type `chunk_type` in a file and returns
/// what is shown for it.
pub fn decode_msg(file_bytes: &[u8], chunk_type: &str) -> (r: Result<Option<String>, PngError>)
    ensures
        match r {
            Ok(Some(s)) => decoded(file_bytes@, chunk_type@) == Ok::<Option<Seq<char>>, PngError>(
                Some(s@),
            ),
            Ok(None) => decoded(file_bytes@, chunk_type@) == Ok::<Option<Seq<char>>, PngError>(
                None,
            ),
            Err(e) => decoded(file_bytes@, chunk_type@) == Err::<Option<Seq<char>>, PngError>(e),
        },
{
    let png = match Png::try_from(file_bytes) {
        Ok(png) => png,
        Err(e) => {
            return Err(e);
        },
    };
    match png.chunk_by_type(chunk_type) {
        Some(chunk) => Ok(Some(chunk.to_string())),
        None => Ok(None),
    }
}

/// Takes the first chunk of the type `chunk_type` out of a file and returns
/// the bytes of the new file.
pub fn remove_msg(file_bytes: &[u8], chunk_type: &str) -> (r: Result<Vec<u8>, PngError>)
    ensures
        match r {
            Ok(out) => removed(file_bytes@, chunk_type@) == Ok::<Seq<u8>, PngError>(out@),
            Err(e) => removed(file_bytes@, chunk_type@) == Err::<Seq<u8>, PngError>(e),
        },
{
    let mut png = match Png::try_from(file_bytes) {
        Ok(png) => png,
        Err(e) => {
            return Err(e);
        },
    };
    match png.remove_first_chunk(chunk_type) {
        Ok(_) => Ok(png.as_bytes()),
        Err(e) => Err(e),
    }
}

/// Returns what is shown for a whole file.
pub fn print_msg(file_bytes: &[u8]) -> (r: Result<String, PngError>)
    ensures
        match r {
            Ok(s) => printed(file_bytes@) == Ok::<Seq<char>, PngError>(s@),
            Err(e) => printed(file_bytes@) == Err::<Seq<char>, PngError>(e),
        },
{
    match Png::try_from(file_bytes) {
        Ok(png) => Ok(png.to_string()),
        Err(e) => Err(e),
    }
}

} // verus!
