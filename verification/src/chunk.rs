//! One chunk of a PNG file: length, type, payload and checksum.

use vstd::prelude::*;
use vstd::slice::slice_subrange;
use vstd::slice::slice_to_vec;
use vstd::std_specs::convert::TryFromSpecImpl;
use crate::bytes::be_u32;
use crate::bytes::extend_bytes;
use crate::bytes::lemma_be_u32_of_bytes;
use crate::bytes::lemma_bytes_of_be_u32;
use crate::bytes::u32_be_bytes;
use crate::bytes::u32_from_be_bytes;
use crate::bytes::u32_to_be_bytes;
use crate::checksum::checksum;
use crate::checksum::crc32_iso_hdlc;
use crate::chunk_type::ChunkType;
use crate::chunk_type::valid_type_bytes;
use crate::error::PngError;
use crate::text::decode_text;
use crate::text::text_of;

verus! {

/// What a chunk is, as a mathematical value: the four fields of its encoding.
pub struct ChunkView {
    /// The number of payload bytes that the chunk announces.
    pub length: u32,
    /// The four bytes of the chunk type.
    pub chunk_type: Seq<u8>,
    /// The payload.
    pub data: Seq<u8>,
    /// The stored checksum.
    pub crc: u32,
}

impl ChunkView {
    /// The chunk with the given type and payload, its length and checksum
    /// computed from them.
    pub open spec fn new(chunk_type: Seq<u8>, data: Seq<u8>) -> ChunkView {
        ChunkView {
            length: data.len() as u32,
            chunk_type,
            data,
            crc: crc32_iso_hdlc(chunk_type + data),
        }
    }

    /// A chunk is well formed when its type is four letters, its length is
    /// that of its payload, and its checksum is the CRC-32 of type and payload.
    pub open spec fn wf(self) -> bool {
        &&& valid_type_bytes(self.chunk_type)
        &&& self.data.len() == self.length
        &&& self.crc == crc32_iso_hdlc(self.chunk_type + self.data)
    }

    /// The encoding of the chunk: length, type, payload, checksum, the two
    /// numbers big-endian.
    pub open spec fn to_bytes(self) -> Seq<u8> {
        u32_be_bytes(self.length) + self.chunk_type + self.data + u32_be_bytes(self.crc)
    }

    /// What is shown for the payload: its text where it is valid UTF-8, and
    /// a fixed notice where it is not.
    pub open spec fn display(self) -> Seq<char> {
        match text_of(self.data) {
            Some(text) => text,
            None => "Invalid utf-8 sequence"@,
        }
    }
}

/// The result of taking the buffer `bytes` apart as exactly one chunk,
/// without a look at what the checksum is worth.
///
/// The fields are examined in the order in which they are stored, and the
/// first one that is wrong decides the error.
pub open spec fn parse_frame(bytes: Seq<u8>) -> Result<ChunkView, PngError> {
    if bytes.len() < 8 {
        Err(PngError::IncompleteChunk)
    } else if !valid_type_bytes(bytes.subrange(4, 8)) {
        Err(PngError::InvalidTypeBytes)
    } else {
        let length = be_u32(bytes.subrange(0, 4));
        if bytes.len() < 8 + length {
            Err(PngError::TruncatedData)
        } else if bytes.len() < 12 + length {
            Err(PngError::IncompleteChunk)
        } else if bytes.len() > 12 + length {
            Err(PngError::TrailingBytes)
        } else {
            Ok(
                ChunkView {
                    length,
                    chunk_type: bytes.subrange(4, 8),
                    data: bytes.subrange(8, 8 + length),
                    crc: be_u32(bytes.subrange(8 + length, 12 + length)),
                },
            )
        }
    }
}

/// The result of holding the stored checksum of `chunk` against the
/// checksum `computed` over its type and payload.
pub open spec fn checked(chunk: ChunkView, computed: u32) -> Result<ChunkView, PngError> {
    if chunk.crc != computed {
        Err(PngError::ChecksumMismatch)
    } else {
        Ok(chunk)
    }
}

/// The result of reading the buffer `bytes` as exactly one chunk: it is
/// taken apart, and then its checksum is verified.
pub open spec fn parse_chunk(bytes: Seq<u8>) -> Result<ChunkView, PngError> {
    match parse_frame(bytes) {
        Err(e) => Err(e),
        Ok(chunk) => checked(chunk, crc32_iso_hdlc(chunk.chunk_type + chunk.data)),
    }
}

/// Reading the encoding of a well-formed chunk gives the chunk back: its
/// length, type, payload and checksum.
pub proof fn lemma_chunk_round_trip(chunk: ChunkView)
    requires
        chunk.wf(),
    ensures
        parse_chunk(chunk.to_bytes()) == Ok::<ChunkView, PngError>(chunk),
{
    let bytes = chunk.to_bytes();
    let length = chunk.length as int;
    lemma_be_u32_of_bytes(chunk.length);
    lemma_be_u32_of_bytes(chunk.crc);
    assert(bytes.len() == 12 + length);
    assert(bytes.subrange(0, 4) =~= u32_be_bytes(chunk.length));
    assert(bytes.subrange(4, 8) =~= chunk.chunk_type);
    assert(bytes.subrange(8, 8 + length) =~= chunk.data);
    assert(bytes.subrange(8 + length, 12 + length) =~= u32_be_bytes(chunk.crc));
    assert(bytes.subrange(4, 8 + length) =~= chunk.chunk_type + chunk.data);
}

/// A buffer that reads as a chunk is the encoding of that chunk, and the
/// chunk is well formed: nothing but the encoding of a chunk is accepted.
pub proof fn lemma_parsed_chunk_encodes(bytes: Seq<u8>)
    requires
        parse_chunk(bytes) is Ok,
    ensures
        parse_chunk(bytes)->Ok_0.wf(),
        parse_chunk(bytes)->Ok_0.to_bytes() == bytes,
{
    let chunk = parse_chunk(bytes)->Ok_0;
    let length = chunk.length as int;
    lemma_bytes_of_be_u32(bytes.subrange(0, 4));
    lemma_bytes_of_be_u32(bytes.subrange(8 + length, 12 + length));
    assert(chunk.chunk_type + chunk.data =~= bytes.subrange(4, 8 + length));
    assert(chunk.to_bytes() =~= bytes);
}

/// A change of one byte in the checksum field of an encoded chunk is
/// detected: the changed buffer is rejected for its checksum.
pub proof fn lemma_checksum_change_detected(chunk: ChunkView, i: int, byte: u8)
    requires
        chunk.wf(),
        8 + chunk.length <= i < 12 + chunk.length,
        byte != chunk.to_bytes()[i],
    ensures
        parse_chunk(chunk.to_bytes().update(i, byte)) == Err::<ChunkView, PngError>(
            PngError::ChecksumMismatch,
        ),
{
    let bytes = chunk.to_bytes();
    let changed = bytes.update(i, byte);
    let length = chunk.length as int;
    lemma_chunk_round_trip(chunk);
    lemma_be_u32_of_bytes(chunk.length);
    lemma_be_u32_of_bytes(chunk.crc);
    assert(bytes.len() == 12 + length);
    assert(changed.subrange(0, 4) =~= u32_be_bytes(chunk.length));
    assert(changed.subrange(4, 8) =~= chunk.chunk_type);
    assert(changed.subrange(8, 8 + length) =~= chunk.data);
    let field = bytes.subrange(8 + length, 12 + length);
    let changed_field = changed.subrange(8 + length, 12 + length);
    assert(changed_field =~= field.update(i - 8 - length, byte));
    lemma_bytes_of_be_u32(field);
    lemma_bytes_of_be_u32(changed_field);
    assert(field[i - 8 - length] != changed_field[i - 8 - length]);
}

/// A change of one byte in the length field of an encoded chunk is detected:
/// the changed buffer is rejected because its size does not fit the length
/// that it announces. Where the length grew, payload or checksum are cut
/// short; where it shrank, bytes are left over.
pub proof fn lemma_length_change_detected(chunk: ChunkView, i: int, byte: u8)
    requires
        chunk.wf(),
        0 <= i < 4,
        byte != chunk.to_bytes()[i],
    ensures
        ({
            let changed = chunk.to_bytes().update(i, byte);
            let announced = be_u32(changed.subrange(0, 4));
            &&& announced != chunk.length
            &&& parse_chunk(changed) == Err::<ChunkView, PngError>(
                if announced > chunk.length + 4 {
                    PngError::TruncatedData
                } else if announced > chunk.length {
                    PngError::IncompleteChunk
                } else {
                    PngError::TrailingBytes
                },
            )
        }),
{
    let bytes = chunk.to_bytes();
    let changed = bytes.update(i, byte);
    let length = chunk.length as int;
    lemma_be_u32_of_bytes(chunk.length);
    lemma_be_u32_of_bytes(chunk.crc);
    assert(bytes.len() == 12 + length);
    assert(changed.subrange(4, 8) =~= chunk.chunk_type);
    let field = bytes.subrange(0, 4);
    let changed_field = changed.subrange(0, 4);
    assert(field =~= u32_be_bytes(chunk.length));
    assert(changed_field =~= field.update(i, byte));
    lemma_bytes_of_be_u32(field);
    lemma_bytes_of_be_u32(changed_field);
    assert(field[i] != changed_field[i]);
}

/// A change of one byte in the type or the payload of an encoded chunk is
/// never accepted as it stands: the changed buffer is rejected for its type
/// or for its checksum, unless the checksum of the changed type and payload
/// is the one that was stored for the old ones.
pub proof fn lemma_content_change_detected(chunk: ChunkView, i: int, byte: u8)
    requires
        chunk.wf(),
        4 <= i < 8 + chunk.length,
        byte != chunk.to_bytes()[i],
    ensures
        ({
            let changed = chunk.to_bytes().update(i, byte);
            let content = changed.subrange(4, 8 + chunk.length);
            &&& content != chunk.chunk_type + chunk.data
            &&& parse_chunk(changed) == if !valid_type_bytes(changed.subrange(4, 8)) {
                Err::<ChunkView, PngError>(PngError::InvalidTypeBytes)
            } else if crc32_iso_hdlc(content) != chunk.crc {
                Err(PngError::ChecksumMismatch)
            } else {
                Ok(
                    ChunkView {
                        length: chunk.length,
                        chunk_type: changed.subrange(4, 8),
                        data: changed.subrange(8, 8 + chunk.length),
                        crc: chunk.crc,
                    },
                )
            }
        }),
{
    let bytes = chunk.to_bytes();
    let changed = bytes.update(i, byte);
    let length = chunk.length as int;
    lemma_be_u32_of_bytes(chunk.length);
    lemma_be_u32_of_bytes(chunk.crc);
    assert(bytes.len() == 12 + length);
    assert(changed.subrange(0, 4) =~= u32_be_bytes(chunk.length));
    assert(changed.subrange(8 + length, 12 + length) =~= u32_be_bytes(chunk.crc));
    assert(bytes.subrange(4, 8 + length) =~= chunk.chunk_type + chunk.data);
    assert(changed.subrange(4, 8 + length)[i - 4] != bytes.subrange(4, 8 + length)[i - 4]);
    assert(changed.subrange(4, 8) + changed.subrange(8, 8 + length) =~= changed.subrange(
        4,
        8 + length,
    ));
}

/// The fields of an encoded chunk as they were found in a buffer. The
/// checksum is the stored one: nothing has verified it yet.
#[derive(Debug)]
pub struct RawChunk<'a> {
    /// The number of payload bytes that the chunk announces.
    pub length: u32,
    /// The type of the chunk.
    pub chunk_type: ChunkType,
    /// The payload, where it lies in the buffer.
    pub data: &'a [u8],
    /// The stored checksum.
    pub crc: u32,
}

impl<'a> View for RawChunk<'a> {
    type V = ChunkView;

    open spec fn view(&self) -> ChunkView {
        ChunkView {
            length: self.length,
            chunk_type: self.chunk_type@,
            data: self.data@,
            crc: self.crc,
        }
    }
}

/// Takes a buffer apart that holds exactly one chunk. The checksum is read
/// and not verified.
pub fn read_raw_chunk<'a>(value: &'a [u8]) -> (r: Result<RawChunk<'a>, PngError>)
    ensures
        match r {
            Ok(raw) => {
                &&& parse_frame(value@) == Ok::<ChunkView, PngError>(raw@)
                &&& value@.len() == 12 + raw.length
                &&& raw.data@ == value@.subrange(8, 8 + raw.length)
            },
            Err(e) => parse_frame(value@) == Err::<ChunkView, PngError>(e),
        },
{
    let n = value.len();
    if n < 8 {
        return Err(PngError::IncompleteChunk);
    }
    let length = u32_from_be_bytes(slice_subrange(value, 0, 4));
    let type_bytes = slice_subrange(value, 4, 8);
    let type_array: [u8; 4] = [type_bytes[0], type_bytes[1], type_bytes[2], type_bytes[3]];
    assert(type_array@ =~= value@.subrange(4, 8));
    let chunk_type = match ChunkType::try_from(type_array) {
        Ok(t) => t,
        Err(e) => {
            return Err(e);
        },
    };
    let rest = n - 8;
    if rest < length as usize {
        return Err(PngError::TruncatedData);
    }
    let len = length as usize;
    if rest - len < 4 {
        return Err(PngError::IncompleteChunk);
    }
    if rest - len > 4 {
        return Err(PngError::TrailingBytes);
    }
    let crc = u32_from_be_bytes(slice_subrange(value, 8 + len, 12 + len));
    let data = slice_subrange(value, 8, 8 + len);
    Ok(RawChunk { length, chunk_type, data, crc })
}

/// Holds a stored checksum against a computed one.
pub fn check_crc(stored: u32, computed: u32) -> (r: Result<(), PngError>)
    ensures
        r == if stored != computed {
            Err::<(), PngError>(PngError::ChecksumMismatch)
        } else {
            Ok(())
        },
{
    if stored != computed {
        Err(PngError::ChecksumMismatch)
    } else {
        Ok(())
    }
}

/// A chunk of a PNG file. Its length and checksum always agree with its
/// type and payload.
#[derive(Debug)]
pub struct Chunk {
    data_length: u32,
    chunk_type: ChunkType,
    data: Vec<u8>,
    crc: u32,
}

impl View for Chunk {
    type V = ChunkView;

    closed spec fn view(&self) -> ChunkView {
        ChunkView {
            length: self.data_length,
            chunk_type: self.chunk_type@,
            data: self.data@,
            crc: self.crc,
        }
    }
}

impl Chunk {
    /// The invariant of the type: the chunk is well formed.
    #[verifier::type_invariant]
    pub open spec fn wf(&self) -> bool {
        self@.wf()
    }

    /// Builds a chunk from a type and a payload, and computes its length and
    /// checksum. The payload must be short enough for its length to be
    /// written in the four bytes of the length field.
    pub fn new(chunk_type: ChunkType, data: Vec<u8>) -> (chunk: Chunk)
        requires
            data@.len() <= u32::MAX,
        ensures
            chunk@ == ChunkView::new(chunk_type@, data@),
            chunk@.wf(),
    {
        proof {
            use_type_invariant(chunk_type);
        }
        let type_bytes = chunk_type.bytes();
        let mut preceding_bytes: Vec<u8> = Vec::new();
        extend_bytes(&mut preceding_bytes, type_bytes.as_slice());
        extend_bytes(&mut preceding_bytes, data.as_slice());
        assert(preceding_bytes@ =~= chunk_type@ + data@);
        let crc = checksum(preceding_bytes.as_slice());
        Chunk { data_length: data.len() as u32, chunk_type, data, crc }
    }

    /// The length of the payload in bytes.
    pub fn length(&self) -> (r: u32)
        ensures
            r == self@.length,
            r == self@.data.len(),
    {
        proof {
            use_type_invariant(self);
        }
        self.data_length
    }

    /// The type of the chunk.
    pub fn chunk_type(&self) -> (r: &ChunkType)
        ensures
            r@ == self@.chunk_type,
            valid_type_bytes(r@),
    {
        proof {
            use_type_invariant(self);
        }
        &self.chunk_type
    }

    /// The payload.
    pub fn data(&self) -> (r: &[u8])
        ensures
            r@ == self@.data,
    {
        self.data.as_slice()
    }

    /// The checksum of type and payload.
    pub fn crc(&self) -> (r: u32)
        ensures
            r == self@.crc,
            r == crc32_iso_hdlc(self@.chunk_type + self@.data),
    {
        proof {
            use_type_invariant(self);
        }
        self.crc
    }

    /// The payload as text, if it is valid UTF-8.
    pub fn data_as_string(&self) -> (r: Result<String, PngError>)
        ensures
            match r {
                Ok(s) => text_of(self@.data) == Some(s@),
                Err(e) => text_of(self@.data) is None && e == PngError::NotUtf8,
            },
    {
        match decode_text(slice_to_vec(self.data.as_slice())) {
            Some(s) => Ok(s),
            None => Err(PngError::NotUtf8),
        }
    }

    /// The encoding of the chunk: length, type, payload and checksum. It
    /// reads back as this chunk.
    pub fn as_bytes(&self) -> (r: Vec<u8>)
        ensures
            r@ == self@.to_bytes(),
            parse_chunk(r@) == Ok::<ChunkView, PngError>(self@),
    {
        proof {
            use_type_invariant(self);
            lemma_chunk_round_trip(self@);
        }
        let mut r: Vec<u8> = Vec::new();
        extend_bytes(&mut r, u32_to_be_bytes(self.data_length).as_slice());
        extend_bytes(&mut r, self.chunk_type.bytes().as_slice());
        extend_bytes(&mut r, self.data.as_slice());
        extend_bytes(&mut r, u32_to_be_bytes(self.crc).as_slice());
        r
    }

    /// The payload for display: its text, or a notice that it is none.
    pub fn to_string(&self) -> (r: String)
        ensures
            r@ == self@.display(),
    {
        match decode_text(slice_to_vec(self.data.as_slice())) {
            Some(s) => s,
            None => "Invalid utf-8 sequence".to_owned(),
        }
    }
}

impl TryFrom<&[u8]> for Chunk {
    type Error = PngError;

    /// Reads a buffer that holds exactly one chunk. The chunk that is
    /// returned has the buffer as its encoding.
    fn try_from(value: &[u8]) -> (r: Result<Self, Self::Error>)
        ensures
            match r {
                Ok(chunk) => {
                    &&& parse_chunk(value@) == Ok::<ChunkView, PngError>(chunk@)
                    &&& chunk@.wf()
                    &&& chunk@.to_bytes() == value@
                },
                Err(e) => parse_chunk(value@) == Err::<ChunkView, PngError>(e),
            },
    {
        proof {
            if parse_chunk(value@) is Ok {
                lemma_parsed_chunk_encodes(value@);
            }
        }
        let raw = match read_raw_chunk(value) {
            Ok(raw) => raw,
            Err(e) => {
                return Err(e);
            },
        };
        let end = value.len() - 4;
        assert(raw@.chunk_type + raw@.data =~= value@.subrange(4, end as int));
        let computed = checksum(slice_subrange(value, 4, end));
        match check_crc(raw.crc, computed) {
            Ok(()) => {},
            Err(e) => {
                return Err(e);
            },
        }
        proof {
            use_type_invariant(raw.chunk_type);
        }
        Ok(
            Chunk {
                data_length: raw.length,
                chunk_type: raw.chunk_type,
                data: slice_to_vec(raw.data),
                crc: raw.crc,
            },
        )
    }
}

/// `try_from` states its result over views, in its own `ensures`: two values
/// of this type with one view need not be the same value, so no value is
/// named here.
impl TryFromSpecImpl<&[u8]> for Chunk {
    open spec fn obeys_try_from_spec() -> bool {
        false
    }

    open spec fn try_from_spec(v: &[u8]) -> Result<Self, Self::Error> {
        arbitrary()
    }
}

} // verus!
