//! The four-letter type code of a chunk.

use vstd::prelude::*;
use vstd::std_specs::convert::TryFromSpecImpl;
use vstd::utf8::decode_utf8;
use vstd::utf8::encode_utf8;
use vstd::utf8::encode_utf8_decode_utf8;
use vstd::utf8::encode_utf8_valid_utf8;
use vstd::utf8::is_ascii_chars;
use vstd::utf8::is_ascii_chars_encode_utf8;
use vstd::utf8::valid_utf8;
use crate::error::PngError;
use crate::text::decode_text;
use crate::text::text_of;

verus! {

/// Whether `b` is an upper-case ASCII letter.
pub open spec fn is_upper(b: u8) -> bool {
    0x41 <= b <= 0x5a
}

/// Whether `b` is a lower-case ASCII letter.
pub open spec fn is_lower(b: u8) -> bool {
    0x61 <= b <= 0x7a
}

/// Whether `b` is an ASCII letter, `A`-`Z` or `a`-`z`.
pub open spec fn is_letter(b: u8) -> bool {
    is_upper(b) || is_lower(b)
}

/// Whether `bytes` can be the four bytes of a chunk type.
pub open spec fn valid_type_bytes(bytes: Seq<u8>) -> bool {
    &&& bytes.len() == 4
    &&& forall|i: int| 0 <= i < 4 ==> is_letter(#[trigger] bytes[i])
}

/// The text that the bytes of a chunk type spell, one character for each byte.
pub open spec fn type_text(bytes: Seq<u8>) -> Seq<char> {
    Seq::new(bytes.len(), |i: int| bytes[i] as char)
}

/// The result of reading a chunk type from text: the bytes of the type, or
/// the reason why the text is none.
pub open spec fn parse_type_text(text: Seq<char>) -> Result<Seq<u8>, PngError> {
    let bytes = encode_utf8(text);
    if bytes.len() != 4 {
        Err(PngError::WrongLength)
    } else if !valid_type_bytes(bytes) {
        Err(PngError::InvalidTypeBytes)
    } else {
        Ok(bytes)
    }
}

/// The text of a chunk type is ASCII, and its UTF-8 encoding is the bytes of
/// the type.
pub proof fn lemma_type_text_encoding(bytes: Seq<u8>)
    requires
        valid_type_bytes(bytes),
    ensures
        is_ascii_chars(type_text(bytes)),
        encode_utf8(type_text(bytes)) == bytes,
        text_of(bytes) == Some(type_text(bytes)),
{
    let text = type_text(bytes);
    assert forall|i: int| 0 <= i < text.len() implies '\0' <= #[trigger] text[i] <= '\u{7f}' by {
        assert(is_letter(bytes[i]));
    }
    is_ascii_chars_encode_utf8(text);
    assert forall|i: int| 0 <= i < 4 implies encode_utf8(text)[i] == bytes[i] by {
        assert(is_letter(bytes[i]));
        assert(text[i] as u8 == bytes[i]);
    }
    assert(encode_utf8(text) =~= bytes);
    encode_utf8_valid_utf8(text);
    encode_utf8_decode_utf8(text);
}

/// A text names a chunk type exactly when it is the text of that type.
pub proof fn lemma_type_text_unique(bytes: Seq<u8>, text: Seq<char>)
    requires
        valid_type_bytes(bytes),
    ensures
        encode_utf8(text) == bytes <==> text == type_text(bytes),
{
    lemma_type_text_encoding(bytes);
    encode_utf8_decode_utf8(text);
    encode_utf8_decode_utf8(type_text(bytes));
}

/// Reading the text of a chunk type gives the type back.
pub proof fn lemma_type_text_round_trip(bytes: Seq<u8>)
    requires
        valid_type_bytes(bytes),
    ensures
        parse_type_text(type_text(bytes)) == Ok::<Seq<u8>, PngError>(bytes),
{
    lemma_type_text_encoding(bytes);
}

/// A chunk type: four ASCII letters whose case encodes four flags.
#[derive(Clone, Copy, Debug, PartialEq, Eq, Structural)]
pub struct ChunkType {
    b0: u8,
    b1: u8,
    b2: u8,
    b3: u8,
}

impl View for ChunkType {
    type V = Seq<u8>;

    closed spec fn view(&self) -> Seq<u8> {
        seq![self.b0, self.b1, self.b2, self.b3]
    }
}

fn is_ascii_uppercase(b: u8) -> (r: bool)
    ensures
        r == is_upper(b),
{
    0x41 <= b && b <= 0x5a
}

fn is_ascii_lowercase(b: u8) -> (r: bool)
    ensures
        r == is_lower(b),
{
    0x61 <= b && b <= 0x7a
}

fn is_ascii_alphabetic(b: u8) -> (r: bool)
    ensures
        r == is_letter(b),
{
    is_ascii_uppercase(b) || is_ascii_lowercase(b)
}

impl TryFrom<[u8; 4]> for ChunkType {
    type Error = PngError;

    /// Builds a chunk type from four bytes, which must all be ASCII letters.
    fn try_from(value: [u8; 4]) -> (r: Result<Self, Self::Error>)
        ensures
            r is Ok <==> valid_type_bytes(value@),
            r matches Ok(t) ==> t@ == value@,
            r matches Err(e) ==> e == PngError::InvalidTypeBytes,
    {
        if is_ascii_alphabetic(value[0]) && is_ascii_alphabetic(value[1]) && is_ascii_alphabetic(
            value[2],
        ) && is_ascii_alphabetic(value[3]) {
            let t = ChunkType { b0: value[0], b1: value[1], b2: value[2], b3: value[3] };
            assert(t@ =~= value@);
            assert(t == ChunkType::of_bytes(value@));
            Ok(t)
        } else {
            Err(PngError::InvalidTypeBytes)
        }
    }
}

/// What `try_from` returns, as a value: the chunk type of the bytes, where
/// they are four letters.
impl TryFromSpecImpl<[u8; 4]> for ChunkType {
    open spec fn obeys_try_from_spec() -> bool {
        true
    }

    open spec fn try_from_spec(v: [u8; 4]) -> Result<Self, Self::Error> {
        if valid_type_bytes(v@) {
            Ok(ChunkType::of_bytes(v@))
        } else {
            Err(PngError::InvalidTypeBytes)
        }
    }
}

impl std::str::FromStr for ChunkType {
    type Err = PngError;

    /// Reads a chunk type from text, which must be four ASCII letters.
    fn from_str(s: &str) -> (r: Result<Self, Self::Err>)
        ensures
            match r {
                Ok(t) => parse_type_text(s@) == Ok::<Seq<u8>, PngError>(t@),
                Err(e) => parse_type_text(s@) == Err::<Seq<u8>, PngError>(e),
            },
    {
        if s.len() != 4 {
            return Err(PngError::WrongLength);
        }
        let value = s.as_bytes();
        let array: [u8; 4] = [value[0], value[1], value[2], value[3]];
        assert(array@ =~= value@);
        ChunkType::try_from(array)
    }
}

impl ChunkType {
    /// The invariant of the type: all four bytes are ASCII letters.
    #[verifier::type_invariant]
    pub open spec fn wf(&self) -> bool {
        valid_type_bytes(self@)
    }

    /// The chunk type whose bytes are `bytes`.
    pub closed spec fn of_bytes(bytes: Seq<u8>) -> ChunkType {
        ChunkType { b0: bytes[0], b1: bytes[1], b2: bytes[2], b3: bytes[3] }
    }

    /// The chunk type made of four given bytes has those bytes, and no other
    /// chunk type has them.
    pub proof fn lemma_of_bytes(self)
        ensures
            self@.len() == 4,
            ChunkType::of_bytes(self@) == self,
    {
    }

    /// The four bytes of the type.
    pub fn bytes(&self) -> (r: [u8; 4])
        ensures
            r@ == self@,
    {
        let r = [self.b0, self.b1, self.b2, self.b3];
        assert(r@ =~= self@);
        r
    }

    /// The type as text: its four letters.
    pub fn to_string(&self) -> (r: String)
        ensures
            r@ == type_text(self@),
    {
        proof {
            use_type_invariant(self);
            lemma_type_text_encoding(self@);
        }
        let mut bytes: Vec<u8> = Vec::new();
        bytes.push(self.b0);
        bytes.push(self.b1);
        bytes.push(self.b2);
        bytes.push(self.b3);
        assert(bytes@ =~= self@);
        match decode_text(bytes) {
            Some(s) => s,
            None => String::new(),
        }
    }

    /// Whether the type is valid under the current format rules: its third
    /// letter, the reserved bit, is upper case.
    pub fn is_valid(&self) -> (r: bool)
        ensures
            r == is_upper(self@[2]),
    {
        is_ascii_uppercase(self.b2)
    }

    /// Whether the chunk is critical: the first letter is upper case. A
    /// chunk that is not critical is ancillary.
    pub fn is_critical(&self) -> (r: bool)
        ensures
            r == is_upper(self@[0]),
    {
        is_ascii_uppercase(self.b0)
    }

    /// Whether the chunk is public: the second letter is upper case. A chunk
    /// that is not public is private.
    pub fn is_public(&self) -> (r: bool)
        ensures
            r == is_upper(self@[1]),
    {
        is_ascii_uppercase(self.b1)
    }

    /// Whether the reserved bit is valid: the third letter is upper case.
    pub fn is_reserved_bit_valid(&self) -> (r: bool)
        ensures
            r == is_upper(self@[2]),
    {
        is_ascii_uppercase(self.b2)
    }

    /// Whether the chunk is safe to copy: the fourth letter is lower case.
    pub fn is_safe_to_copy(&self) -> (r: bool)
        ensures
            r == is_lower(self@[3]),
    {
        is_ascii_lowercase(self.b3)
    }
}

} // verus!
