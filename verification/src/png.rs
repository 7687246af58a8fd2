//! A whole PNG file: the signature and the chunks behind it.

use vstd::prelude::*;
use vstd::slice::slice_subrange;
use vstd::std_specs::convert::TryFromSpecImpl;
use vstd::string::StringExecFns;
use vstd::utf8::encode_utf8;
use crate::bytes::be_u32;
use crate::bytes::extend_bytes;
use crate::bytes::lemma_be_u32_of_bytes;
use crate::bytes::same_bytes;
use crate::bytes::u32_be_bytes;
use crate::bytes::u32_from_be_bytes;
use crate::chunk::Chunk;
use crate::chunk::ChunkView;
use crate::chunk::lemma_chunk_round_trip;
use crate::chunk::lemma_parsed_chunk_encodes;
use crate::chunk::parse_chunk;
use crate::chunk_type::lemma_type_text_unique;
use crate::chunk_type::type_text;
use crate::error::PngError;
use crate::text::text_of;

verus! {

/// The eight bytes with which every PNG file starts.
pub open spec fn signature() -> Seq<u8> {
    seq![137u8, 80u8, 78u8, 71u8, 13u8, 10u8, 26u8, 10u8]
}

/// The encodings of `chunks`, one behind the other.
pub open spec fn chunks_to_bytes(chunks: Seq<ChunkView>) -> Seq<u8>
    decreases chunks.len(),
{
    if chunks.len() == 0 {
        Seq::empty()
    } else {
        chunks[0].to_bytes() + chunks_to_bytes(chunks.drop_first())
    }
}

/// The encoding of a file that holds `chunks`.
pub open spec fn png_to_bytes(chunks: Seq<ChunkView>) -> Seq<u8> {
    signature() + chunks_to_bytes(chunks)
}

/// How many bytes at the start of `bytes` belong to its first chunk: twelve
/// more than the length field says, or all of `bytes` if there are fewer.
pub open spec fn chunk_extent(bytes: Seq<u8>) -> int {
    if bytes.len() < 4 {
        bytes.len() as int
    } else if 12 + be_u32(bytes.subrange(0, 4)) <= bytes.len() {
        12 + be_u32(bytes.subrange(0, 4))
    } else {
        bytes.len() as int
    }
}

/// The result of reading `bytes` as a sequence of chunks, each read by
/// [`parse_chunk`] from the bytes that belong to it. The first chunk that
/// fails decides the error.
pub open spec fn parse_chunks(bytes: Seq<u8>) -> Result<Seq<ChunkView>, PngError>
    decreases bytes.len(),
{
    if bytes.len() == 0 {
        Ok(Seq::empty())
    } else {
        let n = chunk_extent(bytes);
        match parse_chunk(bytes.subrange(0, n)) {
            Err(e) => Err(e),
            Ok(first) => match parse_chunks(bytes.subrange(n, bytes.len() as int)) {
                Err(e) => Err(e),
                Ok(rest) => Ok(seq![first] + rest),
            },
        }
    }
}

/// The result of reading `bytes` as a PNG file: the chunks behind the
/// signature, in the order in which they are stored.
pub open spec fn parse_png(bytes: Seq<u8>) -> Result<Seq<ChunkView>, PngError> {
    if bytes.len() < 8 || bytes.subrange(0, 8) != signature() {
        Err(PngError::BadSignature)
    } else {
        parse_chunks(bytes.subrange(8, bytes.len() as int))
    }
}

/// Whether the type of `chunk`, written as text, is `text`.
pub open spec fn has_type(chunk: ChunkView, text: Seq<char>) -> bool {
    type_text(chunk.chunk_type) == text
}

/// The position of the first chunk whose type is `text`, or the number of
/// chunks if there is none.
pub open spec fn position_of_type(chunks: Seq<ChunkView>, text: Seq<char>) -> int
    decreases chunks.len(),
{
    if chunks.len() == 0 {
        0
    } else if has_type(chunks[0], text) {
        0
    } else {
        1 + position_of_type(chunks.drop_first(), text)
    }
}

/// The position of a type is that of a chunk of the type which no chunk of
/// the type precedes, and it is past the end exactly when no chunk has the
/// type.
pub proof fn lemma_position_of_type(chunks: Seq<ChunkView>, text: Seq<char>)
    ensures
        0 <= position_of_type(chunks, text) <= chunks.len(),
        position_of_type(chunks, text) < chunks.len() ==> has_type(
            chunks[position_of_type(chunks, text)],
            text,
        ),
        forall|j: int|
            0 <= j < position_of_type(chunks, text) ==> !has_type(#[trigger] chunks[j], text),
    decreases chunks.len(),
{
    if chunks.len() != 0 && !has_type(chunks[0], text) {
        let rest = chunks.drop_first();
        lemma_position_of_type(rest, text);
        assert forall|j: int| 0 <= j < position_of_type(chunks, text) implies !has_type(
            #[trigger] chunks[j],
            text,
        ) by {
            if j > 0 {
                assert(chunks[j] == rest[j - 1]);
            }
        }
    }
}

/// The first position at which a chunk of the type stands is the position
/// of the type.
pub proof fn lemma_position_of_type_is(chunks: Seq<ChunkView>, text: Seq<char>, k: int)
    requires
        0 <= k <= chunks.len(),
        k < chunks.len() ==> has_type(chunks[k], text),
        forall|j: int| 0 <= j < k ==> !has_type(#[trigger] chunks[j], text),
    ensures
        position_of_type(chunks, text) == k,
    decreases chunks.len(),
{
    if chunks.len() != 0 && k > 0 {
        let rest = chunks.drop_first();
        assert(!has_type(chunks[0], text));
        assert forall|j: int| 0 <= j < k - 1 implies !has_type(#[trigger] rest[j], text) by {
            assert(rest[j] == chunks[j + 1]);
        }
        lemma_position_of_type_is(rest, text, k - 1);
    }
}

/// The line that shows one chunk: its type and, where the payload is valid
/// UTF-8, a colon, a space and the payload as text.
pub open spec fn chunk_line(chunk: ChunkView) -> Seq<char> {
    type_text(chunk.chunk_type) + match text_of(chunk.data) {
        Some(text) => ": "@ + text,
        None => Seq::empty(),
    } + "\n"@
}

/// What is shown for a file: the lines of its chunks, in their order.
pub open spec fn render(chunks: Seq<ChunkView>) -> Seq<char>
    decreases chunks.len(),
{
    if chunks.len() == 0 {
        Seq::empty()
    } else {
        render(chunks.drop_last()) + chunk_line(chunks.last())
    }
}

/// The chunks `prefix` put before the chunks of a result, where it has any.
pub open spec fn with_prefix(
    prefix: Seq<ChunkView>,
    parsed: Result<Seq<ChunkView>, PngError>,
) -> Result<Seq<ChunkView>, PngError> {
    match parsed {
        Ok(rest) => Ok(prefix + rest),
        Err(e) => Err(e),
    }
}

/// Reading chunks from bytes that are not empty is reading the first chunk
/// and then the chunks behind it.
pub proof fn lemma_parse_chunks_step(prefix: Seq<ChunkView>, bytes: Seq<u8>)
    requires
        bytes.len() > 0,
    ensures
        with_prefix(prefix, parse_chunks(bytes)) == match parse_chunk(
            bytes.subrange(0, chunk_extent(bytes)),
        ) {
            Err(e) => Err::<Seq<ChunkView>, PngError>(e),
            Ok(first) => with_prefix(
                prefix.push(first),
                parse_chunks(bytes.subrange(chunk_extent(bytes), bytes.len() as int)),
            ),
        },
{
    let n = chunk_extent(bytes);
    if let Ok(first) = parse_chunk(bytes.subrange(0, n)) {
        if let Ok(rest) = parse_chunks(bytes.subrange(n, bytes.len() as int)) {
            assert(prefix + (seq![first] + rest) =~= prefix.push(first) + rest);
        }
    }
}

/// The views of a sequence of chunks.
pub open spec fn views_of(chunks: Seq<Chunk>) -> Seq<ChunkView> {
    Seq::new(chunks.len(), |i: int| chunks[i]@)
}

/// Serialising one more chunk appends its encoding.
pub proof fn lemma_chunks_to_bytes_push(chunks: Seq<ChunkView>, chunk: ChunkView)
    ensures
        chunks_to_bytes(chunks.push(chunk)) == chunks_to_bytes(chunks) + chunk.to_bytes(),
    decreases chunks.len(),
{
    if chunks.len() == 0 {
        assert(chunks.push(chunk).drop_first() =~= Seq::<ChunkView>::empty());
        assert(chunks_to_bytes(Seq::<ChunkView>::empty()) =~= Seq::<u8>::empty());
        assert(chunks_to_bytes(chunks.push(chunk)) =~= chunk.to_bytes());
        assert(chunks_to_bytes(chunks) + chunk.to_bytes() =~= chunk.to_bytes());
    } else {
        assert(chunks.push(chunk).drop_first() =~= chunks.drop_first().push(chunk));
        lemma_chunks_to_bytes_push(chunks.drop_first(), chunk);
        assert(chunks_to_bytes(chunks.push(chunk)) =~= chunks_to_bytes(chunks) + chunk.to_bytes());
    }
}

/// Whether every chunk of `chunks` is well formed.
pub open spec fn all_wf(chunks: Seq<ChunkView>) -> bool {
    forall|i: int| 0 <= i < chunks.len() ==> (#[trigger] chunks[i]).wf()
}

/// Well-formed chunks with one more well-formed chunk behind them are
/// well-formed chunks.
pub proof fn lemma_all_wf_push(chunks: Seq<ChunkView>, chunk: ChunkView)
    requires
        all_wf(chunks),
        chunk.wf(),
    ensures
        all_wf(chunks.push(chunk)),
{
    let longer = chunks.push(chunk);
    assert forall|i: int| 0 <= i < longer.len() implies (#[trigger] longer[i]).wf() by {
        if i < chunks.len() {
            assert(longer[i] == chunks[i]);
        }
    }
}

/// Reading the encodings of well-formed chunks, one behind the other, gives
/// the chunks back in their order.
pub proof fn lemma_chunks_round_trip(chunks: Seq<ChunkView>)
    requires
        all_wf(chunks),
    ensures
        parse_chunks(chunks_to_bytes(chunks)) == Ok::<Seq<ChunkView>, PngError>(chunks),
    decreases chunks.len(),
{
    if chunks.len() == 0 {
        assert(chunks =~= Seq::<ChunkView>::empty());
    } else {
        let first = chunks[0];
        let rest = chunks.drop_first();
        let bytes = chunks_to_bytes(chunks);
        let n = first.to_bytes().len() as int;
        assert(first.wf());
        assert(all_wf(rest)) by {
            assert forall|i: int| 0 <= i < rest.len() implies (#[trigger] rest[i]).wf() by {
                assert(rest[i] == chunks[i + 1]);
            }
        }
        lemma_be_u32_of_bytes(first.length);
        lemma_be_u32_of_bytes(first.crc);
        assert(n == 12 + first.length);
        assert(bytes.subrange(0, 4) =~= u32_be_bytes(first.length));
        assert(chunk_extent(bytes) == n);
        assert(bytes.subrange(0, n) =~= first.to_bytes());
        assert(bytes.subrange(n, bytes.len() as int) =~= chunks_to_bytes(rest));
        lemma_chunk_round_trip(first);
        lemma_chunks_round_trip(rest);
        assert(seq![first] + rest =~= chunks);
    }
}

/// Reading the encoding of a file of well-formed chunks gives the same
/// chunks back, in the same order.
pub proof fn lemma_png_round_trip(chunks: Seq<ChunkView>)
    requires
        all_wf(chunks),
    ensures
        parse_png(png_to_bytes(chunks)) == Ok::<Seq<ChunkView>, PngError>(chunks),
{
    let bytes = png_to_bytes(chunks);
    assert(bytes.subrange(0, 8) =~= signature());
    assert(bytes.subrange(8, bytes.len() as int) =~= chunks_to_bytes(chunks));
    lemma_chunks_round_trip(chunks);
}

/// Bytes that read as a sequence of chunks are the encodings of those
/// chunks, one behind the other, and the chunks are well formed.
pub proof fn lemma_parsed_chunks_encode(bytes: Seq<u8>)
    requires
        parse_chunks(bytes) is Ok,
    ensures
        all_wf(parse_chunks(bytes)->Ok_0),
        chunks_to_bytes(parse_chunks(bytes)->Ok_0) == bytes,
    decreases bytes.len(),
{
    let chunks = parse_chunks(bytes)->Ok_0;
    if bytes.len() == 0 {
        assert(chunks_to_bytes(chunks) =~= bytes);
    } else {
        let n = chunk_extent(bytes);
        let head = bytes.subrange(0, n);
        let tail = bytes.subrange(n, bytes.len() as int);
        let first = parse_chunk(head)->Ok_0;
        let rest = parse_chunks(tail)->Ok_0;
        lemma_parsed_chunk_encodes(head);
        lemma_parsed_chunks_encode(tail);
        assert(chunks == seq![first] + rest);
        assert(chunks.drop_first() =~= rest);
        assert(chunks_to_bytes(chunks) =~= head + tail);
        assert(head + tail =~= bytes);
    }
}

/// A file that reads as a sequence of chunks is the encoding of those
/// chunks: no byte of it is dropped, added or moved.
pub proof fn lemma_parsed_png_encodes(bytes: Seq<u8>)
    requires
        parse_png(bytes) is Ok,
    ensures
        all_wf(parse_png(bytes)->Ok_0),
        png_to_bytes(parse_png(bytes)->Ok_0) == bytes,
{
    let tail = bytes.subrange(8, bytes.len() as int);
    assert(parse_png(bytes) == parse_chunks(tail));
    lemma_parsed_chunks_encode(tail);
    assert(signature() + tail =~= bytes) by {
        assert(bytes.subrange(0, 8) == signature());
    }
}

/// Writing a file that was read, and reading it again, changes nothing, as
/// often as it is done: the bytes written are the bytes read, and they read
/// as the same chunks.
pub proof fn lemma_rewrite_is_stable(bytes: Seq<u8>)
    requires
        parse_png(bytes) is Ok,
    ensures
        png_to_bytes(parse_png(bytes)->Ok_0) == bytes,
        parse_png(png_to_bytes(parse_png(bytes)->Ok_0)) == parse_png(bytes),
{
    lemma_parsed_png_encodes(bytes);
}

/// A PNG file in memory: its chunks, in the order in which they are stored.
#[derive(Debug)]
pub struct Png {
    chunks: Vec<Chunk>,
}

impl View for Png {
    type V = Seq<ChunkView>;

    closed spec fn view(&self) -> Seq<ChunkView> {
        views_of(self.chunks@)
    }
}

impl Png {
    /// A file that holds the given chunks.
    pub fn from_chunks(chunks: Vec<Chunk>) -> (png: Png)
        ensures
            png@ == views_of(chunks@),
    {
        Png { chunks }
    }

    /// The signature of the file.
    pub fn header(&self) -> (r: [u8; 8])
        ensures
            r@ == signature(),
    {
        let r: [u8; 8] = [137, 80, 78, 71, 13, 10, 26, 10];
        assert(r@ =~= signature());
        r
    }

    /// The chunks of the file.
    pub fn chunks(&self) -> (r: &[Chunk])
        ensures
            views_of(r@) == self@,
    {
        self.chunks.as_slice()
    }

    /// Puts `chunk` behind the chunks that the file holds.
    pub fn append_chunk(&mut self, chunk: Chunk)
        ensures
            final(self)@ == old(self)@.push(chunk@),
    {
        self.chunks.push(chunk);
        assert(self@ =~= old(self)@.push(chunk@));
    }

    /// The position of the first chunk whose type is `chunk_type`, or the
    /// number of chunks if there is none.
    fn find(&self, chunk_type: &str) -> (k: usize)
        ensures
            k == position_of_type(self@, chunk_type@),
            k <= self.chunks@.len(),
    {
        let wanted = chunk_type.as_bytes();
        let mut k: usize = 0;
        while k < self.chunks.len()
            invariant
                k <= self.chunks@.len(),
                wanted@ == encode_utf8(chunk_type@),
                forall|j: int| 0 <= j < k ==> !has_type(#[trigger] self@[j], chunk_type@),
            ensures
                k < self.chunks@.len() ==> has_type(self@[k as int], chunk_type@),
            decreases self.chunks@.len() - k,
        {
            let found = self.chunks[k].chunk_type().bytes();
            proof {
                lemma_type_text_unique(self@[k as int].chunk_type, chunk_type@);
            }
            if same_bytes(found.as_slice(), wanted) {
                break ;
            }
            k += 1;
        }
        proof {
            lemma_position_of_type_is(self@, chunk_type@, k as int);
        }
        k
    }

    /// The first chunk whose type is `chunk_type`, if there is one.
    pub fn chunk_by_type(&self, chunk_type: &str) -> (r: Option<&Chunk>)
        ensures
            match r {
                Some(chunk) => {
                    &&& position_of_type(self@, chunk_type@) < self@.len()
                    &&& chunk@ == self@[position_of_type(self@, chunk_type@)]
                },
                None => position_of_type(self@, chunk_type@) == self@.len(),
            },
    {
        let k = self.find(chunk_type);
        if k < self.chunks.len() {
            Some(&self.chunks[k])
        } else {
            None
        }
    }

    /// Takes the first chunk whose type is `chunk_type` out of the file and
    /// returns it. The other chunks keep their order. Where no chunk has the
    /// type, the file is left as it is.
    pub fn remove_first_chunk(&mut self, chunk_type: &str) -> (r: Result<Chunk, PngError>)
        ensures
            match r {
                Ok(chunk) => {
                    &&& position_of_type(old(self)@, chunk_type@) < old(self)@.len()
                    &&& chunk@ == old(self)@[position_of_type(old(self)@, chunk_type@)]
                    &&& final(self)@ == old(self)@.remove(
                        position_of_type(old(self)@, chunk_type@),
                    )
                },
                Err(e) => {
                    &&& position_of_type(old(self)@, chunk_type@) == old(self)@.len()
                    &&& e == PngError::ChunkNotFound
                    &&& final(self)@ == old(self)@
                },
            },
    {
        let k = self.find(chunk_type);
        if k < self.chunks.len() {
            let chunk = self.chunks.remove(k);
            assert(self@ =~= old(self)@.remove(k as int));
            Ok(chunk)
        } else {
            Err(PngError::ChunkNotFound)
        }
    }

    /// The file for display: one line for each chunk, with its type and,
    /// where the payload is valid UTF-8, the payload as text.
    pub fn to_string(&self) -> (r: String)
        ensures
            r@ == render(self@),
    {
        let mut r = String::new();
        let mut i: usize = 0;
        assert(self@.subrange(0, 0) =~= Seq::<ChunkView>::empty());
        while i < self.chunks.len()
            invariant
                i <= self.chunks@.len(),
                r@ == render(self@.subrange(0, i as int)),
            decreases self.chunks@.len() - i,
        {
            let chunk = &self.chunks[i];
            let ghost before = r@;
            r.append(chunk.chunk_type().to_string().as_str());
            match chunk.data_as_string() {
                Ok(text) => {
                    r.append(": ");
                    r.append(text.as_str());
                },
                Err(_) => {},
            }
            r.append("\n");
            proof {
                let shown = self@.subrange(0, i + 1);
                assert(shown.drop_last() =~= self@.subrange(0, i as int));
                assert(shown.last() == self@[i as int]);
                assert(r@ =~= before + chunk_line(self@[i as int]));
            }
            i += 1;
        }
        assert(self@.subrange(0, i as int) =~= self@);
        r
    }

    /// The encoding of the file: the signature, then every chunk. It reads
    /// back as the chunks of this file.
    pub fn as_bytes(&self) -> (r: Vec<u8>)
        ensures
            r@ == png_to_bytes(self@),
            parse_png(r@) == Ok::<Seq<ChunkView>, PngError>(self@),
    {
        let mut r: Vec<u8> = Vec::new();
        extend_bytes(&mut r, self.header().as_slice());
        let mut i: usize = 0;
        assert(self@.subrange(0, 0) =~= Seq::<ChunkView>::empty());
        while i < self.chunks.len()
            invariant
                i <= self.chunks@.len(),
                r@ == png_to_bytes(self@.subrange(0, i as int)),
                all_wf(self@.subrange(0, i as int)),
            decreases self.chunks@.len() - i,
        {
            let chunk = &self.chunks[i];
            let bytes = chunk.as_bytes();
            proof {
                use_type_invariant(chunk);
                lemma_chunks_to_bytes_push(self@.subrange(0, i as int), self@[i as int]);
                lemma_all_wf_push(self@.subrange(0, i as int), self@[i as int]);
                assert(self@.subrange(0, i + 1) =~= self@.subrange(0, i as int).push(
                    self@[i as int],
                ));
            }
            extend_bytes(&mut r, bytes.as_slice());
            i += 1;
        }
        assert(self@.subrange(0, i as int) =~= self@);
        proof {
            lemma_png_round_trip(self@);
        }
        r
    }
}

impl TryFrom<&[u8]> for Png {
    type Error = PngError;

    /// Reads a whole file. The file that is returned has the bytes that
    /// were read as its encoding.
    fn try_from(bytes: &[u8]) -> (r: Result<Self, Self::Error>)
        ensures
            match r {
                Ok(png) => {
                    &&& parse_png(bytes@) == Ok::<Seq<ChunkView>, PngError>(png@)
                    &&& all_wf(png@)
                    &&& png_to_bytes(png@) == bytes@
                },
                Err(e) => parse_png(bytes@) == Err::<Seq<ChunkView>, PngError>(e),
            },
    {
        proof {
            if parse_png(bytes@) is Ok {
                lemma_parsed_png_encodes(bytes@);
            }
        }
        let len = bytes.len();
        if len < 8 {
            return Err(PngError::BadSignature);
        }
        let mut k: usize = 0;
        while k < 8
            invariant
                k <= 8 <= len,
                len == bytes@.len(),
                forall|j: int| 0 <= j < k ==> bytes@[j] == signature()[j],
            decreases 8 - k,
        {
            let expected: [u8; 8] = [137, 80, 78, 71, 13, 10, 26, 10];
            if bytes[k] != expected[k] {
                assert(bytes@.subrange(0, 8)[k as int] != signature()[k as int]);
                return Err(PngError::BadSignature);
            }
            k += 1;
        }
        assert(bytes@.subrange(0, 8) =~= signature());
        let mut chunks: Vec<Chunk> = Vec::new();
        let mut pos: usize = 8;
        assert(views_of(chunks@) =~= Seq::<ChunkView>::empty());
        assert(bytes@.subrange(8, len as int) == bytes@.subrange(pos as int, len as int));
        while pos < len
            invariant
                8 <= pos <= len,
                len == bytes@.len(),
                parse_png(bytes@) == with_prefix(
                    views_of(chunks@),
                    parse_chunks(bytes@.subrange(pos as int, len as int)),
                ),
            decreases len - pos,
        {
            let remaining = len - pos;
            let mut n = remaining;
            if remaining >= 12 {
                let length = u32_from_be_bytes(slice_subrange(bytes, pos, pos + 4));
                if length as usize <= remaining - 12 {
                    n = 12 + length as usize;
                }
            }
            let ghost tail = bytes@.subrange(pos as int, len as int);
            proof {
                if tail.len() >= 4 {
                    assert(tail.subrange(0, 4) =~= bytes@.subrange(pos as int, pos + 4));
                }
                assert(n == chunk_extent(tail));
                assert(tail.subrange(0, n as int) =~= bytes@.subrange(pos as int, pos + n));
                assert(tail.subrange(n as int, tail.len() as int) =~= bytes@.subrange(
                    pos + n,
                    len as int,
                ));
                lemma_parse_chunks_step(views_of(chunks@), tail);
            }
            let chunk = match Chunk::try_from(slice_subrange(bytes, pos, pos + n)) {
                Ok(chunk) => chunk,
                Err(e) => {
                    return Err(e);
                },
            };
            proof {
                assert(views_of(chunks@.push(chunk)) =~= views_of(chunks@).push(chunk@));
            }
            chunks.push(chunk);
            pos += n;
        }
        proof {
            assert(bytes@.subrange(pos as int, len as int) =~= Seq::<u8>::empty());
            assert(views_of(chunks@) + Seq::<ChunkView>::empty() =~= views_of(chunks@));
        }
        Ok(Png { chunks })
    }
}

/// `try_from` states its result over views, in its own `ensures`: two values
/// of this type with one view need not be the same value, so no value is
/// named here.
impl TryFromSpecImpl<&[u8]> for Png {
    open spec fn obeys_try_from_spec() -> bool {
        false
    }

    open spec fn try_from_spec(v: &[u8]) -> Result<Self, Self::Error> {
        arbitrary()
    }
}

} // verus!
