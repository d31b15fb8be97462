use crate::chunk::{spec_chunk_decode, Chunk, ChunkView};
use crate::chunk_error::ChunkError;
use crate::chunk_type::{spec_end_code, spec_header_code, ChunkType};
use crate::png_error::PngError;
use vstd::prelude::*;
use vstd::slice::slice_subrange;

verus! {

broadcast use crate::chunk_type::lemma_chunk_type_view_len;

/// The fixed eight-byte signature that opens every PNG-structured buffer.
pub open spec fn spec_signature() -> Seq<u8> {
    seq![0x89u8, 0x50u8, 0x4Eu8, 0x47u8, 0x0Du8, 0x0Au8, 0x1Au8, 0x0Au8]
}

/// The concatenation of the binary forms of a sequence of chunks, in order.
pub open spec fn spec_chunks_encoding(s: Seq<ChunkView>) -> Seq<u8>
    decreases s.len(),
{
    if s.len() == 0 {
        Seq::empty()
    } else {
        s[0].spec_encode() + spec_chunks_encoding(s.skip(1))
    }
}

/// The binary form of a whole container: signature, then every chunk.
pub open spec fn spec_png_encoding(s: Seq<ChunkView>) -> Seq<u8> {
    spec_signature() + spec_chunks_encoding(s)
}

/// Parses a buffer as consecutive chunk records until it is exhausted.
/// Each step decodes one record from the front and advances by its size;
/// any chunk failure aborts the whole parse.
pub open spec fn spec_parse_chunks(b: Seq<u8>) -> Result<Seq<ChunkView>, ChunkError>
    decreases b.len(),
{
    if b.len() == 0 {
        Ok(Seq::empty())
    } else {
        match spec_chunk_decode(b) {
            Err(e) => Err(e),
            Ok(cv) => match spec_parse_chunks(b.skip(12 + cv.data.len() as int)) {
                Err(e) => Err(e),
                Ok(rest) => Ok(seq![cv] + rest),
            },
        }
    }
}

/// The minimal required structure: the image-header chunk leads and the
/// end chunk trails.
pub open spec fn spec_has_required_chunks(s: Seq<ChunkView>) -> bool {
    &&& s.len() >= 2
    &&& s[0].type_code == spec_header_code()
    &&& s[s.len() - 1].type_code == spec_end_code()
}

/// Decoding a whole buffer: the signature must match, every chunk must
/// decode, and the required chunks must stand in their places.
pub open spec fn spec_png_decode(b: Seq<u8>) -> Result<Seq<ChunkView>, PngError> {
    if b.len() < 8 || b.subrange(0, 8) != spec_signature() {
        Err(PngError::BadHeader)
    } else {
        match spec_parse_chunks(b.skip(8)) {
            Err(e) => Err(PngError::ChunkError(e)),
            Ok(s) => if spec_has_required_chunks(s) {
                Ok(s)
            } else {
                Err(PngError::MissingRequiredChunks)
            },
        }
    }
}

/// The index of the first chunk bearing the given type code, if any.
pub open spec fn spec_find_chunk(s: Seq<ChunkView>, tc: Seq<u8>) -> Option<int>
    decreases s.len(),
{
    if s.len() == 0 {
        None
    } else if s[0].type_code == tc {
        Some(0)
    } else {
        match spec_find_chunk(s.skip(1), tc) {
            None => None,
            Some(i) => Some(i + 1),
        }
    }
}

/// What a found index means: it is in range, bears the code, and nothing
/// before it does; absence means no chunk bears the code.
pub proof fn lemma_find_chunk_found(s: Seq<ChunkView>, tc: Seq<u8>)
    ensures
        (match spec_find_chunk(s, tc) {
            Some(i) => 0 <= i < s.len() && s[i].type_code == tc && (forall|j: int|
                0 <= j < i ==> s[j].type_code != tc),
            None => forall|j: int| 0 <= j < s.len() ==> s[j].type_code != tc,
        }),
    decreases s.len(),
{
    if s.len() == 0 {
    } else if s[0].type_code == tc {
    } else {
        let s1 = s.skip(1);
        lemma_find_chunk_found(s1, tc);
        match spec_find_chunk(s1, tc) {
            Some(i1) => {
                assert(s[i1 + 1] == s1[i1]);
                assert forall|j: int| 0 <= j < i1 + 1 implies s[j].type_code != tc by {
                    if j > 0 {
                        assert(s[j] == s1[j - 1]);
                    }
                }
            },
            None => {
                assert forall|j: int| 0 <= j < s.len() implies s[j].type_code != tc by {
                    if j > 0 {
                        assert(s[j] == s1[j - 1]);
                    }
                }
            },
        }
    }
}

/// The first match is at `i` when `i` bears the code and nothing before it
/// does.
pub proof fn lemma_find_chunk_at(s: Seq<ChunkView>, tc: Seq<u8>, i: int)
    requires
        0 <= i < s.len(),
        s[i].type_code == tc,
        forall|j: int| 0 <= j < i ==> s[j].type_code != tc,
    ensures
        spec_find_chunk(s, tc) == Some(i),
    decreases s.len(),
{
    if s[0].type_code == tc {
        assert(i == 0);
    } else {
        lemma_find_chunk_at(s.skip(1), tc, i - 1);
    }
}

/// No chunk bears the code, so nothing is found.
pub proof fn lemma_find_chunk_none(s: Seq<ChunkView>, tc: Seq<u8>)
    requires
        forall|j: int| 0 <= j < s.len() ==> s[j].type_code != tc,
    ensures
        spec_find_chunk(s, tc) is None,
    decreases s.len(),
{
    if s.len() > 0 {
        lemma_find_chunk_none(s.skip(1), tc);
    }
}

/// Appending a chunk extends the encoding by that chunk's binary form.
pub proof fn lemma_chunks_encoding_push(s: Seq<ChunkView>, c: ChunkView)
    ensures
        spec_chunks_encoding(s.push(c)) == spec_chunks_encoding(s) + c.spec_encode(),
    decreases s.len(),
{
    if s.len() == 0 {
        assert(s.push(c).skip(1) =~= Seq::<ChunkView>::empty());
        assert(spec_chunks_encoding(Seq::<ChunkView>::empty()) == Seq::<u8>::empty());
        assert(spec_chunks_encoding(s.push(c)) == c.spec_encode() + Seq::<u8>::empty());
        assert(c.spec_encode() + Seq::<u8>::empty() =~= c.spec_encode());
        assert(Seq::<u8>::empty() + c.spec_encode() =~= c.spec_encode());
    } else {
        assert(s.push(c).skip(1) =~= s.skip(1).push(c));
        lemma_chunks_encoding_push(s.skip(1), c);
        assert(spec_chunks_encoding(s.push(c)) == s[0].spec_encode() + spec_chunks_encoding(
            s.skip(1).push(c),
        ));
        assert(s[0].spec_encode() + (spec_chunks_encoding(s.skip(1)) + c.spec_encode()) =~= (
        s[0].spec_encode() + spec_chunks_encoding(s.skip(1))) + c.spec_encode());
    }
}

/// Parsing the concatenated encodings of well-formed chunks yields exactly
/// those chunks.
pub proof fn lemma_parse_chunks_round_trip(s: Seq<ChunkView>)
    requires
        forall|i: int| 0 <= i < s.len() ==> (#[trigger] s[i]).wf(),
    ensures
        spec_parse_chunks(spec_chunks_encoding(s)) == Ok::<Seq<ChunkView>, ChunkError>(s),
    decreases s.len(),
{
    if s.len() == 0 {
        assert(s =~= Seq::<ChunkView>::empty());
    } else {
        let b = spec_chunks_encoding(s);
        let cv = s[0];
        let rest = spec_chunks_encoding(s.skip(1));
        crate::chunk::lemma_chunk_decode_prefix(cv, rest);
        assert(b.len() > 0);
        assert(b.skip(12 + cv.data.len() as int) =~= rest);
        assert(forall|i: int| 0 <= i < s.skip(1).len() ==> (#[trigger] s.skip(1)[i]).wf());
        lemma_parse_chunks_round_trip(s.skip(1));
        assert(seq![cv] + s.skip(1) =~= s);
    }
}

/// Round trip at the container level: the encoding of any container whose
/// chunks are well formed and whose required chunks stand in their places
/// decodes back to the same chunk sequence.
pub proof fn lemma_png_round_trip(s: Seq<ChunkView>)
    requires
        forall|i: int| 0 <= i < s.len() ==> (#[trigger] s[i]).wf(),
        spec_has_required_chunks(s),
    ensures
        spec_png_decode(spec_png_encoding(s)) == Ok::<Seq<ChunkView>, PngError>(s),
{
    let b = spec_png_encoding(s);
    assert(b.subrange(0, 8) =~= spec_signature());
    assert(b.skip(8) =~= spec_chunks_encoding(s));
    lemma_parse_chunks_round_trip(s);
}

/// An ordered sequence of chunks standing for a whole file.  Its view is
/// the sequence of chunk models; the fixed signature is implicit.  Order is
/// significant and never silently changed.
pub struct Png {
    chunks: Vec<Chunk>,
}

impl View for Png {
    type V = Seq<ChunkView>;

    closed spec fn view(&self) -> Seq<ChunkView> {
        self.chunks@.map_values(|c: Chunk| c@)
    }
}

impl Png {
    /// An empty container, to be filled by explicit appends.
    pub fn new() -> (r: Png)
        ensures
            r@ == Seq::<ChunkView>::empty(),
    {
        let r = Png { chunks: Vec::new() };
        proof {
            assert(r@ =~= Seq::<ChunkView>::empty());
        }
        r
    }

    /// In-memory construction from a ready list of chunks, kept in order.
    pub fn from_chunks(chunks: Vec<Chunk>) -> (r: Png)
        ensures
            r@ == chunks@.map_values(|c: Chunk| c@),
    {
        Png { chunks }
    }

    /// The chunks in storage order, read-only.
    pub fn chunks(&self) -> (r: &Vec<Chunk>)
        ensures
            r@.len() == self@.len(),
            forall|i: int| 0 <= i < r@.len() ==> r@[i]@ == self@[i],
    {
        &self.chunks
    }

    /// The first index holding the given type code, scanning in order.
    fn position_of(chunks: &Vec<Chunk>, chunk_type: &ChunkType) -> (r: Option<usize>)
        ensures
            (match spec_find_chunk(chunks@.map_values(|c: Chunk| c@), chunk_type@) {
                Some(i) => r matches Some(u) && u as int == i,
                None => r is None,
            }),
    {
        let ghost s = chunks@.map_values(|c: Chunk| c@);
        let mut i: usize = 0;
        while i < chunks.len()
            invariant
                i <= chunks@.len(),
                s == chunks@.map_values(|c: Chunk| c@),
                forall|j: int| 0 <= j < i ==> s[j].type_code != chunk_type@,
            decreases chunks@.len() - i,
        {
            let ct = *chunks[i].chunk_type();
            if ct == *chunk_type {
                proof {
                    lemma_find_chunk_at(s, chunk_type@, i as int);
                }
                return Some(i);
            }
            i = i + 1;
        }
        proof {
            lemma_find_chunk_none(s, chunk_type@);
        }
        None
    }

    /// Looks up the first chunk with the given type code; later chunks with
    /// the same code are not considered.
    pub fn chunk_by_type(&self, chunk_type: &ChunkType) -> (r: Option<&Chunk>)
        ensures
            (match spec_find_chunk(self@, chunk_type@) {
                Some(i) => r matches Some(c) && c@ == self@[i],
                None => r is None,
            }),
    {
        proof {
            lemma_find_chunk_found(self@, chunk_type@);
        }
        match Self::position_of(&self.chunks, chunk_type) {
            Some(i) => Some(&self.chunks[i]),
            None => None,
        }
    }

    /// Inserts a chunk just before the last one, so that a trailing end
    /// chunk stays last; into an empty container it goes alone.
    pub fn append_chunk(&mut self, chunk: Chunk)
        ensures
            old(self)@.len() == 0 ==> final(self)@ == seq![chunk@],
            old(self)@.len() > 0 ==> final(self)@ == old(self)@.insert(
                old(self)@.len() - 1,
                chunk@,
            ),
    {
        if self.chunks.len() == 0 {
            self.chunks.push(chunk);
            proof {
                assert(self@ =~= seq![chunk@]);
            }
        } else {
            let i = self.chunks.len() - 1;
            self.chunks.insert(i, chunk);
            proof {
                assert(self@ =~= old(self)@.insert(old(self)@.len() - 1, chunk@));
            }
        }
    }

    /// Removes and returns the first chunk with the given type code; when
    /// none bears it, fails with ChunkNotFound and leaves the container
    /// unchanged.
    pub fn remove_chunk(&mut self, chunk_type: &ChunkType) -> (r: Result<Chunk, PngError>)
        ensures
            (match spec_find_chunk(old(self)@, chunk_type@) {
                Some(i) => r matches Ok(c) && c@ == old(self)@[i] && final(self)@ == old(
                    self,
                )@.remove(i),
                None => r matches Err(e) && e == PngError::ChunkNotFound && final(self)@ == old(
                    self,
                )@,
            }),
    {
        proof {
            lemma_find_chunk_found(old(self)@, chunk_type@);
        }
        match Self::position_of(&self.chunks, chunk_type) {
            Some(i) => {
                let c = self.chunks.remove(i);
                proof {
                    assert(self@ =~= old(self)@.remove(i as int));
                }
                Ok(c)
            },
            None => Err(PngError::ChunkNotFound),
        }
    }

    /// The binary form of the whole container: the signature followed by
    /// every chunk's record in order.  Always succeeds.
    pub fn as_bytes(&self) -> (r: Vec<u8>)
        ensures
            r@ == spec_png_encoding(self@),
    {
        let mut out: Vec<u8> = Vec::new();
        out.push(0x89);
        out.push(0x50);
        out.push(0x4E);
        out.push(0x47);
        out.push(0x0D);
        out.push(0x0A);
        out.push(0x1A);
        out.push(0x0A);
        proof {
            assert(out@ =~= spec_signature());
            assert(out@ =~= spec_signature() + spec_chunks_encoding(self@.take(0)));
        }
        let mut i: usize = 0;
        while i < self.chunks.len()
            invariant
                i <= self.chunks@.len(),
                self@.len() == self.chunks@.len(),
                forall|j: int| 0 <= j < self.chunks@.len() ==> self.chunks@[j]@ == self@[j],
                out@ == spec_signature() + spec_chunks_encoding(self@.take(i as int)),
            decreases self.chunks@.len() - i,
        {
            let mut piece = self.chunks[i].as_bytes();
            out.append(&mut piece);
            proof {
                assert(self@.take(i as int).push(self@[i as int]) =~= self@.take(i as int + 1));
                lemma_chunks_encoding_push(self@.take(i as int), self@[i as int]);
            }
            i = i + 1;
        }
        proof {
            assert(self@.take(self@.len() as int) =~= self@);
        }
        out
    }

    /// Decodes a whole buffer: checks the signature, parses chunks until
    /// the buffer is exhausted, and requires the image-header and end
    /// chunks in their places.  Any chunk failure aborts the decode,
    /// wrapped as a container error.
    pub fn try_from(value: &[u8]) -> (r: Result<Png, PngError>)
        ensures
            (match spec_png_decode(value@) {
                Ok(s) => r matches Ok(p) && p@ == s,
                Err(e) => r matches Err(e2) && e2 == e,
            }),
    {
        if value.len() < 8 {
            return Err(PngError::BadHeader);
        }
        if !(value[0] == 0x89 && value[1] == 0x50 && value[2] == 0x4E && value[3] == 0x47
            && value[4] == 0x0D && value[5] == 0x0A && value[6] == 0x1A && value[7] == 0x0A) {
            proof {
                if value@.subrange(0, 8) == spec_signature() {
                    assert(forall|j: int|
                        0 <= j < 8 ==> value@[j] == #[trigger] spec_signature()[j]);
                }
            }
            return Err(PngError::BadHeader);
        }
        proof {
            assert(value@.subrange(0, 8) =~= spec_signature());
        }
        let mut chunks: Vec<Chunk> = Vec::new();
        let mut offset: usize = 8;
        proof {
            assert(chunks@.map_values(|c: Chunk| c@) =~= Seq::<ChunkView>::empty());
            if let Ok(rest) = spec_parse_chunks(value@.skip(8)) {
                assert(Seq::<ChunkView>::empty() + rest =~= rest);
            }
        }
        while offset < value.len()
            invariant
                8 <= offset <= value@.len(),
                value@.subrange(0, 8) == spec_signature(),
                (match spec_parse_chunks(value@.skip(offset as int)) {
                    Ok(rest) => spec_parse_chunks(value@.skip(8)) == Ok::<
                        Seq<ChunkView>,
                        ChunkError,
                    >(chunks@.map_values(|c: Chunk| c@) + rest),
                    Err(e) => spec_parse_chunks(value@.skip(8)) == Err::<
                        Seq<ChunkView>,
                        ChunkError,
                    >(e),
                }),
            decreases value@.len() - offset,
        {
            let tail = slice_subrange(value, offset, value.len());
            proof {
                assert(tail@ =~= value@.skip(offset as int));
            }
            match Chunk::try_from(tail) {
                Err(e) => {
                    proof {
                        assert(value@.skip(offset as int).len() > 0);
                        assert(spec_parse_chunks(value@.skip(offset as int)) == Err::<
                            Seq<ChunkView>,
                            ChunkError,
                        >(e));
                    }
                    return Err(PngError::ChunkError(e));
                },
                Ok(c) => {
                    let step = 12 + c.length() as usize;
                    proof {
                        assert(step == 12 + c@.data.len());
                        assert(offset + step <= value@.len());
                        assert(value@.skip(offset as int).skip(12 + c@.data.len() as int)
                            =~= value@.skip(offset as int + step as int));
                        let ghost prev = chunks@.map_values(|cc: Chunk| cc@);
                        assert(prev.push(c@) =~= chunks@.push(c).map_values(|cc: Chunk| cc@));
                        if let Ok(rest) = spec_parse_chunks(
                            value@.skip(offset as int + step as int),
                        ) {
                            assert(prev + (seq![c@] + rest) =~= (prev + seq![c@]) + rest);
                            assert(prev + seq![c@] =~= prev.push(c@));
                        }
                    }
                    chunks.push(c);
                    offset = offset + step;
                },
            }
        }
        proof {
            assert(value@.skip(offset as int) =~= Seq::<u8>::empty());
            if let Ok(rest) = spec_parse_chunks(value@.skip(offset as int)) {
                assert(chunks@.map_values(|c: Chunk| c@) + rest =~= chunks@.map_values(
                    |c: Chunk| c@,
                ));
            }
        }
        if chunks.len() < 2 {
            return Err(PngError::MissingRequiredChunks);
        }
        let first_ok = *chunks[0].chunk_type() == ChunkType::header_chunk();
        let last_ok = *chunks[chunks.len() - 1].chunk_type() == ChunkType::end_chunk();
        if !first_ok || !last_ok {
            return Err(PngError::MissingRequiredChunks);
        }
        Ok(Png { chunks })
    }
}

} // verus!
