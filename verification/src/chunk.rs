use crate::binary::{
    lemma_u32_be_bytes_round_trip, push_bytes, spec_u32_from_be_bytes, spec_u32_to_be_bytes,
    u32_from_be_bytes, u32_to_be_bytes,
};
use crate::chunk_error::ChunkError;
use crate::chunk_type::ChunkType;
use crate::crc32::{crc32_checksum, crc32_of};
use vstd::prelude::*;
use vstd::slice::{slice_subrange, slice_to_vec};
use vstd::utf8::{decode_utf8, valid_utf8};

verus! {

broadcast use crate::chunk_type::lemma_chunk_type_view_len;

/// Mathematical model of one chunk record: a 32-bit data length, a four-byte
/// type code, the data bytes, and the stored CRC.
pub ghost struct ChunkView {
    pub data_length: u32,
    pub type_code: Seq<u8>,
    pub data: Seq<u8>,
    pub crc: u32,
}

impl ChunkView {
    /// Construction and decoding keep every chunk in this shape: the length
    /// field counts the data bytes, and the stored CRC is the checksum of
    /// type code and data.
    pub open spec fn wf(self) -> bool {
        &&& self.type_code.len() == 4
        &&& self.data_length == self.data.len()
        &&& self.crc == crc32_of(self.type_code + self.data)
    }

    /// The exact binary form of the record: big-endian length, type code,
    /// data, big-endian CRC.
    pub open spec fn spec_encode(self) -> Seq<u8> {
        spec_u32_to_be_bytes(self.data_length) + self.type_code + self.data + spec_u32_to_be_bytes(
            self.crc,
        )
    }
}

/// One decode step over a buffer.  A buffer under 12 bytes is too short;
/// a declared length past the end of the buffer is too long; a stored CRC
/// that differs from the recomputed one is rejected.  Bytes past the end of
/// the record are ignored: container parsing feeds the remaining buffer and
/// advances by the record size.
pub open spec fn spec_chunk_decode(b: Seq<u8>) -> Result<ChunkView, ChunkError> {
    if b.len() < 12 {
        Err(ChunkError::TooShort)
    } else {
        let len = spec_u32_from_be_bytes(b.subrange(0, 4));
        if len as int > b.len() - 12 {
            Err(ChunkError::TooLong)
        } else {
            let tc = b.subrange(4, 8);
            let data = b.subrange(8, 8 + len as int);
            let stored = spec_u32_from_be_bytes(b.subrange(8 + len as int, 12 + len as int));
            if stored != crc32_of(tc + data) {
                Err(ChunkError::BadCRC)
            } else {
                Ok(ChunkView { data_length: len, type_code: tc, data: data, crc: stored })
            }
        }
    }
}

/// One structural record of a PNG-shaped file.  Immutable once built; the
/// stored CRC always matches the data (see [`ChunkView::wf`]).
pub struct Chunk {
    data_length: u32,
    chunk_type: ChunkType,
    data: Vec<u8>,
    crc: u32,
}

impl View for Chunk {
    type V = ChunkView;

    closed spec fn view(&self) -> ChunkView {
        ChunkView {
            data_length: self.data_length,
            type_code: self.chunk_type@,
            data: self.data@,
            crc: self.crc,
        }
    }
}

/// The checksum over type code and data, the two regions the CRC protects.
fn compute_crc(chunk_type: &ChunkType, data: &[u8]) -> (r: u32)
    ensures
        r == crc32_of(chunk_type@ + data@),
{
    let mut joined: Vec<u8> = Vec::new();
    let tb = chunk_type.bytes();
    joined.push(tb[0]);
    joined.push(tb[1]);
    joined.push(tb[2]);
    joined.push(tb[3]);
    proof {
        assert(joined@ =~= chunk_type@);
    }
    push_bytes(&mut joined, data);
    crc32_checksum(joined.as_slice())
}

/// Relies on String::from_utf8: it succeeds exactly when the bytes are
/// valid UTF-8, and then returns their decoding.
#[verifier::external_body]
fn bytes_to_string(data: &Vec<u8>) -> (r: Option<String>)
    ensures
        r matches Some(s) ==> valid_utf8(data@) && s@ == decode_utf8(data@),
        r is None ==> !valid_utf8(data@),
{
    String::from_utf8(data.clone()).ok()
}

impl Chunk {
    /// Builds a chunk from a type code and raw data, computing and storing
    /// the CRC; the one way to obtain a self-consistent chunk without a
    /// verification pass.
    pub fn new(chunk_type: &ChunkType, data: Vec<u8>) -> (r: Chunk)
        requires
            data@.len() <= u32::MAX,
        ensures
            r@ == (ChunkView {
                data_length: data@.len() as u32,
                type_code: chunk_type@,
                data: data@,
                crc: crc32_of(chunk_type@ + data@),
            }),
            r@.wf(),
    {
        let crc = compute_crc(chunk_type, data.as_slice());
        let data_length = data.len() as u32;
        Chunk { data_length, chunk_type: *chunk_type, data, crc }
    }

    /// The number of data bytes, as recorded in the length field.
    pub fn length(&self) -> (r: u32)
        ensures
            r == self@.data_length,
    {
        self.data_length
    }

    /// The type code of this chunk.
    pub fn chunk_type(&self) -> (r: &ChunkType)
        ensures
            r@ == self@.type_code,
    {
        &self.chunk_type
    }

    /// The stored CRC over type code and data.
    pub fn crc(&self) -> (r: u32)
        ensures
            r == self@.crc,
    {
        self.crc
    }

    /// The data as text; succeeds exactly when the data bytes are valid
    /// UTF-8, otherwise the caller must fall back to the raw bytes.
    pub fn as_string(&self) -> (r: Result<String, ChunkError>)
        ensures
            valid_utf8(self@.data) ==> (r matches Ok(s) && s@ == decode_utf8(self@.data)),
            !valid_utf8(self@.data) ==> r == Err::<String, ChunkError>(ChunkError::GenericError),
    {
        match bytes_to_string(&self.data) {
            Some(s) => Ok(s),
            None => Err(ChunkError::GenericError),
        }
    }

    /// The exact binary form of this record; always succeeds.
    pub fn as_bytes(&self) -> (r: Vec<u8>)
        ensures
            r@ == self@.spec_encode(),
    {
        let mut out: Vec<u8> = Vec::new();
        let lb = u32_to_be_bytes(self.data_length);
        out.push(lb[0]);
        out.push(lb[1]);
        out.push(lb[2]);
        out.push(lb[3]);
        proof {
            assert(out@ =~= spec_u32_to_be_bytes(self@.data_length));
        }
        let tb = self.chunk_type.bytes();
        out.push(tb[0]);
        out.push(tb[1]);
        out.push(tb[2]);
        out.push(tb[3]);
        proof {
            assert(out@ =~= spec_u32_to_be_bytes(self@.data_length) + self@.type_code);
        }
        push_bytes(&mut out, self.data.as_slice());
        let cb = u32_to_be_bytes(self.crc);
        out.push(cb[0]);
        out.push(cb[1]);
        out.push(cb[2]);
        out.push(cb[3]);
        proof {
            assert(out@ =~= self@.spec_encode());
        }
        out
    }

    /// Decodes one record from the front of a buffer, verifying the CRC;
    /// bytes past the end of the record are ignored.
    pub fn try_from(value: &[u8]) -> (r: Result<Chunk, ChunkError>)
        ensures
            (match spec_chunk_decode(value@) {
                Ok(cv) => r matches Ok(c) && c@ == cv,
                Err(e) => r matches Err(e2) && e2 == e,
            }),
    {
        if value.len() < 12 {
            return Err(ChunkError::TooShort);
        }
        let data_length = u32_from_be_bytes(value[0], value[1], value[2], value[3]);
        proof {
            assert(seq![value@[0], value@[1], value@[2], value@[3]] =~= value@.subrange(0, 4));
        }
        if data_length as u64 > value.len() as u64 - 12 {
            return Err(ChunkError::TooLong);
        }
        let len = data_length as usize;
        let tc_bytes: [u8; 4] = [value[4], value[5], value[6], value[7]];
        let chunk_type = match ChunkType::try_from(tc_bytes) {
            Ok(t) => t,
            Err(e) => return Err(e),
        };
        proof {
            assert(chunk_type@ =~= value@.subrange(4, 8));
        }
        let data = slice_to_vec(slice_subrange(value, 8, 8 + len));
        let stored = u32_from_be_bytes(
            value[8 + len],
            value[9 + len],
            value[10 + len],
            value[11 + len],
        );
        proof {
            assert(seq![
                value@[8 + len as int],
                value@[9 + len as int],
                value@[10 + len as int],
                value@[11 + len as int],
            ] =~= value@.subrange(8 + len as int, 12 + len as int));
        }
        let computed = compute_crc(&chunk_type, data.as_slice());
        if stored != computed {
            return Err(ChunkError::BadCRC);
        }
        Ok(Chunk { data_length, chunk_type, data, crc: stored })
    }
}

/// Any chunk that decodes successfully is well formed.
pub proof fn lemma_chunk_decode_wf(b: Seq<u8>)
    ensures
        spec_chunk_decode(b) matches Ok(cv) ==> cv.wf(),
{
}

/// Decoding ignores bytes past the record: a well-formed chunk's encoding
/// decodes to that chunk whatever follows it.
pub proof fn lemma_chunk_decode_prefix(cv: ChunkView, rest: Seq<u8>)
    requires
        cv.wf(),
    ensures
        spec_chunk_decode(cv.spec_encode() + rest) == Ok::<ChunkView, ChunkError>(cv),
{
    let b = cv.spec_encode() + rest;
    let n = cv.data.len() as int;
    lemma_u32_be_bytes_round_trip(cv.data_length);
    lemma_u32_be_bytes_round_trip(cv.crc);
    assert(b.len() == 12 + n + rest.len());
    assert(b.subrange(0, 4) =~= spec_u32_to_be_bytes(cv.data_length));
    assert(b.subrange(4, 8) =~= cv.type_code);
    assert(b.subrange(8, 8 + n) =~= cv.data);
    assert(b.subrange(8 + n, 12 + n) =~= spec_u32_to_be_bytes(cv.crc));
}

/// Round trip: decoding the encoding of any well-formed chunk yields that
/// chunk back, type, data, and CRC alike.
pub proof fn lemma_chunk_round_trip(cv: ChunkView)
    requires
        cv.wf(),
    ensures
        spec_chunk_decode(cv.spec_encode()) == Ok::<ChunkView, ChunkError>(cv),
{
    lemma_chunk_decode_prefix(cv, Seq::empty());
    assert(cv.spec_encode() + Seq::<u8>::empty() =~= cv.spec_encode());
}

/// A buffer shorter than the smallest possible record is rejected as too
/// short.
pub proof fn lemma_decode_too_short(b: Seq<u8>)
    requires
        b.len() < 12,
    ensures
        spec_chunk_decode(b) == Err::<ChunkView, ChunkError>(ChunkError::TooShort),
{
}

/// A declared data length that overruns the buffer is rejected as too long.
pub proof fn lemma_decode_too_long(b: Seq<u8>)
    requires
        b.len() >= 12,
        spec_u32_from_be_bytes(b.subrange(0, 4)) as int > b.len() - 12,
    ensures
        spec_chunk_decode(b) == Err::<ChunkView, ChunkError>(ChunkError::TooLong),
{
}

/// Flipping a single bit inside the type or data region of an encoded chunk
/// makes decoding fail with a CRC mismatch, unless the corrupted region
/// happens to collide with the original under CRC-32; the last premise
/// rules that case out.
pub proof fn lemma_bit_flip_bad_crc(cv: ChunkView, j: int, k: u8, b: Seq<u8>)
    requires
        cv.wf(),
        4 <= j < 8 + cv.data.len(),
        k < 8,
        b == cv.spec_encode().update(j, cv.spec_encode()[j] ^ (1u8 << k)),
        crc32_of(b.subrange(4, 8 + cv.data.len() as int)) != crc32_of(cv.type_code + cv.data),
    ensures
        spec_chunk_decode(b) == Err::<ChunkView, ChunkError>(ChunkError::BadCRC),
{
    let n = cv.data.len() as int;
    lemma_u32_be_bytes_round_trip(cv.data_length);
    lemma_u32_be_bytes_round_trip(cv.crc);
    assert(b.len() == 12 + n);
    assert(b.subrange(0, 4) =~= spec_u32_to_be_bytes(cv.data_length));
    assert(b.subrange(8 + n, 12 + n) =~= spec_u32_to_be_bytes(cv.crc));
    assert(b.subrange(4, 8) + b.subrange(8, 8 + n) =~= b.subrange(4, 8 + n));
}

} // verus!
