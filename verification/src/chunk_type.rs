use crate::chunk_error::ChunkError;
use vstd::prelude::*;
use vstd::string::StringSliceAdditionalSpecFns;

verus! {

/// A byte that may appear in a type code read from text: an ASCII letter.
pub open spec fn spec_letter_byte(b: u8) -> bool {
    (65 <= b && b <= 90) || (97 <= b && b <= 122)
}

/// Text is accepted as a type code when it is exactly four letter bytes.
pub open spec fn spec_valid_type_text(bs: Seq<u8>) -> bool {
    bs.len() == 4 && (forall|i: int| 0 <= i < 4 ==> spec_letter_byte(#[trigger] bs[i]))
}

/// Critical flag: bit 5 of the first byte is clear.
pub open spec fn spec_is_critical(tc: Seq<u8>) -> bool
    recommends
        tc.len() == 4,
{
    tc[0] & 0x20 == 0
}

/// Public flag: bit 5 of the second byte is clear.
pub open spec fn spec_is_public(tc: Seq<u8>) -> bool
    recommends
        tc.len() == 4,
{
    tc[1] & 0x20 == 0
}

/// Reserved bit: bit 5 of the third byte must be clear in a conformant code.
pub open spec fn spec_is_reserved_bit_valid(tc: Seq<u8>) -> bool
    recommends
        tc.len() == 4,
{
    tc[2] & 0x20 == 0
}

/// Safe-to-copy flag: bit 5 of the fourth byte is set.
pub open spec fn spec_is_safe_to_copy(tc: Seq<u8>) -> bool
    recommends
        tc.len() == 4,
{
    tc[3] & 0x20 != 0
}

/// The characters that display a type code: each byte as the character
/// with that code.
pub open spec fn spec_type_chars(tc: Seq<u8>) -> Seq<char>
    recommends
        tc.len() == 4,
{
    seq![tc[0] as char, tc[1] as char, tc[2] as char, tc[3] as char]
}

/// The type code of the end-of-image chunk, the bytes of "IEND".
pub open spec fn spec_end_code() -> Seq<u8> {
    seq![0x49u8, 0x45u8, 0x4Eu8, 0x44u8]
}

/// The type code of the leading image-header chunk, the bytes of "IHDR".
pub open spec fn spec_header_code() -> Seq<u8> {
    seq![0x49u8, 0x48u8, 0x44u8, 0x52u8]
}

/// Relies on String::push: it appends exactly the given character.
pub assume_specification[ String::push ](s: &mut String, c: char)
    ensures
        final(s)@ == old(s)@.push(c),
;

/// The type code field of a chunk: exactly four bytes.  Its view is the
/// byte sequence.  Case of each byte carries the flag bits; any four bytes
/// can be held, and `is_valid` reports conformance.
#[derive(Debug, Clone, Copy)]
pub struct ChunkType {
    type_code: [u8; 4],
}

impl View for ChunkType {
    type V = Seq<u8>;

    closed spec fn view(&self) -> Seq<u8> {
        self.type_code@
    }
}

/// Every type code views as exactly four bytes.
pub broadcast proof fn lemma_chunk_type_view_len(t: &ChunkType)
    ensures
        #[trigger] t@.len() == 4,
{
}

impl ChunkType {
    /// Wraps four raw bytes as a type code; this never fails.
    pub fn try_from(value: [u8; 4]) -> (r: Result<ChunkType, ChunkError>)
        ensures
            r matches Ok(t) && t@ == value@,
    {
        Ok(ChunkType { type_code: value })
    }

    /// Reads a type code from text; accepted exactly when the text is four
    /// ASCII letter bytes.
    pub fn from_str(s: &str) -> (r: Result<ChunkType, ChunkError>)
        ensures
            spec_valid_type_text(s.spec_bytes()) ==> (r matches Ok(t) && t@ == s.spec_bytes()),
            !spec_valid_type_text(s.spec_bytes()) ==> (r matches Err(e) && e
                == ChunkError::GenericError),
    {
        let bytes: &[u8] = s.as_bytes();
        if bytes.len() != 4 {
            return Err(ChunkError::GenericError);
        }
        let code: [u8; 4] = [bytes[0], bytes[1], bytes[2], bytes[3]];
        proof {
            assert(code@ =~= s.spec_bytes());
        }
        let mut i: usize = 0;
        while i < 4
            invariant
                i <= 4,
                code@ == s.spec_bytes(),
                code@.len() == 4,
                forall|j: int| 0 <= j < i ==> spec_letter_byte(#[trigger] code@[j]),
            decreases 4 - i,
        {
            let b = code[i];
            if !((b >= 65 && b <= 90) || (b >= 97 && b <= 122)) {
                return Err(ChunkError::GenericError);
            }
            i = i + 1;
        }
        let r = ChunkType { type_code: code };
        proof {
            assert(r@ =~= s.spec_bytes());
        }
        Ok(r)
    }

    /// The four bytes of the code.
    pub fn bytes(&self) -> (r: [u8; 4])
        ensures
            r@ == self@,
    {
        self.type_code
    }

    /// Overall conformance: the reserved bit (bit 5 of the third byte) is
    /// clear.
    pub fn is_valid(&self) -> (r: bool)
        ensures
            r == spec_is_reserved_bit_valid(self@),
    {
        self.type_code[2] & 0x20 == 0
    }

    /// Whether the chunk is critical: bit 5 of the first byte is clear.
    pub fn is_critical(&self) -> (r: bool)
        ensures
            r == spec_is_critical(self@),
    {
        self.type_code[0] & 0x20 == 0
    }

    /// Whether the chunk is public: bit 5 of the second byte is clear.
    pub fn is_public(&self) -> (r: bool)
        ensures
            r == spec_is_public(self@),
    {
        self.type_code[1] & 0x20 == 0
    }

    /// Whether the reserved bit is clear, as the specification mandates.
    pub fn is_reserved_bit_valid(&self) -> (r: bool)
        ensures
            r == spec_is_reserved_bit_valid(self@),
    {
        self.type_code[2] & 0x20 == 0
    }

    /// Whether the chunk is safe to copy: bit 5 of the fourth byte is set.
    pub fn is_safe_to_copy(&self) -> (r: bool)
        ensures
            r == spec_is_safe_to_copy(self@),
    {
        self.type_code[3] & 0x20 != 0
    }

    /// The code as text: each byte as the character with that code.
    pub fn to_string(&self) -> (r: String)
        ensures
            r@ == spec_type_chars(self@),
    {
        let mut s = String::new();
        s.push(self.type_code[0] as char);
        s.push(self.type_code[1] as char);
        s.push(self.type_code[2] as char);
        s.push(self.type_code[3] as char);
        proof {
            assert(s@ =~= spec_type_chars(self@));
        }
        s
    }

    /// The end-of-image type code ("IEND").
    pub fn end_chunk() -> (r: ChunkType)
        ensures
            r@ == spec_end_code(),
    {
        let r = ChunkType { type_code: [0x49, 0x45, 0x4E, 0x44] };
        proof {
            assert(r@ =~= spec_end_code());
        }
        r
    }

    /// The image-header type code ("IHDR").
    pub fn header_chunk() -> (r: ChunkType)
        ensures
            r@ == spec_header_code(),
    {
        let r = ChunkType { type_code: [0x49, 0x48, 0x44, 0x52] };
        proof {
            assert(r@ =~= spec_header_code());
        }
        r
    }
}

impl PartialEq for ChunkType {
    /// Byte-wise exact comparison of the two codes.
    fn eq(&self, other: &Self) -> (r: bool) {
        let r = self.type_code[0] == other.type_code[0] && self.type_code[1]
            == other.type_code[1] && self.type_code[2] == other.type_code[2] && self.type_code[3]
            == other.type_code[3];
        proof {
            if r {
                assert(self@ =~= other@);
            }
        }
        r
    }
}

impl vstd::std_specs::cmp::PartialEqSpecImpl for ChunkType {
    open spec fn obeys_eq_spec() -> bool {
        true
    }

    open spec fn eq_spec(&self, other: &Self) -> bool {
        self@ == other@
    }
}

impl Eq for ChunkType {

}

} // verus!
