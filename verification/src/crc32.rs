use vstd::prelude::*;

verus! {

/// The CRC-32/ISO-HDLC checksum of a byte sequence.  The algorithm is fixed
/// and depends on the bytes alone, so the value is named here and computed
/// only by the trusted wrapper below.
pub uninterp spec fn crc32_of(bytes: Seq<u8>) -> u32;

/// Relies on crc::Crc::<u32>::checksum with the crc::CRC_32_ISO_HDLC
/// algorithm: the checksum is a pure function of the input bytes.
#[verifier::external_body]
pub(crate) fn crc32_checksum(bytes: &[u8]) -> (r: u32)
    ensures
        r == crc32_of(bytes@),
{
    crc::Crc::<u32>::new(&crc::CRC_32_ISO_HDLC).checksum(bytes)
}

} // verus!
