use vstd::prelude::*;

verus! {

/// The IEEE 802.3 CRC-32 digest of a byte sequence.  It is a pure function
/// of the bytes; its definition lives in the checksum crate.
pub uninterp spec fn crc32_of(data: Seq<u8>) -> u32;

/// Relies on crc::crc32::checksum_ieee: the IEEE CRC-32 digest of the given
/// bytes, a function of the bytes alone.
#[verifier::external_body]
pub(crate) fn crc32(data: &[u8]) -> (r: u32)
    ensures
        r == crc32_of(data@),
{
    crc::crc32::checksum_ieee(data)
}

} // verus!
