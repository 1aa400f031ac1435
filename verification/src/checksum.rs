//! The CRC-32 checksum the store frames its records and headers with.

use vstd::prelude::*;

verus! {

/// The CRC-32 (IEEE 802.3 polynomial, as `crc32fast::hash` computes it) of
/// a byte sequence. It depends on the bytes alone.
pub uninterp spec fn crc32_ieee(bytes: Seq<u8>) -> u32;

/// Calls `crc32fast::hash`, which computes the CRC-32 (IEEE) of the whole
/// slice in one pass. Trusted: its result is the named checksum of the
/// bytes it was given; what that checksum is, is not written out here.
#[verifier::external_body]
pub(crate) fn crc32(bytes: &[u8]) -> (c: u32)
    ensures
        c == crc32_ieee(bytes@),
{
    crc32fast::hash(bytes)
}

} // verus!
