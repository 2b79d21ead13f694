//! The CRC-32 that guards each chunk, computed by the `crc` crate.

use vstd::prelude::*;

verus! {

/// The CRC-32/ISO-HDLC checksum of `bytes` (the CRC-32 of zlib and PNG).
///
/// The value is whatever the `crc` crate computes for the catalogue entry
/// `CRC_32_ISO_HDLC`; nothing but its being a function of the bytes is known
/// to the proofs of this crate.
pub uninterp spec fn crc32_iso_hdlc(bytes: Seq<u8>) -> u32;

/// Computes the checksum of `bytes`.
///
/// Trusted: the body builds `crc::Crc::<u32>::new(&crc::CRC_32_ISO_HDLC)` and
/// calls `Crc::checksum` on it. The contract claims only that the result is
/// determined by the bytes, under the name [`crc32_iso_hdlc`].
#[verifier::external_body]
pub(crate) fn checksum(bytes: &[u8]) -> (sum: u32)
    ensures
        sum == crc32_iso_hdlc(bytes@),
{
    crc::Crc::<u32>::new(&crc::CRC_32_ISO_HDLC).checksum(bytes)
}

} // verus!
