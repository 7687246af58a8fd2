//! The CRC-32 checksum that guards every chunk.

use vstd::prelude::*;
use crc::CRC_32_ISO_HDLC;
use crc::Crc;

verus! {

/// The CRC-32/ISO-HDLC checksum of `bytes`: the value that the `crc` crate
/// computes for them with its catalogue entry `CRC_32_ISO_HDLC`.
pub uninterp spec fn crc32_iso_hdlc(bytes: Seq<u8>) -> u32;

/// Computes the checksum of `bytes` with `crc::Crc::<u32>::checksum`.
///
/// Trusted: the result is taken to depend on the bytes alone, and
/// [`crc32_iso_hdlc`] names it. Nothing else is claimed of it.
#[verifier::external_body]
pub(crate) fn checksum(bytes: &[u8]) -> (crc: u32)
    ensures
        crc == crc32_iso_hdlc(bytes@),
{
    Crc::<u32>::new(&CRC_32_ISO_HDLC).checksum(bytes)
}

} // verus!
