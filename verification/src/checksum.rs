//! The checksum that guards the signature header and the header block.

use crate::error::{ReadError, ReadFailure};
use vstd::prelude::*;

verus! {

/// The CRC-32/ISO-HDLC checksum of `bytes`, as the `crc` crate computes it.
pub uninterp spec fn crc32_iso_hdlc(bytes: Seq<u8>) -> u32;

/// `crc::Crc::<u32>::checksum` with the algorithm `crc::CRC_32_ISO_HDLC`: the
/// checksum of `bytes`. Nothing is claimed of the number but that it depends
/// on the bytes alone.
#[verifier::external_body]
pub(crate) fn checksum(bytes: &[u8]) -> (r: u32)
    ensures
        r == crc32_iso_hdlc(bytes@),
{
    crc::Crc::<u32>::new(&crc::CRC_32_ISO_HDLC).checksum(bytes)
}

/// What a comparison of checksums comes to: nothing to report where they
/// agree, corruption where they differ.
pub open spec fn spec_check_crc(actual: u32, expected: u32) -> Result<(), ReadFailure> {
    if actual == expected {
        Ok(())
    } else {
        Err(ReadFailure::CrcInvalid)
    }
}

/// Compares the checksum `actual` that was computed with the checksum
/// `expected` that was stored.
pub fn check_crc(actual: u32, expected: u32) -> (r: Result<(), ReadError>)
    ensures
        match r {
            Ok(_) => spec_check_crc(actual, expected) is Ok,
            Err(e) => spec_check_crc(actual, expected) == Err::<(), ReadFailure>(e@),
        },
{
    if actual == expected {
        Ok(())
    } else {
        Err(ReadError::CrcInvalid)
    }
}

/// Computes the checksum of `bytes` and compares it with `expected`.
pub fn validate_crc(bytes: &[u8], expected: u32) -> (r: Result<(), ReadError>)
    ensures
        match r {
            Ok(_) => spec_check_crc(crc32_iso_hdlc(bytes@), expected) is Ok,
            Err(e) => spec_check_crc(crc32_iso_hdlc(bytes@), expected) == Err::<(), ReadFailure>(
                e@,
            ),
        },
{
    check_crc(checksum(bytes), expected)
}

} // verus!
