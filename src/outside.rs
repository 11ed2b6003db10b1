//! Calls into outside crates: the container checksum and the rendering of a
//! build time.
use vstd::prelude::*;

verus! {

/// The CRC-16/IBM-SDLC (X-25) checksum of a byte sequence.
pub uninterp spec fn x25_of(b: Seq<u8>) -> u16;

/// The RFC 3339 text of a UTC instant given in seconds since the Unix epoch,
/// or `None` where the seconds are out of the representable range.
pub uninterp spec fn rfc3339_of(secs: int) -> Option<Seq<char>>;

/// Relies on `crc::Crc::<u16>::checksum` with the `crc::CRC_16_IBM_SDLC`
/// algorithm: the checksum depends on the bytes alone.
#[verifier::external_body]
pub(crate) fn x25_checksum(b: &[u8]) -> (r: u16)
    ensures
        r == x25_of(b@),
{
    crc::Crc::<u16>::new(&crc::CRC_16_IBM_SDLC).checksum(b)
}

/// Relies on `chrono::DateTime::<chrono::Utc>::from_timestamp` (`None` on
/// seconds out of range) and `DateTime::to_rfc3339`: the text depends on the
/// seconds alone.
#[verifier::external_body]
pub(crate) fn utc_rfc3339(secs: i64) -> (r: Option<String>)
    ensures
        r is Some <==> rfc3339_of(secs as int) is Some,
        r matches Some(s) ==> rfc3339_of(secs as int) == Some(s@),
{
    match chrono::DateTime::<chrono::Utc>::from_timestamp(secs, 0) {
        Some(t) => Some(t.to_rfc3339()),
        None => None,
    }
}

} // verus!
