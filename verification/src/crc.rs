//! The checksum of the transfer stream: CRC-32 in the CKSUM variant.

use vstd::prelude::*;

verus! {

/// The CRC-32/CKSUM checksum of a byte string.
pub uninterp spec fn cksum(data: Seq<u8>) -> u32;

/// Builds a `crc::Crc::<u32>` with the catalogue's `CRC_32_CKSUM`
/// parameters, feeds `head` and then `body` to a digest of it and finalizes
/// the digest. Trusted: the result is the CRC-32/CKSUM checksum of the two
/// byte strings joined, and depends on nothing else.
#[verifier::external_body]
fn crc_digest(head: &[u8], body: &[u8]) -> (sum: u32)
    ensures
        sum == cksum(head@ + body@),
{
    let algorithm = ::crc::Crc::<u32>::new(&::crc::CRC_32_CKSUM);
    let mut digest = algorithm.digest();
    digest.update(head);
    digest.update(body);
    digest.finalize()
}

/// The checksum algorithm of the transfer stream.
#[derive(Clone, Copy, Debug)]
pub struct Cksum {}

/// The checksum algorithm that seals every record of a transfer stream.
pub fn create_crc() -> (algorithm: Cksum) {
    Cksum {  }
}

impl Cksum {
    /// The checksum of a record: of its header bytes followed by its content.
    pub fn checksum(&self, head: &[u8], body: &[u8]) -> (sum: u32)
        ensures
            sum == cksum(head@ + body@),
    {
        crc_digest(head, body)
    }
}

} // verus!
