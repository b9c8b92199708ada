//! Digests and checksums.
use sha2::{Digest, Sha256};
use vstd::prelude::*;

verus! {

/// The SHA-256 digest of bytes.
pub uninterp spec fn sha256(bytes: Seq<u8>) -> Seq<u8>;

/// A running SHA-256 computation.
#[verifier::external_body]
#[derive(Debug)]
pub struct RunningDigest {
    hasher: Sha256,
}

/// The bytes that a running digest has taken in, in order.
pub uninterp spec fn hashed_bytes(digest: RunningDigest) -> Seq<u8>;

impl RunningDigest {
    /// `sha2::Sha256::new`: a digest that has taken in nothing.
    #[verifier::external_body]
    pub(crate) fn new() -> (digest: Self)
        ensures
            hashed_bytes(digest) == Seq::<u8>::empty(),
    {
        RunningDigest { hasher: Sha256::new() }
    }

    /// `sha2::Digest::update`: takes in the bytes after all that came before.
    #[verifier::external_body]
    pub(crate) fn update(&mut self, bytes: &[u8])
        ensures
            hashed_bytes(*final(self)) == hashed_bytes(*old(self)) + bytes@,
    {
        self.hasher.update(bytes);
    }

    /// `sha2::Digest::finalize` on a copy: the thirty-two bytes of the SHA-256
    /// digest of everything taken in. The algorithm itself is left unsaid.
    #[verifier::external_body]
    pub(crate) fn finish(&self) -> (digest: [u8; 32])
        ensures
            digest@ == sha256(hashed_bytes(*self)),
    {
        self.hasher.clone().finalize().into()
    }
}

/// The SHA-256 digest of a byte string.
pub fn sha256_of(bytes: &[u8]) -> (digest: [u8; 32])
    ensures
        digest@ == sha256(bytes@),
{
    let mut running: RunningDigest = RunningDigest::new();
    running.update(bytes);
    assert(Seq::<u8>::empty() + bytes@ =~= bytes@);
    running.finish()
}

/// The CRC-32C (Castagnoli) checksum of bytes.
pub uninterp spec fn crc32c_checksum(bytes: Seq<u8>) -> u32;

/// `crc32c::crc32c`: the CRC-32C of the bytes, a function of them alone. The
/// algorithm itself is left unsaid.
pub assume_specification[ crc32c::crc32c ](data: &[u8]) -> (checksum: u32)
    ensures
        checksum == crc32c_checksum(data@),
;

} // verus!
