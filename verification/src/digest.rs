//! Content digests used by the CodeDirectory: SHA-1 (the legacy algorithm)
//! and SHA-256 (the strong algorithm), computed by outside crates.

use vstd::prelude::*;

verus! {

/// Number of bytes in a SHA-1 digest.
pub const SHA1_LEN: usize = 20;

/// Number of bytes in a SHA-256 digest.
pub const SHA256_LEN: usize = 32;

/// The SHA-1 digest of a byte sequence; a function of the bytes alone.
pub uninterp spec fn sha1_of(data: Seq<u8>) -> Seq<u8>;

/// The SHA-256 digest of a byte sequence; a function of the bytes alone.
pub uninterp spec fn sha256_of(data: Seq<u8>) -> Seq<u8>;

/// Relies on the sha1 crate's `Sha1::digest` (`Digest::digest`): the 20-byte
/// SHA-1 digest of the input, a deterministic function of the bytes alone.
#[verifier::external_body]
pub fn sha1_digest(data: &Vec<u8>) -> (r: Vec<u8>)
    ensures
        r@ == sha1_of(data@),
        r@.len() == SHA1_LEN,
{
    sha1::Sha1::digest(data.as_slice()).to_vec()
}

/// Relies on the sha2 crate's `Sha256::digest` (`Digest::digest`): the 32-byte
/// SHA-256 digest of the input, a deterministic function of the bytes alone.
#[verifier::external_body]
pub fn sha256_digest(data: &Vec<u8>) -> (r: Vec<u8>)
    ensures
        r@ == sha256_of(data@),
        r@.len() == SHA256_LEN,
{
    sha2::Sha256::digest(data.as_slice()).to_vec()
}

/// Which digest algorithm a CodeDirectory carries.
#[derive(Clone, Copy, Debug, PartialEq, Eq, Structural)]
pub enum HashKind {
    /// SHA-1, wire tag 1, 20-byte digests.
    Sha1,
    /// SHA-256, wire tag 2, 32-byte digests.
    Sha256,
}

impl HashKind {
    /// Digest length of this algorithm, in bytes.
    pub open spec fn spec_len(self) -> nat {
        match self {
            HashKind::Sha1 => 20,
            HashKind::Sha256 => 32,
        }
    }

    /// Wire tag of this algorithm in the CodeDirectory `hashType` field.
    pub open spec fn spec_tag(self) -> u8 {
        match self {
            HashKind::Sha1 => 1,
            HashKind::Sha256 => 2,
        }
    }

    /// Digest length of this algorithm, in bytes.
    pub fn len(&self) -> (r: usize)
        ensures
            r == self.spec_len(),
    {
        match self {
            HashKind::Sha1 => SHA1_LEN,
            HashKind::Sha256 => SHA256_LEN,
        }
    }

    /// Wire tag of this algorithm in the CodeDirectory `hashType` field.
    pub fn tag(&self) -> (r: u8)
        ensures
            r == self.spec_tag(),
    {
        match self {
            HashKind::Sha1 => 1,
            HashKind::Sha256 => 2,
        }
    }
}

/// The digest of `data` under algorithm `kind`.
pub open spec fn digest_of(kind: HashKind, data: Seq<u8>) -> Seq<u8> {
    match kind {
        HashKind::Sha1 => sha1_of(data),
        HashKind::Sha256 => sha256_of(data),
    }
}

/// Computes the digest of `data` under algorithm `kind`.
pub fn compute_digest(kind: &HashKind, data: &Vec<u8>) -> (r: Vec<u8>)
    ensures
        r@ == digest_of(*kind, data@),
        r@.len() == kind.spec_len(),
{
    match kind {
        HashKind::Sha1 => sha1_digest(data),
        HashKind::Sha256 => sha256_digest(data),
    }
}

} // verus!

use sha1::Digest;
