//! Trusted wrappers around the SHA-256 and RIPEMD-160 implementations that the
//! rest of the library states its hashing contracts over.
use vstd::prelude::*;

use sha2::Digest as _;
use ripemd::Digest as _;

verus! {

/// The SHA-256 digest of a byte sequence, a function of the bytes alone.
pub uninterp spec fn sha256_of(bytes: Seq<u8>) -> Seq<u8>;

/// The RIPEMD-160 digest of a byte sequence, a function of the bytes alone.
pub uninterp spec fn ripemd160_of(bytes: Seq<u8>) -> Seq<u8>;

/// Bitcoin's HASH160: RIPEMD-160 applied to a SHA-256 digest.
pub open spec fn hash160_of(bytes: Seq<u8>) -> Seq<u8> {
    ripemd160_of(sha256_of(bytes))
}

/// Bitcoin's double SHA-256, used for transaction ids and sighashes.
pub open spec fn sha256d_of(bytes: Seq<u8>) -> Seq<u8> {
    sha256_of(sha256_of(bytes))
}

/// Relies on sha2::Sha256: returns the 32-byte SHA-256 digest of the input.
#[verifier::external_body]
pub fn sha256(bytes: &[u8]) -> (r: [u8; 32])
    ensures
        r@ == sha256_of(bytes@),
{
    let mut out = [0u8; 32];
    out.copy_from_slice(&sha2::Sha256::digest(bytes));
    out
}

/// Relies on ripemd::Ripemd160: returns the 20-byte RIPEMD-160 digest of the input.
#[verifier::external_body]
pub fn ripemd160(bytes: &[u8]) -> (r: [u8; 20])
    ensures
        r@ == ripemd160_of(bytes@),
{
    let mut out = [0u8; 20];
    out.copy_from_slice(&ripemd::Ripemd160::digest(bytes));
    out
}

/// The double SHA-256 digest of `bytes`.
pub fn sha256d(bytes: &[u8]) -> (r: [u8; 32])
    ensures
        r@ == sha256d_of(bytes@),
{
    let first = sha256(bytes);
    sha256(first.as_slice())
}

} // verus!
