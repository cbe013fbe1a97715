//! Hash functions, provided by the `sha2`, `blake2` and `sp-io` crates.
//!
//! A digest is a fixed function of the bytes hashed. That function is given a
//! name here; nothing else is claimed of it.

use vstd::prelude::*;

verus! {

/// The SHA-512 digest of `data` (64 bytes).
pub uninterp spec fn sha512_digest(data: Seq<u8>) -> Seq<u8>;

/// The BLAKE2b digest of `data` with a 64-byte output.
pub uninterp spec fn blake2b512_digest(data: Seq<u8>) -> Seq<u8>;

/// The BLAKE2b digest of `data` with a 32-byte output.
pub uninterp spec fn blake2b256_digest(data: Seq<u8>) -> Seq<u8>;

/// Calls `sha2::Sha512::digest`. Trusted: the result is the SHA-512 digest of
/// `data`.
#[verifier::external_body]
pub(crate) fn sha512(data: &[u8]) -> (out: [u8; 64])
    ensures
        out@ == sha512_digest(data@),
{
    let mut out = [0u8; 64];
    out.copy_from_slice(&<sha2::Sha512 as sha2::Digest>::digest(data));
    out
}

/// Calls `blake2::Blake2b512::digest`. Trusted: the result is the 64-byte
/// BLAKE2b digest of `data`.
#[verifier::external_body]
pub(crate) fn blake2b_512(data: &[u8]) -> (out: [u8; 64])
    ensures
        out@ == blake2b512_digest(data@),
{
    let mut out = [0u8; 64];
    out.copy_from_slice(&<blake2::Blake2b512 as blake2::Digest>::digest(data));
    out
}

/// Calls `sp_io::hashing::blake2_256`. Trusted: the result is the 32-byte
/// BLAKE2b digest of `data`.
#[verifier::external_body]
pub(crate) fn blake2_256(data: &[u8]) -> (out: [u8; 32])
    ensures
        out@ == blake2b256_digest(data@),
{
    sp_io::hashing::blake2_256(data)
}

} // verus!
