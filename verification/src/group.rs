//! The Ristretto group, provided by the `curve25519-dalek` crate, and the
//! transcript that turns a proof's messages into a challenge, provided by the
//! `merlin` crate.
//!
//! A group element is held as its 32-byte canonical encoding, a scalar as 32
//! bytes that are read modulo the group order. Every operation is a fixed
//! function of the bytes it is given. Those functions are given names here;
//! beside the names only this is claimed: the encoding that an operation
//! returns is a valid one, and the neutral element is encoded as 32 zero
//! bytes.

use vstd::prelude::*;
use crate::bytes::zeros;

verus! {

/// Whether `encoding` is the canonical encoding of a group element.
pub uninterp spec fn ristretto_valid(encoding: Seq<u8>) -> bool;

/// The encoding of the element that 64 uniform bytes are mapped to.
pub uninterp spec fn ristretto_from_uniform(bytes: Seq<u8>) -> Seq<u8>;

/// The encoding of the sum of the elements encoded by `a` and `b`.
pub uninterp spec fn ristretto_sum(a: Seq<u8>, b: Seq<u8>) -> Seq<u8>;

/// The encoding of the element encoded by `a` minus the one encoded by `b`.
pub uninterp spec fn ristretto_difference(a: Seq<u8>, b: Seq<u8>) -> Seq<u8>;

/// The encoding of the element encoded by `point` multiplied by the scalar
/// that `scalar` holds modulo the group order.
pub uninterp spec fn ristretto_product(scalar: Seq<u8>, point: Seq<u8>) -> Seq<u8>;

/// The encoding of the group's base point multiplied by `value`.
pub uninterp spec fn ristretto_base_product(value: u64) -> Seq<u8>;

/// The 32 canonical bytes of the scalar that 64 bytes hold modulo the group
/// order.
pub uninterp spec fn scalar_from_wide(bytes: Seq<u8>) -> Seq<u8>;

/// The 64 challenge bytes that a transcript yields under `challenge_label`
/// after it was opened for `domain` and given three labelled messages.
pub uninterp spec fn merlin_challenge_bytes(
    domain: Seq<char>,
    label_1: Seq<char>,
    message_1: Seq<u8>,
    label_2: Seq<char>,
    message_2: Seq<u8>,
    label_3: Seq<char>,
    message_3: Seq<u8>,
    challenge_label: Seq<char>,
) -> Seq<u8>;

/// Calls `CompressedRistretto::decompress`. Trusted: the answer is whether the
/// bytes decompress, and that is a function of the bytes.
#[verifier::external_body]
pub(crate) fn ristretto_is_valid(encoding: &[u8; 32]) -> (valid: bool)
    ensures
        valid == ristretto_valid(encoding@),
{
    curve25519_dalek::ristretto::CompressedRistretto(*encoding).decompress().is_some()
}

/// Compresses `RistrettoPoint::default()`, the neutral element. Trusted: its
/// encoding is 32 zero bytes, and it decompresses.
#[verifier::external_body]
pub(crate) fn ristretto_identity() -> (out: [u8; 32])
    ensures
        out@ == zeros(32),
        ristretto_valid(out@),
{
    curve25519_dalek::ristretto::RistrettoPoint::default().compress().to_bytes()
}

/// Calls `RistrettoPoint::from_uniform_bytes` and compresses the element.
/// Trusted: the result is a function of the bytes, and it decompresses.
#[verifier::external_body]
pub(crate) fn ristretto_hash_to_point(bytes: &[u8; 64]) -> (out: [u8; 32])
    ensures
        out@ == ristretto_from_uniform(bytes@),
        ristretto_valid(out@),
{
    curve25519_dalek::ristretto::RistrettoPoint::from_uniform_bytes(bytes).compress().to_bytes()
}

/// Adds two decompressed elements and compresses the sum. Trusted: the result
/// is a function of the two encodings, and it decompresses.
#[verifier::external_body]
pub(crate) fn ristretto_add(a: &[u8; 32], b: &[u8; 32]) -> (out: [u8; 32])
    requires
        ristretto_valid(a@),
        ristretto_valid(b@),
    ensures
        out@ == ristretto_sum(a@, b@),
        ristretto_valid(out@),
{
    let p = curve25519_dalek::ristretto::CompressedRistretto(*a).decompress().unwrap();
    let q = curve25519_dalek::ristretto::CompressedRistretto(*b).decompress().unwrap();
    (p + q).compress().to_bytes()
}

/// Subtracts one decompressed element from another and compresses the
/// difference. Trusted: the result is a function of the two encodings, and it
/// decompresses.
#[verifier::external_body]
pub(crate) fn ristretto_sub(a: &[u8; 32], b: &[u8; 32]) -> (out: [u8; 32])
    requires
        ristretto_valid(a@),
        ristretto_valid(b@),
    ensures
        out@ == ristretto_difference(a@, b@),
        ristretto_valid(out@),
{
    let p = curve25519_dalek::ristretto::CompressedRistretto(*a).decompress().unwrap();
    let q = curve25519_dalek::ristretto::CompressedRistretto(*b).decompress().unwrap();
    (p - q).compress().to_bytes()
}

/// Multiplies a decompressed element by `Scalar::from_bytes_mod_order(scalar)`
/// and compresses the product. Trusted: the result is a function of the scalar
/// bytes and the encoding, and it decompresses.
#[verifier::external_body]
pub(crate) fn ristretto_mul(scalar: &[u8; 32], point: &[u8; 32]) -> (out: [u8; 32])
    requires
        ristretto_valid(point@),
    ensures
        out@ == ristretto_product(scalar@, point@),
        ristretto_valid(out@),
{
    let s = curve25519_dalek::scalar::Scalar::from_bytes_mod_order(*scalar);
    let p = curve25519_dalek::ristretto::CompressedRistretto(*point).decompress().unwrap();
    (s * p).compress().to_bytes()
}

/// Multiplies `RISTRETTO_BASEPOINT_POINT` by `Scalar::from(value)` and
/// compresses the product. Trusted: the result is a function of `value`, and
/// it decompresses.
#[verifier::external_body]
pub(crate) fn ristretto_mul_base(value: u64) -> (out: [u8; 32])
    ensures
        out@ == ristretto_base_product(value),
        ristretto_valid(out@),
{
    let s = curve25519_dalek::scalar::Scalar::from(value);
    (s * curve25519_dalek::constants::RISTRETTO_BASEPOINT_POINT).compress().to_bytes()
}

/// Calls `Scalar::from_bytes_mod_order_wide`. Trusted: the 32 bytes of the
/// reduced scalar are a function of the 64 bytes.
#[verifier::external_body]
pub(crate) fn scalar_reduce_wide(bytes: &[u8; 64]) -> (out: [u8; 32])
    ensures
        out@ == scalar_from_wide(bytes@),
{
    curve25519_dalek::scalar::Scalar::from_bytes_mod_order_wide(bytes).to_bytes()
}

/// Opens a `merlin::Transcript` for `domain`, appends three labelled messages
/// with `append_message` and draws 64 bytes with `challenge_bytes`. Trusted:
/// the bytes drawn are a function of the labels and the messages.
#[verifier::external_body]
pub(crate) fn merlin_challenge(
    domain: &'static str,
    label_1: &'static str,
    message_1: &[u8; 32],
    label_2: &'static str,
    message_2: &[u8; 32],
    label_3: &'static str,
    message_3: &[u8; 32],
    challenge_label: &'static str,
) -> (out: [u8; 64])
    ensures
        out@ == merlin_challenge_bytes(
            domain@,
            label_1@,
            message_1@,
            label_2@,
            message_2@,
            label_3@,
            message_3@,
            challenge_label@,
        ),
{
    let mut transcript = merlin::Transcript::new(domain.as_bytes());
    transcript.append_message(label_1.as_bytes(), message_1);
    transcript.append_message(label_2.as_bytes(), message_2);
    transcript.append_message(label_3.as_bytes(), message_3);
    let mut out = [0u8; 64];
    transcript.challenge_bytes(challenge_label.as_bytes(), &mut out);
    out
}

} // verus!
