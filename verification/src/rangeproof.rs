//! The verifier of aggregated range proofs.
//!
//! The range-proof protocol is that of the `bulletproofs` crate, over the
//! Ristretto group of the `curve25519-dalek-ng` crate. The protocol wants a
//! power of two of commitments: where a transaction has fewer, commitments to
//! zero are added, whose blinding factors every verifier derives alike from the
//! hash of the public inputs. The protocol also draws random numbers while it
//! verifies. They come from a generator seeded with the same hash, so that the
//! verdict is a function of the bytes verified.

use vstd::prelude::*;
use vstd::string::StringSliceAdditionalSpecFns;
use crate::bytes::{append_bytes, le_bytes4, le_bytes4_of, lemma_views_push, views};
use crate::hashing::{sha512, sha512_digest};
use crate::merkle::{next_power_of_two, next_power_of_two_of};
use crate::pallet::ProofVerify;
use crate::proofs::{
    balance_holds,
    pedersen_check_u64,
    pedersen_opens,
    pi_hash,
    truncated_blake2b,
    verify_bytes,
};
use crate::rng::{DeterministicRng, RngState};
use curve25519_dalek_ng::ristretto::CompressedRistretto;

verus! {

/// Whether `encoding` is the canonical encoding of a group element.
pub uninterp spec fn ng_ristretto_valid(encoding: Seq<u8>) -> bool;

/// The encoding of the element that 64 uniform bytes are mapped to.
pub uninterp spec fn ng_ristretto_from_uniform(bytes: Seq<u8>) -> Seq<u8>;

/// The encoding of the element encoded by `point` multiplied by the scalar
/// that `scalar` holds modulo the group order.
pub uninterp spec fn ng_ristretto_product(scalar: Seq<u8>, point: Seq<u8>) -> Seq<u8>;

/// The 32 canonical bytes of the scalar that 64 bytes hold modulo the group
/// order.
pub uninterp spec fn ng_scalar_from_wide(bytes: Seq<u8>) -> Seq<u8>;

/// Whether the range-proof protocol accepts `proof` for `commitments`: with
/// the group's base point as the base of values and `blinding_base` as the base
/// of blinding factors, on a transcript opened for `domain` that was given
/// `message` under `label`, for values of `nbits` bits, drawing its random
/// numbers from a fresh generator seeded with `seed`.
pub uninterp spec fn bulletproofs_accepts(
    proof: Seq<u8>,
    commitments: Seq<Seq<u8>>,
    blinding_base: Seq<u8>,
    domain: Seq<char>,
    label: Seq<char>,
    message: Seq<u8>,
    nbits: nat,
    seed: Seq<u8>,
) -> bool;

/// Calls `RistrettoPoint::from_uniform_bytes` and compresses the element.
/// Trusted: the result is a function of the bytes, and it decompresses.
#[verifier::external_body]
pub(crate) fn ng_hash_to_point(bytes: &[u8; 64]) -> (out: [u8; 32])
    ensures
        out@ == ng_ristretto_from_uniform(bytes@),
        ng_ristretto_valid(out@),
{
    curve25519_dalek_ng::ristretto::RistrettoPoint::from_uniform_bytes(bytes).compress().to_bytes()
}

/// Calls `Scalar::from_bytes_mod_order_wide`. Trusted: the 32 bytes of the
/// reduced scalar are a function of the 64 bytes.
#[verifier::external_body]
pub(crate) fn ng_scalar_reduce_wide(bytes: &[u8; 64]) -> (out: [u8; 32])
    ensures
        out@ == ng_scalar_from_wide(bytes@),
{
    curve25519_dalek_ng::scalar::Scalar::from_bytes_mod_order_wide(bytes).to_bytes()
}

/// Multiplies a decompressed element by `Scalar::from_bytes_mod_order(scalar)`
/// and compresses the product. Trusted: the result is a function of the scalar
/// bytes and the encoding, and it decompresses.
#[verifier::external_body]
pub(crate) fn ng_mul(scalar: &[u8; 32], point: &[u8; 32]) -> (out: [u8; 32])
    requires
        ng_ristretto_valid(point@),
    ensures
        out@ == ng_ristretto_product(scalar@, point@),
        ng_ristretto_valid(out@),
{
    let s = curve25519_dalek_ng::scalar::Scalar::from_bytes_mod_order(*scalar);
    let p = curve25519_dalek_ng::ristretto::CompressedRistretto(*point).decompress().unwrap();
    (s * p).compress().to_bytes()
}

/// Calls `RangeProof::verify_multiple_with_rng`, on a proof parsed with
/// `RangeProof::from_bytes`, with generators from `BulletproofGens::new` for as
/// many parties as there are commitments, the Pedersen bases
/// `RISTRETTO_BASEPOINT_POINT` and `blinding_base`, and a `merlin::Transcript`
/// opened for `domain` and given `message` under `label`. A proof that does not
/// parse is not accepted. Trusted: the verdict is a function of the bytes
/// given and of the seed of the fresh generator.
#[verifier::external_body]
pub(crate) fn bulletproofs_verify(
    proof: &[u8],
    commitments: &Vec<[u8; 32]>,
    blinding_base: &[u8; 32],
    domain: &'static str,
    label: &'static str,
    message: &[u8; 32],
    nbits: usize,
    rng: DeterministicRng,
) -> (ok: bool)
    requires
        ng_ristretto_valid(blinding_base@),
        nbits <= 64,
        rng@ == RngState::fresh(rng@.seed),
    ensures
        ok == bulletproofs_accepts(
            proof@,
            views(commitments@),
            blinding_base@,
            domain@,
            label@,
            message@,
            nbits as nat,
            rng@.seed,
        ),
{
    let mut rng = rng;
    let Ok(parsed) = bulletproofs::RangeProof::from_bytes(proof) else { return false };
    let h = CompressedRistretto(*blinding_base).decompress().unwrap();
    let b = curve25519_dalek_ng::constants::RISTRETTO_BASEPOINT_POINT;
    let pc = bulletproofs::PedersenGens { B: b, B_blinding: h };
    let bp = bulletproofs::BulletproofGens::new(nbits, commitments.len());
    let mut t = merlin::Transcript::new(domain.as_bytes());
    t.append_message(label.as_bytes(), message);
    let vs: Vec<CompressedRistretto> = commitments.iter().map(|c| CompressedRistretto(*c)).collect();
    parsed.verify_multiple_with_rng(&bp, &pc, &mut t, &vs, nbits, &mut rng).is_ok()
}

/// The encoding of the second generator `H`.
pub open spec fn ng_generator_h_point() -> Seq<u8> {
    ng_ristretto_from_uniform(sha512_digest("VERIFIER_H_GENERATOR".spec_bytes()))
}

/// The bytes hashed into the blinding factor of padding commitment `i`: a
/// label, the hash of the public inputs, and `i` as four little-endian bytes.
pub open spec fn pad_preimage(pi_hash: Seq<u8>, i: nat) -> Seq<u8> {
    "PAD_R".spec_bytes() + pi_hash + le_bytes4((i % 0x1_0000_0000) as u32)
}

/// Padding commitment `i`: a commitment to zero under the blinding factor
/// derived from `pi_hash` and `i`.
pub open spec fn pad_commitment(pi_hash: Seq<u8>, i: nat) -> Seq<u8> {
    ng_ristretto_product(
        ng_scalar_from_wide(sha512_digest(pad_preimage(pi_hash, i))),
        ng_generator_h_point(),
    )
}

/// `commitments`, followed by padding commitments up to a power of two.
pub open spec fn padded_commitments(commitments: Seq<Seq<u8>>, pi_hash: Seq<u8>) -> Seq<
    Seq<u8>,
> {
    commitments + Seq::new(
        (next_power_of_two(commitments.len()) - commitments.len()) as nat,
        |i: int| pad_commitment(pi_hash, i as nat),
    )
}

/// Whether `range_proof` is accepted for `commitments`: there is a commitment,
/// `nbits` is between 1 and 64, and the protocol accepts the proof for the
/// padded commitments, on a transcript bound to the hash of the public inputs
/// and with random numbers seeded from that hash.
pub open spec fn range_proof_holds(
    range_proof: Seq<u8>,
    commitments: Seq<Seq<u8>>,
    public_inputs: Seq<u8>,
    nbits: u32,
) -> bool {
    &&& commitments.len() > 0
    &&& 1 <= nbits <= 64
    &&& bulletproofs_accepts(
        range_proof,
        padded_commitments(commitments, pi_hash(public_inputs)),
        ng_generator_h_point(),
        "NULLA_BULLETPROOF_RANGE"@,
        "pi_hash"@,
        pi_hash(public_inputs),
        nbits as nat,
        pi_hash(public_inputs),
    )
}

/// The second generator `H`.
pub fn ng_generator_h() -> (h: [u8; 32])
    ensures
        h@ == ng_generator_h_point(),
        ng_ristretto_valid(h@),
{
    let digest = sha512("VERIFIER_H_GENERATOR".as_bytes());
    ng_hash_to_point(&digest)
}

/// Padding commitment `i` for the public inputs with hash `pi_hash`.
pub fn padding_commitment(pi_hash: &[u8; 32], h: &[u8; 32], i: usize) -> (c: [u8; 32])
    requires
        ng_ristretto_valid(h@),
    ensures
        c@ == ng_ristretto_product(
            ng_scalar_from_wide(sha512_digest(pad_preimage(pi_hash@, i as nat))),
            h@,
        ),
        ng_ristretto_valid(c@),
{
    let counter = (i as u64 % 0x1_0000_0000) as u32;
    let mut data: Vec<u8> = Vec::new();
    append_bytes(&mut data, "PAD_R".as_bytes());
    append_bytes(&mut data, pi_hash.as_slice());
    let le = le_bytes4_of(counter);
    append_bytes(&mut data, le.as_slice());
    assert(data@ =~= pad_preimage(pi_hash@, i as nat));
    let wide = sha512(data.as_slice());
    let r = ng_scalar_reduce_wide(&wide);
    ng_mul(&r, h)
}

/// Verifies the aggregated range proof `range_proof` for `commitments`.
///
/// It fails at once when there is no commitment or `nbits` is not between 1
/// and 64. The verdict is a function of the arguments: the same bytes give the
/// same answer on every call.
pub fn verify_range_proof(
    range_proof: &[u8],
    commitments: &[[u8; 32]],
    public_inputs: &[u8],
    nbits: u32,
) -> (ok: bool)
    ensures
        ok == range_proof_holds(range_proof@, views(commitments@), public_inputs@, nbits),
{
    let m = commitments.len();
    if m == 0 {
        return false;
    }
    if nbits == 0 || nbits > 64 {
        return false;
    }
    let pi_hash = truncated_blake2b(public_inputs);
    let h = ng_generator_h();
    let target = next_power_of_two_of(m);
    let mut padded: Vec<[u8; 32]> = Vec::new();
    let mut k: usize = 0;
    while k < m
        invariant
            m == commitments@.len(),
            k <= m,
            padded@ == commitments@.subrange(0, k as int),
        decreases m - k,
    {
        padded.push(commitments[k]);
        assert(commitments@.subrange(0, k + 1) =~= commitments@.subrange(0, k as int).push(
            commitments@[k as int],
        ));
        k += 1;
    }
    assert(padded@ =~= commitments@);
    assert(views(padded@) =~= views(commitments@) + Seq::new(
        0,
        |i: int| pad_commitment(pi_hash@, i as nat),
    ));
    while (padded.len() as u128) < target
        invariant
            m == commitments@.len(),
            m <= padded@.len() <= target,
            ng_ristretto_valid(h@),
            h@ == ng_generator_h_point(),
            views(padded@) == views(commitments@) + Seq::new(
                (padded@.len() - m) as nat,
                |i: int| pad_commitment(pi_hash@, i as nat),
            ),
        decreases target - padded@.len(),
    {
        let ghost before = padded@;
        let c = padding_commitment(&pi_hash, &h, padded.len() - m);
        padded.push(c);
        proof {
            lemma_views_push(before, c);
            assert(views(padded@) =~= views(commitments@) + Seq::new(
                (padded@.len() - m) as nat,
                |i: int| pad_commitment(pi_hash@, i as nat),
            ));
        }
    }
    let rng = DeterministicRng::new(pi_hash);
    bulletproofs_verify(
        range_proof,
        &padded,
        &h,
        "NULLA_BULLETPROOF_RANGE",
        "pi_hash",
        &pi_hash,
        nbits as usize,
        rng,
    )
}

/// The verdict on a range proof is a function of what is verified: equal
/// arguments give equal verdicts, on every call and on every node.
pub proof fn lemma_range_verdict_is_determined(
    range_proof: Seq<u8>,
    commitments: Seq<Seq<u8>>,
    public_inputs: Seq<u8>,
    nbits: u32,
    range_proof_again: Seq<u8>,
    commitments_again: Seq<Seq<u8>>,
    public_inputs_again: Seq<u8>,
    nbits_again: u32,
)
    requires
        range_proof == range_proof_again,
        commitments == commitments_again,
        public_inputs == public_inputs_again,
        nbits == nbits_again,
    ensures
        range_proof_holds(range_proof, commitments, public_inputs, nbits) == range_proof_holds(
            range_proof_again,
            commitments_again,
            public_inputs_again,
            nbits_again,
        ),
{
}

/// The verifier of this crate as the verifier of a ledger.
#[derive(Clone, Copy, Debug, Default)]
pub struct Verifier {}

impl ProofVerify for Verifier {
    open spec fn balance_holds(proof: Seq<u8>, public_inputs: Seq<u8>) -> bool {
        balance_holds(proof, public_inputs)
    }

    open spec fn opens(value: u64, blinding: Seq<u8>, commitment: Seq<u8>) -> bool {
        pedersen_opens(value, blinding, commitment)
    }

    open spec fn range_holds(
        range_proof: Seq<u8>,
        commitments: Seq<Seq<u8>>,
        public_inputs: Seq<u8>,
        nbits: u32,
    ) -> bool {
        range_proof_holds(range_proof, commitments, public_inputs, nbits)
    }

    fn verify(proof: &[u8], public_inputs: &[u8]) -> (ok: bool) {
        verify_bytes(proof, public_inputs)
    }

    fn pedersen_check_u64(value: u64, blinding: [u8; 32], commitment: [u8; 32]) -> (ok: bool) {
        pedersen_check_u64(value, blinding, commitment)
    }

    fn verify_range_proof(
        range_proof: &[u8],
        commitments: &[[u8; 32]],
        public_inputs: &[u8],
        nbits: u32,
    ) -> (ok: bool) {
        verify_range_proof(range_proof, commitments, public_inputs, nbits)
    }
}

} // verus!
