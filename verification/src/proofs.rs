//! The proof verifier: Pedersen openings and balance proofs.
//!
//! Values are committed to as `v·G + r·H`, where `G` is the group's base point
//! and `H` is the element that the SHA-512 digest of a fixed label is mapped
//! to. A balance proof is a pair `(R, s)` of an element and a scalar. With
//! `AGG` the sum of the input commitments minus the output commitments and the
//! fee commitment, and `c` the challenge drawn from a transcript of the hash of
//! the public inputs, `R` and `AGG`, the proof is accepted when
//! `s·H = R + c·AGG`.

use vstd::prelude::*;
use vstd::string::StringSliceAdditionalSpecFns;
use crate::bytes::{hash_eq, read32, views, zeros};
use crate::group::{
    merlin_challenge,
    merlin_challenge_bytes,
    ristretto_add,
    ristretto_base_product,
    ristretto_difference,
    ristretto_from_uniform,
    ristretto_hash_to_point,
    ristretto_identity,
    ristretto_is_valid,
    ristretto_mul,
    ristretto_mul_base,
    ristretto_product,
    ristretto_sub,
    ristretto_sum,
    ristretto_valid,
    scalar_from_wide,
    scalar_reduce_wide,
};
use crate::hashing::{blake2b512_digest, blake2b_512, sha512, sha512_digest};
use crate::inputs::{decode_inputs, ProofPublicInputs, PublicInputs};

verus! {

/// The hash of the public inputs that proofs are bound to: the first 32 bytes
/// of their 64-byte BLAKE2b digest.
pub open spec fn pi_hash(public_inputs: Seq<u8>) -> Seq<u8> {
    blake2b512_digest(public_inputs).subrange(0, 32)
}

/// The encoding of the second generator `H`.
pub open spec fn generator_h_point() -> Seq<u8> {
    ristretto_from_uniform(sha512_digest("VERIFIER_H_GENERATOR".spec_bytes()))
}

/// The encoding of the commitment `value·G + blinding·H`.
pub open spec fn pedersen_commitment(value: u64, blinding: Seq<u8>) -> Seq<u8> {
    ristretto_sum(
        ristretto_base_product(value),
        ristretto_product(blinding, generator_h_point()),
    )
}

/// Whether `commitment` encodes `value·G + blinding·H`.
pub open spec fn pedersen_opens(value: u64, blinding: Seq<u8>, commitment: Seq<u8>) -> bool {
    commitment == pedersen_commitment(value, blinding)
}

/// Whether every one of `points` is a valid encoding.
pub open spec fn all_valid(points: Seq<Seq<u8>>) -> bool {
    forall|i: int| 0 <= i < points.len() ==> ristretto_valid(#[trigger] points[i])
}

/// `start` plus every one of `points`, in order.
pub open spec fn sum_all(start: Seq<u8>, points: Seq<Seq<u8>>) -> Seq<u8>
    decreases points.len(),
{
    if points.len() == 0 {
        start
    } else {
        ristretto_sum(sum_all(start, points.drop_last()), points.last())
    }
}

/// `start` minus every one of `points`, in order.
pub open spec fn subtract_all(start: Seq<u8>, points: Seq<Seq<u8>>) -> Seq<u8>
    decreases points.len(),
{
    if points.len() == 0 {
        start
    } else {
        ristretto_difference(subtract_all(start, points.drop_last()), points.last())
    }
}

/// The aggregate of a transaction: its input commitments, minus its output
/// commitments, minus its fee commitment.
pub open spec fn aggregate(inputs: PublicInputs) -> Seq<u8> {
    ristretto_difference(
        subtract_all(sum_all(zeros(32), inputs.input_commitments), inputs.new_commitments),
        inputs.fee_commitment,
    )
}

/// The challenge scalar of a balance proof.
pub open spec fn balance_challenge(pi_hash: Seq<u8>, r: Seq<u8>, agg: Seq<u8>) -> Seq<u8> {
    scalar_from_wide(
        merlin_challenge_bytes(
            "NULLA_SCHNORR_BALANCE"@,
            "pi_hash"@,
            pi_hash,
            "R"@,
            r,
            "AGG"@,
            agg,
            "c"@,
        ),
    )
}

/// Whether the pair `(r, s)` answers the challenge for `agg`:
/// `s·H = r + c·agg`.
pub open spec fn schnorr_holds(pi_hash: Seq<u8>, r: Seq<u8>, s: Seq<u8>, agg: Seq<u8>) -> bool {
    ristretto_product(s, generator_h_point()) == ristretto_sum(
        r,
        ristretto_product(balance_challenge(pi_hash, r, agg), agg),
    )
}

/// Whether `proof` is a balance proof for `public_inputs`: the public inputs
/// decode, the proof has 64 bytes, its first half and every commitment of the
/// transaction are valid encodings, and the proof answers the challenge for
/// the transaction's aggregate.
pub open spec fn balance_holds(proof: Seq<u8>, public_inputs: Seq<u8>) -> bool {
    match decode_inputs(public_inputs) {
        None => false,
        Some(inputs) => {
            &&& proof.len() == 64
            &&& ristretto_valid(proof.subrange(0, 32))
            &&& all_valid(inputs.input_commitments)
            &&& all_valid(inputs.new_commitments)
            &&& ristretto_valid(inputs.fee_commitment)
            &&& schnorr_holds(
                pi_hash(public_inputs),
                proof.subrange(0, 32),
                proof.subrange(32, 64),
                aggregate(inputs),
            )
        },
    }
}

/// The hash that proofs are bound to.
pub fn truncated_blake2b(data: &[u8]) -> (h: [u8; 32])
    ensures
        h@ == pi_hash(data@),
{
    let wide = blake2b_512(data);
    read32(wide.as_slice(), 0)
}

/// The second generator `H`.
pub fn generator_h() -> (h: [u8; 32])
    ensures
        h@ == generator_h_point(),
        ristretto_valid(h@),
{
    let digest = sha512("VERIFIER_H_GENERATOR".as_bytes());
    ristretto_hash_to_point(&digest)
}

/// The challenge scalar of a balance proof.
pub fn challenge(r: &[u8; 32], agg: &[u8; 32], pi_hash: &[u8; 32]) -> (c: [u8; 32])
    ensures
        c@ == balance_challenge(pi_hash@, r@, agg@),
{
    let wide = merlin_challenge("NULLA_SCHNORR_BALANCE", "pi_hash", pi_hash, "R", r, "AGG", agg, "c");
    scalar_reduce_wide(&wide)
}

/// `start` plus every one of `points`; `None` when one of them is no valid
/// encoding.
fn add_all(start: [u8; 32], points: &Vec<[u8; 32]>) -> (r: Option<[u8; 32]>)
    requires
        ristretto_valid(start@),
    ensures
        match r {
            Some(total) => all_valid(views(points@)) && total@ == sum_all(start@, views(points@))
                && ristretto_valid(total@),
            None => !all_valid(views(points@)),
        },
{
    let ghost ps = views(points@);
    let mut total = start;
    let mut i: usize = 0;
    assert(ps.subrange(0, 0) =~= Seq::<Seq<u8>>::empty());
    while i < points.len()
        invariant
            i <= ps.len(),
            ps == views(points@),
            ristretto_valid(total@),
            total@ == sum_all(start@, ps.subrange(0, i as int)),
            forall|j: int| 0 <= j < i ==> ristretto_valid(#[trigger] ps[j]),
        decreases ps.len() - i,
    {
        let p = points[i];
        assert(ps[i as int] == p@);
        if !ristretto_is_valid(&p) {
            return None;
        }
        proof {
            let longer = ps.subrange(0, i + 1);
            assert(longer.drop_last() =~= ps.subrange(0, i as int));
            assert(longer.last() == p@);
        }
        total = ristretto_add(&total, &p);
        i += 1;
    }
    assert(ps.subrange(0, i as int) =~= ps);
    Some(total)
}

/// `start` minus every one of `points`; `None` when one of them is no valid
/// encoding.
fn sub_all(start: [u8; 32], points: &Vec<[u8; 32]>) -> (r: Option<[u8; 32]>)
    requires
        ristretto_valid(start@),
    ensures
        match r {
            Some(total) => all_valid(views(points@)) && total@ == subtract_all(
                start@,
                views(points@),
            ) && ristretto_valid(total@),
            None => !all_valid(views(points@)),
        },
{
    let ghost ps = views(points@);
    let mut total = start;
    let mut i: usize = 0;
    assert(ps.subrange(0, 0) =~= Seq::<Seq<u8>>::empty());
    while i < points.len()
        invariant
            i <= ps.len(),
            ps == views(points@),
            ristretto_valid(total@),
            total@ == subtract_all(start@, ps.subrange(0, i as int)),
            forall|j: int| 0 <= j < i ==> ristretto_valid(#[trigger] ps[j]),
        decreases ps.len() - i,
    {
        let p = points[i];
        assert(ps[i as int] == p@);
        if !ristretto_is_valid(&p) {
            return None;
        }
        proof {
            let longer = ps.subrange(0, i + 1);
            assert(longer.drop_last() =~= ps.subrange(0, i as int));
            assert(longer.last() == p@);
        }
        total = ristretto_sub(&total, &p);
        i += 1;
    }
    assert(ps.subrange(0, i as int) =~= ps);
    Some(total)
}

/// Whether the pair `(r, s)` answers the challenge for `agg`.
pub fn check_schnorr(pi_hash: &[u8; 32], r: &[u8; 32], s: &[u8; 32], agg: &[u8; 32]) -> (ok: bool)
    requires
        ristretto_valid(r@),
        ristretto_valid(agg@),
    ensures
        ok == schnorr_holds(pi_hash@, r@, s@, agg@),
{
    let h = generator_h();
    let c = challenge(r, agg, pi_hash);
    let lhs = ristretto_mul(s, &h);
    let c_agg = ristretto_mul(&c, agg);
    let rhs = ristretto_add(r, &c_agg);
    hash_eq(&lhs, &rhs)
}

/// Verifies the balance proof `proof` for the encoded public inputs
/// `public_inputs`.
pub fn verify_bytes(proof: &[u8], public_inputs: &[u8]) -> (ok: bool)
    ensures
        ok == balance_holds(proof@, public_inputs@),
{
    let inputs = match ProofPublicInputs::decode(public_inputs) {
        Some(inputs) => inputs,
        None => {
            return false;
        },
    };
    let pi_hash = truncated_blake2b(public_inputs);
    if proof.len() != 64 {
        return false;
    }
    let r = read32(proof, 0);
    if !ristretto_is_valid(&r) {
        return false;
    }
    let s = read32(proof, 32);
    let zero = ristretto_identity();
    let with_inputs = match add_all(zero, &inputs.input_commitments) {
        Some(total) => total,
        None => {
            return false;
        },
    };
    let without_outputs = match sub_all(with_inputs, &inputs.new_commitments) {
        Some(total) => total,
        None => {
            return false;
        },
    };
    if !ristretto_is_valid(&inputs.fee_commitment) {
        return false;
    }
    let agg = ristretto_sub(&without_outputs, &inputs.fee_commitment);
    check_schnorr(&pi_hash, &r, &s, &agg)
}

/// Whether `commitment` commits to `value` under `blinding`.
pub fn pedersen_check_u64(value: u64, blinding: [u8; 32], commitment: [u8; 32]) -> (ok: bool)
    ensures
        ok == pedersen_opens(value, blinding@, commitment@),
{
    let h = generator_h();
    let value_part = ristretto_mul_base(value);
    let blinding_part = ristretto_mul(&blinding, &h);
    let expected = ristretto_add(&value_part, &blinding_part);
    hash_eq(&expected, &commitment)
}

/// An opening is of one commitment only: a commitment that differs from one
/// that opens, in a single bit or otherwise, does not open.
pub proof fn lemma_opening_is_unique(
    value: u64,
    blinding: Seq<u8>,
    commitment: Seq<u8>,
    other: Seq<u8>,
)
    requires
        pedersen_opens(value, blinding, commitment),
        other != commitment,
    ensures
        !pedersen_opens(value, blinding, other),
{
}

} // verus!
