use blake2::Blake2b512;
use bulletproofs::{BulletproofGens, PedersenGens, RangeProof};
use curve25519_dalek::constants::RISTRETTO_BASEPOINT_POINT as G;
use curve25519_dalek::ristretto::{CompressedRistretto, RistrettoPoint};
use curve25519_dalek::scalar::Scalar;
use curve25519_dalek_ng::constants::RISTRETTO_BASEPOINT_POINT as G_NG;
use curve25519_dalek_ng::ristretto::RistrettoPoint as PointNg;
use curve25519_dalek_ng::scalar::Scalar as ScalarNg;
use merlin::Transcript;
use parity_scale_codec::Encode;
use proofhub::inputs::ProofPublicInputs;
use proofhub::proofs::{
    challenge, check_schnorr, generator_h, pedersen_check_u64, truncated_blake2b, verify_bytes,
};
use proofhub::rangeproof::{ng_generator_h, padding_commitment, verify_range_proof};
use proofhub::rng::DeterministicRng;
use sha2::{Digest, Sha512};

fn wide(data: &[u8]) -> [u8; 64] {
    let mut out = [0u8; 64];
    out.copy_from_slice(&Sha512::digest(data));
    out
}

fn h() -> RistrettoPoint {
    RistrettoPoint::from_uniform_bytes(&wide(b"VERIFIER_H_GENERATOR"))
}

fn h_ng() -> PointNg {
    PointNg::from_uniform_bytes(&wide(b"VERIFIER_H_GENERATOR"))
}

fn scalar(n: u8) -> Scalar {
    Scalar::from_bytes_mod_order([n; 32])
}

fn commit(value: u64, blinding: &Scalar) -> RistrettoPoint {
    Scalar::from(value) * G + blinding * h()
}

fn pi_hash(public_inputs: &[u8]) -> [u8; 32] {
    let mut out = [0u8; 32];
    out.copy_from_slice(&Blake2b512::digest(public_inputs)[..32]);
    out
}

fn encode(p: &ProofPublicInputs) -> Vec<u8> {
    (
        p.merkle_root,
        p.new_merkle_root,
        p.input_commitments.clone(),
        p.input_indices.clone(),
        p.input_paths.clone(),
        p.nullifiers.clone(),
        p.new_commitments.clone(),
        p.fee_commitment,
        p.fee_nullifier,
        p.tx_id,
    )
        .encode()
}

fn balance_challenge(pi_hash: &[u8; 32], r: &RistrettoPoint, agg: &RistrettoPoint) -> Scalar {
    let mut t = Transcript::new(b"NULLA_SCHNORR_BALANCE");
    t.append_message(b"pi_hash", pi_hash);
    t.append_message(b"R", r.compress().as_bytes());
    t.append_message(b"AGG", agg.compress().as_bytes());
    let mut buf = [0u8; 64];
    t.challenge_bytes(b"c", &mut buf);
    Scalar::from_bytes_mod_order_wide(&buf)
}

/// A transaction with two inputs of 30 and 12, two outputs of 25 and 15 and a
/// fee of 2, with its public inputs and a balance proof for them.
fn balanced() -> (ProofPublicInputs, Vec<u8>, Vec<u8>) {
    let (r1, r2, r3, r4, r5) = (scalar(1), scalar(2), scalar(3), scalar(4), scalar(5));
    let inputs = vec![commit(30, &r1), commit(12, &r2)];
    let outputs = vec![commit(25, &r3), commit(15, &r4)];
    let fee = commit(2, &r5);
    let p = ProofPublicInputs {
        merkle_root: [0u8; 32],
        new_merkle_root: [0u8; 32],
        input_commitments: inputs.iter().map(|c| c.compress().to_bytes()).collect(),
        input_indices: vec![0, 1],
        input_paths: vec![],
        nullifiers: vec![[0x51; 32], [0x52; 32]],
        new_commitments: outputs.iter().map(|c| c.compress().to_bytes()).collect(),
        fee_commitment: fee.compress().to_bytes(),
        fee_nullifier: [0x53; 32],
        tx_id: [0x54; 16],
    };
    let bytes = encode(&p);
    let proof = prove_balance(&bytes, &p, r1 + r2 - r3 - r4 - r5, scalar(77));
    (p, bytes, proof)
}

fn prove_balance(bytes: &[u8], p: &ProofPublicInputs, x: Scalar, k: Scalar) -> Vec<u8> {
    let point = |c: &[u8; 32]| CompressedRistretto(*c).decompress().unwrap();
    let mut agg = RistrettoPoint::default();
    for c in p.input_commitments.iter() {
        agg += point(c);
    }
    for c in p.new_commitments.iter() {
        agg -= point(c);
    }
    agg -= point(&p.fee_commitment);
    let r = k * h();
    let c = balance_challenge(&pi_hash(bytes), &r, &agg);
    let s = k + c * x;
    let mut proof = r.compress().to_bytes().to_vec();
    proof.extend_from_slice(&s.to_bytes());
    proof
}

fn flip(bytes: &[u8; 32], bit: usize) -> [u8; 32] {
    let mut out = *bytes;
    out[bit / 8] ^= 1 << (bit % 8);
    out
}

#[test]
fn the_second_generator_is_the_hashed_label() {
    assert_eq!(generator_h(), h().compress().to_bytes());
    assert_eq!(ng_generator_h(), h_ng().compress().to_bytes());
    assert_eq!(generator_h(), ng_generator_h());
    assert_ne!(generator_h(), G.compress().to_bytes());
}

#[test]
fn the_hash_of_the_public_inputs_is_the_first_half_of_blake2b_512() {
    for data in [&b""[..], &b"abc"[..], &[7u8; 200][..]] {
        assert_eq!(truncated_blake2b(data), pi_hash(data));
    }
    assert_ne!(truncated_blake2b(b"abc"), sp_crypto_hashing::blake2_256(b"abc"));
}

#[test]
fn the_challenge_is_drawn_from_the_transcript() {
    let r = scalar(9) * h();
    let agg = commit(5, &scalar(6));
    let hash = [0x42u8; 32];
    let expected = balance_challenge(&hash, &r, &agg).to_bytes();
    let got = challenge(&r.compress().to_bytes(), &agg.compress().to_bytes(), &hash);
    assert_eq!(got, expected);
    let other = challenge(&agg.compress().to_bytes(), &r.compress().to_bytes(), &hash);
    assert_ne!(other, expected);
}

#[test]
fn an_opening_is_accepted() {
    for (value, r) in [(0u64, scalar(1)), (1, scalar(0)), (u64::MAX, scalar(200)), (42, scalar(3))] {
        let c = commit(value, &r).compress().to_bytes();
        assert!(pedersen_check_u64(value, r.to_bytes(), c));
    }
}

#[test]
fn the_commitment_to_zero_under_no_blinding_is_the_neutral_element() {
    assert!(pedersen_check_u64(0, [0u8; 32], [0u8; 32]));
    assert!(!pedersen_check_u64(1, [0u8; 32], [0u8; 32]));
}

#[test]
fn a_blinding_is_read_modulo_the_group_order() {
    let blinding = [0xffu8; 32];
    let c = commit(9, &Scalar::from_bytes_mod_order(blinding)).compress().to_bytes();
    assert!(pedersen_check_u64(9, blinding, c));
}

#[test]
fn a_single_flipped_bit_breaks_an_opening() {
    let value = 0x0123_4567_89ab_cdefu64;
    let r = scalar(0x5a).to_bytes();
    let c = commit(value, &Scalar::from_bytes_mod_order(r)).compress().to_bytes();
    assert!(pedersen_check_u64(value, r, c));
    for bit in 0..64 {
        assert!(!pedersen_check_u64(value ^ (1 << bit), r, c), "value bit {}", bit);
    }
    for bit in 0..256 {
        assert!(!pedersen_check_u64(value, flip(&r, bit), c), "blinding bit {}", bit);
        assert!(!pedersen_check_u64(value, r, flip(&c, bit)), "commitment bit {}", bit);
    }
}

#[test]
fn a_commitment_that_is_no_group_element_does_not_open() {
    assert!(CompressedRistretto([0xff; 32]).decompress().is_none());
    assert!(!pedersen_check_u64(1, [1u8; 32], [0xff; 32]));
}

#[test]
fn a_balance_proof_is_accepted() {
    let (_, bytes, proof) = balanced();
    assert!(verify_bytes(&proof, &bytes));
}

#[test]
fn a_transaction_without_inputs_and_outputs_balances_against_its_fee() {
    let r = scalar(8);
    let p = ProofPublicInputs {
        merkle_root: [0u8; 32],
        new_merkle_root: [0u8; 32],
        input_commitments: vec![],
        input_indices: vec![],
        input_paths: vec![],
        nullifiers: vec![],
        new_commitments: vec![],
        fee_commitment: commit(0, &r).compress().to_bytes(),
        fee_nullifier: [1u8; 32],
        tx_id: [2u8; 16],
    };
    let bytes = encode(&p);
    let proof = prove_balance(&bytes, &p, -r, scalar(12));
    assert!(verify_bytes(&proof, &bytes));
}

#[test]
fn values_that_do_not_balance_are_refused() {
    let (mut p, _, _) = balanced();
    p.new_commitments[0] = commit(26, &scalar(3)).compress().to_bytes();
    let bytes = encode(&p);
    let x = scalar(1) + scalar(2) - scalar(3) - scalar(4) - scalar(5);
    let proof = prove_balance(&bytes, &p, x, scalar(77));
    assert!(!verify_bytes(&proof, &bytes));
}

#[test]
fn a_changed_commitment_is_refused() {
    let (p, bytes, proof) = balanced();
    let other = commit(1, &scalar(99)).compress().to_bytes();
    for which in 0..5 {
        let mut q = p.clone();
        match which {
            0 => q.input_commitments[0] = other,
            1 => q.input_commitments[1] = other,
            2 => q.new_commitments[0] = other,
            3 => q.new_commitments[1] = other,
            _ => q.fee_commitment = other,
        }
        assert!(!verify_bytes(&proof, &encode(&q)), "commitment {}", which);
    }
    assert!(verify_bytes(&proof, &bytes));
}

#[test]
fn a_proof_is_bound_to_every_byte_of_the_public_inputs() {
    let (p, _, proof) = balanced();
    let mut q = p.clone();
    q.tx_id[0] ^= 1;
    assert!(!verify_bytes(&proof, &encode(&q)));
    let mut q = p.clone();
    q.nullifiers[1][31] ^= 0x80;
    assert!(!verify_bytes(&proof, &encode(&q)));
    let mut trailing = encode(&p);
    trailing.push(0);
    assert!(!verify_bytes(&proof, &trailing));
}

#[test]
fn a_proof_of_the_wrong_length_is_refused() {
    let (_, bytes, proof) = balanced();
    assert!(!verify_bytes(&proof[..63], &bytes));
    let mut longer = proof.clone();
    longer.push(0);
    assert!(!verify_bytes(&longer, &bytes));
    assert!(!verify_bytes(&[], &bytes));
}

#[test]
fn a_tampered_proof_is_refused() {
    let (_, bytes, proof) = balanced();
    for at in [0usize, 31, 32, 63] {
        let mut bad = proof.clone();
        bad[at] ^= 1;
        assert!(!verify_bytes(&bad, &bytes), "byte {}", at);
    }
}

#[test]
fn encodings_that_are_no_group_elements_are_refused() {
    let (p, bytes, proof) = balanced();
    let mut bad = proof.clone();
    bad[..32].copy_from_slice(&[0xff; 32]);
    assert!(!verify_bytes(&bad, &bytes));
    let mut q = p.clone();
    q.input_commitments[0] = [0xff; 32];
    assert!(!verify_bytes(&proof, &encode(&q)));
    let mut q = p.clone();
    q.new_commitments[1] = [0xff; 32];
    assert!(!verify_bytes(&proof, &encode(&q)));
    let mut q = p;
    q.fee_commitment = [0xff; 32];
    assert!(!verify_bytes(&proof, &encode(&q)));
}

#[test]
fn public_inputs_that_do_not_decode_are_refused() {
    let (_, bytes, proof) = balanced();
    assert!(!verify_bytes(&proof, &bytes[..bytes.len() - 1]));
    assert!(!verify_bytes(&proof, &[]));
}

#[test]
fn the_schnorr_equation_is_checked_on_its_own() {
    let x = scalar(21);
    let k = scalar(34);
    let agg = x * h();
    let r = k * h();
    let hash = [3u8; 32];
    let s = k + balance_challenge(&hash, &r, &agg) * x;
    let (r, agg) = (r.compress().to_bytes(), agg.compress().to_bytes());
    assert!(check_schnorr(&hash, &r, &s.to_bytes(), &agg));
    assert!(!check_schnorr(&[4u8; 32], &r, &s.to_bytes(), &agg));
    assert!(!check_schnorr(&hash, &r, &(s + Scalar::ONE).to_bytes(), &agg));
    assert!(!check_schnorr(&hash, &agg, &s.to_bytes(), &r));
}

fn pad_scalar(pi_hash: &[u8; 32], i: u32) -> ScalarNg {
    let mut data = b"PAD_R".to_vec();
    data.extend_from_slice(pi_hash);
    data.extend_from_slice(&i.to_le_bytes());
    ScalarNg::from_bytes_mod_order_wide(&wide(&data))
}

fn prove_range(public_inputs: &[u8], values: &[u64], nbits: usize) -> (Vec<u8>, Vec<[u8; 32]>) {
    let m = values.len();
    let parties = m.next_power_of_two();
    let hash = pi_hash(public_inputs);
    let pc = PedersenGens { B: G_NG, B_blinding: h_ng() };
    let bp = BulletproofGens::new(nbits, parties);
    let mut vals = values.to_vec();
    let mut blindings: Vec<ScalarNg> =
        (0..m).map(|i| ScalarNg::from_bytes_mod_order([i as u8 + 1; 32])).collect();
    for i in 0..parties - m {
        vals.push(0);
        blindings.push(pad_scalar(&hash, i as u32));
    }
    let mut t = Transcript::new(b"NULLA_BULLETPROOF_RANGE");
    t.append_message(b"pi_hash", &hash);
    let mut rng = DeterministicRng::new([42u8; 32]);
    let (proof, commitments) =
        RangeProof::prove_multiple_with_rng(&bp, &pc, &mut t, &vals, &blindings, nbits, &mut rng)
            .unwrap();
    (proof.to_bytes(), commitments[..m].iter().map(|c| c.to_bytes()).collect())
}

#[test]
fn a_padding_commitment_commits_to_zero_under_the_derived_blinding() {
    let hash = [0x77u8; 32];
    let h_bytes = ng_generator_h();
    for i in [0u32, 1, 2, 300] {
        let expected = (pad_scalar(&hash, i) * h_ng()).compress().to_bytes();
        assert_eq!(padding_commitment(&hash, &h_bytes, i as usize), expected);
    }
    assert_ne!(
        padding_commitment(&hash, &h_bytes, 0),
        padding_commitment(&[0x78u8; 32], &h_bytes, 0)
    );
}

#[test]
fn a_range_proof_for_one_commitment_is_accepted() {
    let (proof, commitments) = prove_range(b"inputs", &[1234], 64);
    assert!(verify_range_proof(&proof, &commitments, b"inputs", 64));
}

#[test]
fn a_range_proof_for_two_commitments_is_accepted() {
    let (proof, commitments) = prove_range(b"two", &[0, u64::MAX], 64);
    assert!(verify_range_proof(&proof, &commitments, b"two", 64));
}

#[test]
fn a_range_proof_for_three_commitments_is_padded_to_four() {
    let (proof, commitments) = prove_range(b"three", &[5, 6, 7], 64);
    assert_eq!(commitments.len(), 3);
    assert!(verify_range_proof(&proof, &commitments, b"three", 64));
}

#[test]
fn a_range_proof_for_narrower_values_is_accepted_for_its_width() {
    let (proof, commitments) = prove_range(b"narrow", &[200, 100], 8);
    assert!(verify_range_proof(&proof, &commitments, b"narrow", 8));
    assert!(!verify_range_proof(&proof, &commitments, b"narrow", 16));
}

#[test]
fn a_range_proof_is_bound_to_the_public_inputs() {
    let (proof, commitments) = prove_range(b"these", &[1, 2], 64);
    assert!(!verify_range_proof(&proof, &commitments, b"those", 64));
}

#[test]
fn a_range_proof_for_other_commitments_is_refused() {
    let (proof, mut commitments) = prove_range(b"pi", &[1, 2], 64);
    commitments.swap(0, 1);
    assert!(!verify_range_proof(&proof, &commitments, b"pi", 64));
    commitments.swap(0, 1);
    commitments[0] = [0xff; 32];
    assert!(!verify_range_proof(&proof, &commitments, b"pi", 64));
    let (proof, commitments) = prove_range(b"pi", &[1, 2, 3], 64);
    assert!(!verify_range_proof(&proof, &commitments[..2], b"pi", 64));
}

#[test]
fn no_commitment_or_a_width_out_of_range_is_refused() {
    let (proof, commitments) = prove_range(b"pi", &[1], 64);
    assert!(!verify_range_proof(&proof, &[], b"pi", 64));
    assert!(!verify_range_proof(&proof, &commitments, b"pi", 0));
    assert!(!verify_range_proof(&proof, &commitments, b"pi", 65));
    assert!(!verify_range_proof(&proof, &commitments, b"pi", 63));
    assert!(verify_range_proof(&proof, &commitments, b"pi", 64));
}

#[test]
fn a_range_proof_that_does_not_parse_is_refused() {
    let (proof, commitments) = prove_range(b"pi", &[1], 64);
    assert!(!verify_range_proof(&[], &commitments, b"pi", 64));
    assert!(!verify_range_proof(&proof[..proof.len() - 1], &commitments, b"pi", 64));
    assert!(!verify_range_proof(&proof[..proof.len() - 32], &commitments, b"pi", 64));
    let mut bad = proof.clone();
    bad[40] ^= 1;
    assert!(!verify_range_proof(&bad, &commitments, b"pi", 64));
}

#[test]
fn the_verdict_on_a_range_proof_is_the_same_on_every_call() {
    let (proof, commitments) = prove_range(b"again", &[3, 4, 5], 64);
    let mut bad = proof.clone();
    let last = bad.len() - 1;
    bad[last] ^= 1;
    for _ in 0..3 {
        assert!(verify_range_proof(&proof, &commitments, b"again", 64));
        assert!(!verify_range_proof(&bad, &commitments, b"again", 64));
    }
}
