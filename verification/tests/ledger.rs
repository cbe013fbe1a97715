use parity_scale_codec::Encode;
use proofhub::accumulator::{MAX_LEAVES, ROOT_WINDOW};
use proofhub::error::Error;
use proofhub::events::{fee_payout_event, Event};
use proofhub::inputs::ProofPublicInputs;
use proofhub::merkle::{compute_merkle_root, hash2, leaf_hash};
use proofhub::admission::Rejection;
use proofhub::pallet::{Config, GenesisConfig, Pallet, ProofVerify};
use proofhub::validity::{InvalidTransaction, ValidTransaction};

/// A verifier that accepts everything.
struct Accept;

impl ProofVerify for Accept {
    fn verify(_: &[u8], _: &[u8]) -> bool {
        true
    }
    fn pedersen_check_u64(_: u64, _: [u8; 32], _: [u8; 32]) -> bool {
        true
    }
    fn verify_range_proof(_: &[u8], _: &[[u8; 32]], _: &[u8], _: u32) -> bool {
        true
    }
}

/// A verifier that accepts a range proof only when it is the byte 1 and is
/// asked for 64 bits over the outputs followed by the fee commitment, a
/// balance proof only when it is the byte 1, and an opening only of the amount
/// held in the first eight bytes of the blinding.
struct Picky;

impl ProofVerify for Picky {
    fn verify(proof: &[u8], _: &[u8]) -> bool {
        proof == [1]
    }
    fn pedersen_check_u64(value: u64, blinding: [u8; 32], _: [u8; 32]) -> bool {
        let mut eight = [0u8; 8];
        eight.copy_from_slice(&blinding[..8]);
        value == u64::from_le_bytes(eight)
    }
    fn verify_range_proof(proof: &[u8], commitments: &[[u8; 32]], pi: &[u8], nbits: u32) -> bool {
        let inputs = ProofPublicInputs::decode(pi).unwrap();
        let mut expected = inputs.new_commitments.clone();
        expected.push(inputs.fee_commitment);
        proof == [1] && nbits == 64 && commitments == &expected[..]
    }
}

const FAUCET: [u8; 32] = [0xfa; 32];
const FEE: [u8; 32] = [0xfe; 32];

fn config() -> Config {
    Config {
        max_proof_size: 64,
        max_range_proof_size: 1024,
        max_outputs: 16,
        base_fee: 1001,
        genesis_commitments: vec![FAUCET],
    }
}

fn genesis() -> Pallet {
    GenesisConfig::default().build(config())
}

fn tx(p: &Pallet) -> ProofPublicInputs {
    ProofPublicInputs {
        merkle_root: p.accumulator().current_root(),
        new_merkle_root: [0u8; 32],
        input_commitments: vec![FAUCET],
        input_indices: vec![0],
        input_paths: vec![],
        nullifiers: vec![[0x01; 32]],
        new_commitments: vec![[0xc1; 32]],
        fee_commitment: FEE,
        fee_nullifier: [0x0f; 32],
        tx_id: [0x1d; 16],
    }
}

fn encode(p: &ProofPublicInputs) -> Vec<u8> {
    (
        p.merkle_root,
        p.new_merkle_root,
        p.input_commitments.clone(),
        p.input_indices.clone(),
        p.input_paths.clone(),
        p.nullifiers.clone(),
        p.new_commitments.clone(),
        p.fee_commitment,
        p.fee_nullifier,
        p.tx_id,
    )
        .encode()
}

fn submit(p: &mut Pallet, inputs: &ProofPublicInputs) -> (Result<(), Error>, Vec<Event>) {
    let out = p.submit_proof::<Accept>(&[1], &[1], &encode(inputs), vec![9, 9]);
    (out.result, out.events)
}

fn deposit(p: &mut Pallet, commitment: [u8; 32]) -> Result<(), Error> {
    p.deposit_public::<Accept>(&commitment, 5, &[0u8; 32], vec![]).result
}

fn validate(p: &Pallet, inputs: &ProofPublicInputs) -> Result<ValidTransaction, InvalidTransaction> {
    p.validate_unsigned(&[1], &[1], &encode(inputs))
}

/// What can be seen of a ledger from outside.
fn snapshot(p: &Pallet) -> (Vec<[u8; 32]>, [u8; 32], Vec<[u8; 32]>, Vec<bool>, Vec<Option<u32>>) {
    let probes = [FAUCET, FEE, [0x01; 32], [0x0f; 32], [0xc1; 32], [0xd0; 32]];
    let mut flags = Vec::new();
    let mut indices = Vec::new();
    for k in probes.iter() {
        flags.push(p.registry().is_nullifier_used(k));
        flags.push(p.registry().is_fee_nullifier_used(k));
        flags.push(p.registry().is_faucet(k));
        flags.push(p.registry().is_fee_escrowed(k));
        indices.push(p.registry().commitment_index(k));
    }
    (
        p.accumulator().leaves().clone(),
        p.accumulator().current_root(),
        p.accumulator().recent_roots().clone(),
        flags,
        indices,
    )
}

#[test]
fn genesis_has_no_leaves_the_zero_root_and_the_faucet_commitments() {
    let p = genesis();
    assert!(p.genesis_initialized());
    assert_eq!(p.accumulator().len(), 0);
    assert_eq!(p.accumulator().current_root(), [0u8; 32]);
    assert!(p.accumulator().recent_roots().is_empty());
    assert_eq!(p.accumulator().leaf_count_at(&[0u8; 32]), 0);
    assert!(p.registry().is_faucet(&FAUCET));
    assert!(!p.registry().is_faucet(&FEE));
    assert!(!p.registry().is_fee_escrowed(&FEE));
    assert_eq!(p.config().max_outputs, 16);
}

#[test]
fn on_initialize_seeds_the_faucet_again_and_changes_nothing_else() {
    let mut p = genesis();
    p.deposit_fee(FEE);
    deposit(&mut p, [0xd0; 32]).unwrap();
    let before = snapshot(&p);
    p.on_initialize();
    p.on_initialize();
    assert_eq!(snapshot(&p), before);
    assert!(p.registry().is_faucet(&FAUCET));
    assert!(p.genesis_initialized());
}

#[test]
fn deposit_fee_escrows_the_commitment() {
    let mut p = genesis();
    let out = p.deposit_fee(FEE);
    assert_eq!(out.result, Ok(()));
    assert_eq!(out.events, vec![Event::FeeDeposited { commitment: FEE }]);
    assert!(p.registry().is_fee_escrowed(&FEE));
    assert!(!p.registry().is_fee_escrowed(&FAUCET));
    assert_eq!(p.accumulator().len(), 0);
}

#[test]
fn the_author_gets_what_is_left_of_the_fee_after_half_is_burned() {
    let p = genesis();
    assert_eq!(p.author_payout(), 501);
    for (fee, payout) in [(0u128, 0u128), (1, 1), (2, 1), (1000, 500), (u128::MAX, (u128::MAX / 2) + 1)] {
        let q = GenesisConfig::default().build(Config { base_fee: fee, ..config() });
        assert_eq!(q.author_payout(), payout);
    }
}

#[test]
fn the_payout_is_reported_as_paid_or_failed() {
    assert_eq!(fee_payout_event(vec![1, 2], 7, true), Event::FeePaid { author: vec![1, 2], amount: 7 });
    assert_eq!(
        fee_payout_event(vec![1, 2], 7, false),
        Event::FeePayoutFailed { author: vec![1, 2], amount: 7 }
    );
}

#[test]
fn a_deposit_appends_a_leaf_and_advances_the_root() {
    let mut p = genesis();
    let c = [0xd0; 32];
    let out = p.deposit_public::<Accept>(&c, 5, &[0u8; 32], vec![7]);
    let root = compute_merkle_root(&[leaf_hash(c)]);
    assert_eq!(out.result, Ok(()));
    assert_eq!(
        out.events,
        vec![Event::DepositAccepted { commitment: c, amount: 5, new_merkle_root: root, hints_blob: vec![7] }]
    );
    assert_eq!(p.accumulator().leaves(), &vec![leaf_hash(c)]);
    assert_eq!(p.accumulator().current_root(), root);
    assert_eq!(p.accumulator().recent_roots(), &vec![[0u8; 32]]);
    assert_eq!(p.accumulator().leaf_count_at(&root), 1);
    assert_eq!(p.accumulator().leaf_count_at(&[0u8; 32]), 0);
    assert_eq!(p.accumulator().leaf_count_at(&[5u8; 32]), 0);
    assert_eq!(p.registry().commitment_index(&c), Some(0));

    let d = [0xd1; 32];
    assert_eq!(deposit(&mut p, d), Ok(()));
    assert_eq!(p.registry().commitment_index(&d), Some(1));
    assert_eq!(p.registry().commitment_index(&c), Some(0));
    assert_eq!(p.accumulator().current_root(), hash2(leaf_hash(c), leaf_hash(d)));
    assert_eq!(p.accumulator().recent_roots(), &vec![[0u8; 32], root]);
    assert_eq!(p.accumulator().compute_root(), p.accumulator().current_root());
}

#[test]
fn a_deposit_of_more_than_64_bits_counts_as_the_largest_value() {
    let mut p = genesis();
    let c = [0xd0; 32];
    let out = p.deposit_public::<Picky>(&c, u128::MAX, &[0xff; 32], vec![]);
    assert_eq!(out.result, Ok(()));
    match &out.events[0] {
        Event::DepositAccepted { amount, .. } => assert_eq!(*amount, u64::MAX),
        other => panic!("unexpected event {:?}", other),
    }
    let mut nine = [0u8; 32];
    nine[0] = 9;
    assert_eq!(Pallet::check_deposit::<Picky>(&c, 9, &nine), Ok(()));
    assert_eq!(Pallet::check_deposit::<Picky>(&c, 10, &nine), Err(Error::ProofVerificationFailed));
    assert_eq!(
        Pallet::check_deposit::<Picky>(&c, (1u128 << 64) + 9, &nine),
        Err(Error::ProofVerificationFailed)
    );
}

#[test]
fn a_deposit_that_does_not_open_or_has_the_wrong_lengths_is_refused() {
    let mut p = genesis();
    let before = snapshot(&p);
    let c = [0xd0; 32];
    let refused = Err(Error::ProofVerificationFailed);
    assert_eq!(p.deposit_public::<Picky>(&c, 5, &[0u8; 32], vec![]).result, refused);
    assert_eq!(p.deposit_public::<Accept>(&c[..31], 5, &[0u8; 32], vec![]).result, refused);
    assert_eq!(p.deposit_public::<Accept>(&c, 5, &[0u8; 33], vec![]).result, refused);
    assert_eq!(p.deposit_public::<Accept>(&[], 5, &[], vec![]).result, refused);
    assert_eq!(Pallet::check_deposit::<Accept>(&c[..31], 5, &[0u8; 32]), refused);
    assert_eq!(Pallet::check_deposit::<Accept>(&c, 5, &[0u8; 32]), Ok(()));
    assert!(p.deposit_public::<Picky>(&c, 5, &[0u8; 32], vec![]).events.is_empty());
    assert_eq!(snapshot(&p), before);
}

#[test]
fn a_commitment_is_deposited_once() {
    let mut p = genesis();
    deposit(&mut p, [0xd0; 32]).unwrap();
    let before = snapshot(&p);
    assert_eq!(deposit(&mut p, [0xd0; 32]), Err(Error::ProofVerificationFailed));
    assert_eq!(snapshot(&p), before);
}

#[test]
fn a_faucet_spend_is_applied() {
    let mut p = genesis();
    p.deposit_fee(FEE);
    let inputs = tx(&p);
    let (result, events) = submit(&mut p, &inputs);
    let root = compute_merkle_root(&[leaf_hash([0xc1; 32])]);
    assert_eq!(result, Ok(()));
    assert_eq!(
        events,
        vec![
            Event::RangeProofVerified,
            Event::ProofAccepted {
                tx_id: [0x1d; 16],
                new_merkle_root: root,
                outputs: vec![[0xc1; 32]],
                hints_blob: vec![9, 9],
            },
        ]
    );
    assert!(p.registry().is_nullifier_used(&[0x01; 32]));
    assert!(!p.registry().is_nullifier_used(&[0x0f; 32]));
    assert!(p.registry().is_fee_nullifier_used(&[0x0f; 32]));
    assert!(!p.registry().is_fee_nullifier_used(&[0x01; 32]));
    assert!(!p.registry().is_fee_escrowed(&FEE));
    assert!(p.registry().is_faucet(&FAUCET));
    assert_eq!(p.registry().commitment_index(&[0xc1; 32]), Some(0));
    assert_eq!(p.accumulator().leaves(), &vec![leaf_hash([0xc1; 32])]);
    assert_eq!(p.accumulator().current_root(), root);
    assert_eq!(p.accumulator().recent_roots(), &vec![[0u8; 32]]);
    assert_eq!(p.accumulator().leaf_count_at(&root), 1);
}

#[test]
fn the_same_transaction_is_refused_the_second_time() {
    let mut p = genesis();
    p.deposit_fee(FEE);
    let inputs = tx(&p);
    assert_eq!(submit(&mut p, &inputs).0, Ok(()));
    let before = snapshot(&p);
    let (result, events) = submit(&mut p, &inputs);
    assert_eq!(result, Err(Error::NullifierAlreadyUsed));
    assert!(events.is_empty());
    assert_eq!(snapshot(&p), before);
    assert_eq!(validate(&p, &inputs), Err(InvalidTransaction::Stale));
}

#[test]
fn a_used_nullifier_is_refused_in_every_later_transaction() {
    let mut p = genesis();
    p.deposit_fee(FEE);
    let first = tx(&p);
    assert_eq!(submit(&mut p, &first).0, Ok(()));
    p.deposit_fee([0xfd; 32]);
    for position in 0..3 {
        let mut later = tx(&p);
        later.fee_commitment = [0xfd; 32];
        later.fee_nullifier = [0x0e; 32];
        later.new_commitments = vec![[0xc2; 32]];
        later.input_commitments = vec![FAUCET; 3];
        later.input_indices = vec![0; 3];
        later.nullifiers = vec![[0x21; 32], [0x22; 32], [0x23; 32]];
        later.nullifiers[position] = [0x01; 32];
        assert_eq!(validate(&p, &later), Err(InvalidTransaction::Stale));
        assert_eq!(submit(&mut p, &later).0, Err(Error::NullifierAlreadyUsed));
        assert_eq!(p.precheck(1, 1, &encode(&later)), Err(Rejection::NullifierUsed));
    }
    let mut fresh = tx(&p);
    fresh.fee_commitment = [0xfd; 32];
    fresh.nullifiers = vec![[0x21; 32]];
    fresh.new_commitments = vec![[0xc2; 32]];
    assert_eq!(submit(&mut p, &fresh).0, Err(Error::FeeNullifierAlreadyUsed));
    assert_eq!(validate(&p, &fresh), Err(InvalidTransaction::Stale));
    fresh.fee_nullifier = [0x0e; 32];
    assert_eq!(submit(&mut p, &fresh).0, Ok(()));
    assert!(p.registry().is_nullifier_used(&[0x01; 32]));
}

#[test]
fn an_admitted_transaction_is_tagged_with_its_id_and_nullifiers() {
    let p = genesis();
    let mut inputs = tx(&p);
    inputs.input_commitments = vec![FAUCET, FAUCET];
    inputs.input_indices = vec![0, 0];
    inputs.nullifiers = vec![[0x01; 32], [0x02; 32]];
    let valid = validate(&p, &inputs).unwrap();
    assert_eq!(valid.priority, 100);
    assert_eq!(valid.longevity, 64);
    assert!(valid.propagate);
    assert_eq!(
        valid.provides,
        vec![vec![0x1d; 16], vec![0x0f; 32], vec![0x01; 32], vec![0x02; 32]]
    );
    // Admission reads the ledger only: no escrow is asked for, no proof is looked at.
    assert!(p.validate_unsigned(&[0], &[0], &encode(&inputs)).is_ok());
}

#[test]
fn the_admission_checks_come_in_their_order() {
    let mut p = genesis();
    p.deposit_fee(FEE);
    let good = tx(&p);
    let big = vec![0u8; 65];
    let huge = vec![0u8; 1025];

    // Malformed inputs come first, before the size limits.
    let pi = encode(&good);
    assert_eq!(p.validate_unsigned(&big, &huge, &pi[..pi.len() - 1]), Err(InvalidTransaction::Call));
    assert_eq!(p.precheck(65, 1025, &pi[..pi.len() - 1]), Err(Rejection::Malformed));
    // Then the sizes, the proof before the range proof, before the anchor.
    let mut stale = good.clone();
    stale.merkle_root = [0x99; 32];
    stale.nullifiers = vec![];
    let pi = encode(&stale);
    assert_eq!(p.validate_unsigned(&big, &huge, &pi), Err(InvalidTransaction::ExhaustsResources));
    assert_eq!(p.precheck(65, 1025, &pi), Err(Rejection::ProofTooLarge));
    assert_eq!(p.precheck(64, 1025, &pi), Err(Rejection::RangeProofTooLarge));
    assert_eq!(p.validate_unsigned(&big[..64], &huge, &pi), Err(InvalidTransaction::ExhaustsResources));
    // Then the anchor, before the shape.
    assert_eq!(p.precheck(64, 1024, &pi), Err(Rejection::StaleAnchor));
    assert_eq!(validate(&p, &stale), Err(InvalidTransaction::Stale));
    // Then the shape, before the collisions.
    let mut shape = good.clone();
    shape.nullifiers = vec![[0x0f; 32], [0x0f; 32]];
    assert_eq!(p.precheck(1, 1, &encode(&shape)), Err(Rejection::ShapeMismatch));
    assert_eq!(validate(&p, &shape), Err(InvalidTransaction::BadMandatory));
    let mut shape = good.clone();
    shape.input_indices = vec![];
    assert_eq!(p.precheck(1, 1, &encode(&shape)), Err(Rejection::ShapeMismatch));
    // Then the collisions, before the used nullifiers.
    assert_eq!(submit(&mut p, &good).0, Ok(()));
    let mut collide = tx(&p);
    collide.input_commitments = vec![FAUCET, FAUCET];
    collide.input_indices = vec![0, 0];
    collide.nullifiers = vec![[0x01; 32], [0x01; 32]];
    assert_eq!(p.precheck(1, 1, &encode(&collide)), Err(Rejection::NullifierCollision));
    assert_eq!(validate(&p, &collide), Err(InvalidTransaction::BadMandatory));
    collide.nullifiers = vec![[0x01; 32], [0x0f; 32]];
    assert_eq!(p.precheck(1, 1, &encode(&collide)), Err(Rejection::NullifierCollision));
    // Then the input nullifiers, before the fee nullifier.
    collide.nullifiers = vec![[0x02; 32], [0x01; 32]];
    assert_eq!(p.precheck(1, 1, &encode(&collide)), Err(Rejection::NullifierUsed));
    collide.nullifiers = vec![[0x02; 32], [0x03; 32]];
    assert_eq!(p.precheck(1, 1, &encode(&collide)), Err(Rejection::FeeNullifierUsed));
    collide.fee_nullifier = [0x0e; 32];
    assert_eq!(p.precheck(1, 1, &encode(&collide)), Ok(collide.clone()));
}

#[test]
fn rejections_are_reported_to_the_pool_and_by_dispatch() {
    let (call, stale) = (InvalidTransaction::Call, InvalidTransaction::Stale);
    let (bad, exhausts) = (InvalidTransaction::BadMandatory, InvalidTransaction::ExhaustsResources);
    let table = [
        (Rejection::Malformed, call, Error::ProofVerificationFailed),
        (Rejection::ProofTooLarge, exhausts, Error::ProofTooLarge),
        (Rejection::RangeProofTooLarge, exhausts, Error::RangeProofTooLarge),
        (Rejection::StaleAnchor, stale, Error::ProofVerificationFailed),
        (Rejection::ShapeMismatch, bad, Error::ProofVerificationFailed),
        (Rejection::NullifierCollision, bad, Error::ProofVerificationFailed),
        (Rejection::NullifierUsed, stale, Error::NullifierAlreadyUsed),
        (Rejection::FeeNullifierUsed, stale, Error::FeeNullifierAlreadyUsed),
    ];
    for (rejection, reason, error) in table {
        assert_eq!(rejection.to_pool_reason(), reason);
        assert_eq!(rejection.to_dispatch_error(), error);
    }
}

#[test]
fn dispatch_runs_the_admission_checks_again() {
    let mut p = genesis();
    p.deposit_fee(FEE);
    let good = tx(&p);
    let pi = encode(&good);
    let before = snapshot(&p);
    let refused = Err(Error::ProofVerificationFailed);
    assert_eq!(p.submit_proof::<Accept>(&[1], &[1], &pi[..40], vec![]).result, refused);
    assert_eq!(p.submit_proof::<Accept>(&[0; 65], &[1], &pi, vec![]).result, Err(Error::ProofTooLarge));
    assert_eq!(
        p.submit_proof::<Accept>(&[1], &[0; 1025], &pi, vec![]).result,
        Err(Error::RangeProofTooLarge)
    );
    let mut bad = good.clone();
    bad.merkle_root = [0x99; 32];
    assert_eq!(submit(&mut p, &bad).0, refused);
    let mut bad = good.clone();
    bad.input_indices = vec![0, 1];
    assert_eq!(submit(&mut p, &bad).0, refused);
    let mut bad = good.clone();
    bad.nullifiers = vec![bad.fee_nullifier];
    assert_eq!(submit(&mut p, &bad), (refused, vec![]));
    assert_eq!(snapshot(&p), before);
    assert_eq!(submit(&mut p, &good).0, Ok(()));
}

#[test]
fn the_proofs_are_verified_and_their_failures_reported() {
    let mut p = genesis();
    p.deposit_fee(FEE);
    let pi = encode(&tx(&p));
    let before = snapshot(&p);
    let refused = Err(Error::ProofVerificationFailed);

    let out = p.submit_proof::<Picky>(&[1], &[0], &pi, vec![]);
    assert_eq!((out.result, out.events), (refused, vec![]));
    let out = p.submit_proof::<Picky>(&[0], &[1], &pi, vec![]);
    assert_eq!(out.result, refused);
    assert_eq!(out.events, vec![Event::RangeProofVerified, Event::ProofRejected]);
    assert_eq!(snapshot(&p), before);

    let out = p.submit_proof::<Picky>(&[1], &[1], &pi, vec![]);
    assert_eq!(out.result, Ok(()));
    assert_eq!(out.events.len(), 2);
}

#[test]
fn more_outputs_than_allowed_are_refused() {
    let mut p = genesis();
    p.deposit_fee(FEE);
    let mut inputs = tx(&p);
    inputs.new_commitments = (0..17u8).map(|i| [i; 32]).collect();
    assert_eq!(submit(&mut p, &inputs), (Err(Error::ProofVerificationFailed), vec![]));
    inputs.new_commitments.pop();
    assert_eq!(submit(&mut p, &inputs).0, Ok(()));
    assert_eq!(p.accumulator().len(), 16);
    assert_eq!(p.registry().commitment_index(&[15; 32]), Some(15));
}

#[test]
fn an_input_must_be_included_under_the_anchor() {
    let mut p = genesis();
    let (a, b, c) = ([0xa1; 32], [0xa2; 32], [0xa3; 32]);
    deposit(&mut p, a).unwrap();
    deposit(&mut p, b).unwrap();
    let two = p.accumulator().current_root();
    deposit(&mut p, c).unwrap();
    let three = p.accumulator().current_root();
    let refused = Err(Error::ProofVerificationFailed);
    let spend = |p: &mut Pallet, anchor, commitment, index: u32, path: Vec<[u8; 32]>, n: u8| {
        p.deposit_fee(FEE);
        let mut inputs = tx(p);
        inputs.merkle_root = anchor;
        inputs.input_commitments = vec![commitment];
        inputs.input_indices = vec![index];
        inputs.input_paths = vec![path];
        inputs.nullifiers = vec![[n; 32]];
        inputs.new_commitments = vec![[n; 32]];
        inputs.fee_nullifier = [n + 100; 32];
        submit(p, &inputs)
    };

    // Without a path: the commitment must be indexed below the anchor's leaf count.
    assert_eq!(spend(&mut p, two, c, 2, vec![], 1), (refused, vec![Event::RangeProofVerified]));
    assert_eq!(spend(&mut p, two, [0xa4; 32], 0, vec![], 1).0, refused);
    assert_eq!(spend(&mut p, two, b, 1, vec![], 1).0, Ok(()));
    assert_eq!(spend(&mut p, three, c, 2, vec![], 2).0, Ok(()));

    // With a path: the leaf must open to the anchor along it.
    let zero = [0u8; 32];
    let path_of_c = vec![zero, hash2(leaf_hash(a), leaf_hash(b))];
    assert_eq!(spend(&mut p, three, c, 3, path_of_c.clone(), 3).0, refused);
    assert_eq!(spend(&mut p, three, a, 2, path_of_c.clone(), 3).0, refused);
    assert_eq!(spend(&mut p, two, c, 2, path_of_c.clone(), 3).0, refused);
    assert_eq!(spend(&mut p, three, c, 2, path_of_c, 3).0, Ok(()));
    // A commitment that was never appended opens to no root.
    assert_eq!(spend(&mut p, three, [0xa4; 32], 0, vec![leaf_hash(b), zero], 4).0, refused);
}

#[test]
fn the_fee_escrow_is_needed_and_consumed_once() {
    let mut p = genesis();
    let inputs = tx(&p);
    let refused = Err(Error::ProofVerificationFailed);
    assert_eq!(submit(&mut p, &inputs), (refused, vec![Event::RangeProofVerified]));
    p.deposit_fee(FEE);
    assert_eq!(submit(&mut p, &inputs).0, Ok(()));
    let mut again = tx(&p);
    again.nullifiers = vec![[0x02; 32]];
    again.fee_nullifier = [0x0e; 32];
    again.new_commitments = vec![[0xc2; 32]];
    assert_eq!(submit(&mut p, &again).0, refused);
    p.deposit_fee(FEE);
    assert_eq!(submit(&mut p, &again).0, Ok(()));
}

#[test]
fn outputs_must_be_new_and_distinct() {
    let mut p = genesis();
    deposit(&mut p, [0xd0; 32]).unwrap();
    p.deposit_fee(FEE);
    let before = snapshot(&p);
    let refused = Err(Error::ProofVerificationFailed);
    let mut inputs = tx(&p);
    inputs.new_commitments = vec![[0xc1; 32], [0xc2; 32], [0xc1; 32]];
    assert_eq!(submit(&mut p, &inputs).0, refused);
    inputs.new_commitments = vec![[0xc1; 32], [0xd0; 32]];
    assert_eq!(submit(&mut p, &inputs).0, refused);
    assert_eq!(snapshot(&p), before);
    inputs.new_commitments = vec![[0xc1; 32], [0xc2; 32]];
    assert_eq!(submit(&mut p, &inputs).0, Ok(()));
    assert_eq!(p.registry().commitment_index(&[0xc1; 32]), Some(1));
    assert_eq!(p.registry().commitment_index(&[0xc2; 32]), Some(2));
    assert_eq!(
        p.accumulator().leaves(),
        &vec![leaf_hash([0xd0; 32]), leaf_hash([0xc1; 32]), leaf_hash([0xc2; 32])]
    );
}

#[test]
fn a_claimed_new_root_must_be_the_new_root() {
    let mut p = genesis();
    deposit(&mut p, [0xd0; 32]).unwrap();
    p.deposit_fee(FEE);
    let before = snapshot(&p);
    let mut inputs = tx(&p);
    inputs.new_merkle_root = [0x77; 32];
    assert_eq!(submit(&mut p, &inputs), (Err(Error::ProofVerificationFailed), vec![Event::RangeProofVerified]));
    assert_eq!(snapshot(&p), before);
    inputs.new_merkle_root = hash2(leaf_hash([0xd0; 32]), leaf_hash([0xc1; 32]));
    assert_eq!(submit(&mut p, &inputs).0, Ok(()));
    assert_eq!(p.accumulator().current_root(), inputs.new_merkle_root);
}

#[test]
fn a_transaction_without_outputs_still_advances_the_root() {
    let mut p = genesis();
    deposit(&mut p, [0xd0; 32]).unwrap();
    p.deposit_fee(FEE);
    let root = p.accumulator().current_root();
    let mut inputs = tx(&p);
    inputs.new_commitments = vec![];
    assert_eq!(submit(&mut p, &inputs).0, Ok(()));
    assert_eq!(p.accumulator().current_root(), root);
    assert_eq!(p.accumulator().recent_roots(), &vec![[0u8; 32], root]);
    assert_eq!(p.accumulator().len(), 1);
}

#[test]
fn an_anchor_stays_valid_for_64_advances_and_not_one_more() {
    let mut p = genesis();
    deposit(&mut p, [0xd0; 32]).unwrap();
    let anchor = p.accumulator().current_root();
    let mut spend = tx(&p);
    spend.merkle_root = anchor;
    for i in 0..ROOT_WINDOW as u8 {
        deposit(&mut p, [i; 32]).unwrap();
        assert!(p.accumulator().recent_roots().len() <= ROOT_WINDOW);
    }
    assert_eq!(p.accumulator().recent_roots().len(), ROOT_WINDOW);
    assert_eq!(p.accumulator().recent_roots()[0], anchor);
    assert!(p.accumulator().anchor_is_valid(&anchor));
    assert!(validate(&p, &spend).is_ok());

    deposit(&mut p, [0xee; 32]).unwrap();
    assert_eq!(p.accumulator().recent_roots().len(), ROOT_WINDOW);
    assert!(!p.accumulator().anchor_is_valid(&anchor));
    assert!(!p.accumulator().recent_roots().contains(&anchor));
    assert_eq!(validate(&p, &spend), Err(InvalidTransaction::Stale));
    p.deposit_fee(FEE);
    let before = snapshot(&p);
    assert_eq!(submit(&mut p, &spend), (Err(Error::ProofVerificationFailed), vec![]));
    assert_eq!(snapshot(&p), before);
    // The leaf count recorded for the evicted root is still there.
    assert_eq!(p.accumulator().leaf_count_at(&anchor), 1);
}

fn fill(p: &mut Pallet, count: usize) {
    p.deposit_fee(FEE);
    let mut inputs = tx(p);
    inputs.input_commitments = vec![];
    inputs.input_indices = vec![];
    inputs.nullifiers = vec![];
    inputs.new_commitments = (0..count)
        .map(|i| {
            let mut c = [0x10u8; 32];
            c[0] = (i % 256) as u8;
            c[1] = (i / 256) as u8;
            c
        })
        .collect();
    assert_eq!(submit(p, &inputs).0, Ok(()));
}

#[test]
fn a_full_accumulator_takes_no_more_leaves() {
    let mut p = GenesisConfig::default().build(Config { max_outputs: 20000, ..config() });
    fill(&mut p, MAX_LEAVES - 1);
    assert_eq!(p.accumulator().len(), MAX_LEAVES - 1);

    // Two more do not fit, one does.
    p.deposit_fee(FEE);
    let mut two = tx(&p);
    two.fee_nullifier = [0x0e; 32];
    two.new_commitments = vec![[0xc1; 32], [0xc2; 32]];
    let before = snapshot(&p);
    assert_eq!(submit(&mut p, &two), (Err(Error::CapacityExceeded), vec![Event::RangeProofVerified]));
    assert_eq!(snapshot(&p), before);
    assert_eq!(deposit(&mut p, [0xd0; 32]), Ok(()));
    assert_eq!(p.accumulator().len(), MAX_LEAVES);
    assert_eq!(p.registry().commitment_index(&[0xd0; 32]), Some(MAX_LEAVES as u32 - 1));

    // Now nothing fits.
    let before = snapshot(&p);
    let out = p.deposit_public::<Accept>(&[0xd1; 32], 5, &[0u8; 32], vec![]);
    assert_eq!((out.result, out.events), (Err(Error::CapacityExceeded), vec![]));
    let mut one = two.clone();
    one.merkle_root = p.accumulator().current_root();
    one.new_commitments = vec![[0xc1; 32]];
    assert_eq!(submit(&mut p, &one).0, Err(Error::CapacityExceeded));
    assert_eq!(snapshot(&p), before);
    assert_eq!(p.accumulator().len(), MAX_LEAVES);

    // A transaction without outputs still goes through.
    one.new_commitments = vec![];
    assert_eq!(submit(&mut p, &one).0, Ok(()));
}

#[test]
fn errors_have_their_texts() {
    assert_eq!(Error::ProofVerificationFailed.message(), "proof verification failed");
    assert_eq!(Error::NullifierAlreadyUsed.message(), "nullifier already used");
    assert_eq!(Error::FeeNullifierAlreadyUsed.message(), "fee nullifier already used");
    assert_eq!(Error::ProofTooLarge.message(), "proof too large");
    assert_eq!(Error::RangeProofTooLarge.message(), "range proof too large");
    assert_eq!(Error::CapacityExceeded.message(), "accumulator capacity exceeded");
}

#[test]
fn settling_goes_by_the_verdicts_it_is_given() {
    let mut p = genesis();
    p.deposit_fee(FEE);
    let pi = encode(&tx(&p));
    let before = snapshot(&p);
    let refused = Err(Error::ProofVerificationFailed);

    for balance_ok in [false, true] {
        let out = p.settle(1, 1, &pi, false, balance_ok, vec![]);
        assert_eq!((out.result, out.events), (refused, vec![]));
    }
    let out = p.settle(1, 1, &pi, true, false, vec![]);
    assert_eq!(out.result, refused);
    assert_eq!(out.events, vec![Event::RangeProofVerified, Event::ProofRejected]);
    // The admission sequence comes before the verdicts.
    let out = p.settle(65, 1, &pi, true, true, vec![]);
    assert_eq!((out.result, out.events), (Err(Error::ProofTooLarge), vec![]));
    let out = p.settle(1, 1025, &pi, false, false, vec![]);
    assert_eq!(out.result, Err(Error::RangeProofTooLarge));
    assert_eq!(snapshot(&p), before);

    let out = p.settle(64, 1024, &pi, true, true, vec![4]);
    assert_eq!(out.result, Ok(()));
    assert_eq!(out.events.len(), 2);
    assert!(p.registry().is_nullifier_used(&[0x01; 32]));
    let out = p.settle(64, 1024, &pi, true, true, vec![4]);
    assert_eq!((out.result, out.events), (Err(Error::NullifierAlreadyUsed), vec![]));
}

#[test]
fn a_verifier_is_not_asked_about_a_transaction_that_fails_admission() {
    struct Unreachable;
    impl ProofVerify for Unreachable {
        fn verify(_: &[u8], _: &[u8]) -> bool {
            panic!("the balance proof was looked at")
        }
        fn pedersen_check_u64(_: u64, _: [u8; 32], _: [u8; 32]) -> bool {
            panic!("the opening was looked at")
        }
        fn verify_range_proof(_: &[u8], _: &[[u8; 32]], _: &[u8], _: u32) -> bool {
            panic!("the range proof was looked at")
        }
    }
    let mut p = genesis();
    p.deposit_fee(FEE);
    let mut stale = tx(&p);
    stale.merkle_root = [0x99; 32];
    let refused = Err(Error::ProofVerificationFailed);
    assert_eq!(p.submit_proof::<Unreachable>(&[1], &[1], &encode(&stale), vec![]).result, refused);
    assert_eq!(p.submit_proof::<Unreachable>(&[1], &[1], &[], vec![]).result, refused);
    let mut many = tx(&p);
    many.new_commitments = (0..17u8).map(|i| [i; 32]).collect();
    assert_eq!(p.submit_proof::<Unreachable>(&[1], &[1], &encode(&many), vec![]).result, refused);
    assert_eq!(p.deposit_public::<Unreachable>(&[1; 31], 1, &[0; 32], vec![]).result, refused);
    assert_eq!(Pallet::check_deposit::<Unreachable>(&[1; 32], 1, &[0; 31]), refused);
}

#[test]
fn a_range_proof_that_fails_ends_the_verification() {
    struct RangeOnly;
    impl ProofVerify for RangeOnly {
        fn verify(_: &[u8], _: &[u8]) -> bool {
            panic!("the balance proof was looked at")
        }
        fn pedersen_check_u64(_: u64, _: [u8; 32], _: [u8; 32]) -> bool {
            false
        }
        fn verify_range_proof(_: &[u8], _: &[[u8; 32]], _: &[u8], _: u32) -> bool {
            false
        }
    }
    let mut p = genesis();
    p.deposit_fee(FEE);
    let pi = encode(&tx(&p));
    let out = p.submit_proof::<RangeOnly>(&[1], &[1], &pi, vec![]);
    assert_eq!((out.result, out.events), (Err(Error::ProofVerificationFailed), vec![]));
}

#[test]
fn placing_a_deposit_goes_by_the_opening_it_is_given() {
    let mut p = genesis();
    let c = [0xd0; 32];
    let before = snapshot(&p);
    for error in [Error::ProofVerificationFailed, Error::ProofTooLarge] {
        let out = p.place_deposit(&c, 5, Err(error), vec![]);
        assert_eq!((out.result, out.events), (Err(error), vec![]));
    }
    let out = p.place_deposit(&c[..31], 5, Ok(()), vec![]);
    assert_eq!(out.result, Err(Error::ProofVerificationFailed));
    assert_eq!(snapshot(&p), before);
    let out = p.place_deposit(&c, 1 << 70, Ok(()), vec![8]);
    assert_eq!(out.result, Ok(()));
    assert_eq!(
        out.events,
        vec![Event::DepositAccepted {
            commitment: c,
            amount: u64::MAX,
            new_merkle_root: leaf_hash(c),
            hints_blob: vec![8],
        }]
    );
    assert_eq!(p.place_deposit(&c, 5, Ok(()), vec![]).result, Err(Error::ProofVerificationFailed));
}
