//! Laws of the ledger: what holds of every state and every transaction.

use vstd::prelude::*;
use crate::accumulator::{lemma_window_push, MAX_LEAVES};
use crate::dispatch::lemma_index_of_unique;
use crate::error::Error;
use crate::inputs::{decode_inputs, PublicInputs};
use crate::merkle::{leaf_digest, lemma_path_opens, merkle_path, merkle_root, path_root};
use crate::admission::{any_used, PalletState, Rejection};
use crate::pallet::{Config, ProofVerify};
use crate::validity::{InvalidTransaction, ValidTransactionView};

verus! {

/// A used nullifier is refused: a transaction that has a used nullifier among
/// its nullifiers fails the admission sequence, so the pool does not admit it
/// and dispatch does not apply it. Where the transaction passes the checks
/// that come before, the pool is told that it is stale and dispatch reports the
/// used nullifier.
pub proof fn lemma_used_nullifier_is_refused<V: ProofVerify>(
    state: PalletState,
    config: Config,
    proof: Seq<u8>,
    range_proof: Seq<u8>,
    public_inputs: Seq<u8>,
    i: int,
)
    requires
        decode_inputs(public_inputs) is Some,
        0 <= i < decode_inputs(public_inputs).unwrap().nullifiers.len(),
        state.registry.nullifiers.contains(decode_inputs(public_inputs).unwrap().nullifiers[i]),
    ensures
        state.first_rejection(config, proof.len(), range_proof.len(), public_inputs) is Some,
        state.pool_verdict(config, proof.len(), range_proof.len(), public_inputs) is Err,
        state.submit_error::<V>(config, proof, range_proof, public_inputs) is Some,
        ({
            let rejection = state.first_rejection(
                config,
                proof.len(),
                range_proof.len(),
                public_inputs,
            ).unwrap();
            rejection == Rejection::NullifierUsed || rejection == Rejection::ProofTooLarge
                || rejection == Rejection::RangeProofTooLarge || rejection
                == Rejection::StaleAnchor || rejection == Rejection::ShapeMismatch || rejection
                == Rejection::NullifierCollision
        }),
        state.first_rejection(config, proof.len(), range_proof.len(), public_inputs) == Some(
            Rejection::NullifierUsed,
        ) ==> {
            &&& state.pool_verdict(config, proof.len(), range_proof.len(), public_inputs) == Err::<
                ValidTransactionView,
                InvalidTransaction,
            >(InvalidTransaction::Stale)
            &&& state.submit_error::<V>(config, proof, range_proof, public_inputs) == Some(
                Error::NullifierAlreadyUsed,
            )
        },
{
    let inputs = decode_inputs(public_inputs).unwrap();
    assert(any_used(state.registry.nullifiers, inputs.nullifiers));
}

/// What is used stays used: no transition of the ledger takes a nullifier or a
/// fee nullifier out of the used ones.
pub proof fn lemma_nullifiers_only_grow(
    state: PalletState,
    inputs: PublicInputs,
    commitments: Seq<Seq<u8>>,
    fee_commitment: Seq<u8>,
    faucet: Seq<Seq<u8>>,
)
    ensures
        state.registry.nullifiers.subset_of(state.settled(inputs).registry.nullifiers),
        state.registry.fee_nullifiers.subset_of(state.settled(inputs).registry.fee_nullifiers),
        state.with_leaves(commitments).registry.nullifiers == state.registry.nullifiers,
        state.with_leaves(commitments).registry.fee_nullifiers == state.registry.fee_nullifiers,
        state.fee_escrowed(fee_commitment).registry.nullifiers == state.registry.nullifiers,
        state.fee_escrowed(fee_commitment).registry.fee_nullifiers
            == state.registry.fee_nullifiers,
        state.reseeded(faucet).registry.nullifiers == state.registry.nullifiers,
        state.reseeded(faucet).registry.fee_nullifiers == state.registry.fee_nullifiers,
{
}

/// An applied transaction cannot be applied again: on the ledger it leaves
/// behind, the same transaction is stale to the pool and refused by dispatch.
/// Where it has a nullifier and its anchor is still valid, dispatch reports the
/// used nullifier.
pub proof fn lemma_resubmission_is_refused<V: ProofVerify>(
    state: PalletState,
    config: Config,
    proof: Seq<u8>,
    range_proof: Seq<u8>,
    public_inputs: Seq<u8>,
)
    requires
        state.submit_error::<V>(config, proof, range_proof, public_inputs) is None,
    ensures
        ({
            let inputs = decode_inputs(public_inputs).unwrap();
            let after = state.settled(inputs);
            &&& after.pool_verdict(config, proof.len(), range_proof.len(), public_inputs) == Err::<
                ValidTransactionView,
                InvalidTransaction,
            >(InvalidTransaction::Stale)
            &&& after.submit_error::<V>(config, proof, range_proof, public_inputs) is Some
            &&& inputs.nullifiers.len() > 0 && after.accumulator.anchor_is_valid(inputs.merkle_root)
                ==> after.submit_error::<V>(config, proof, range_proof, public_inputs) == Some(
                Error::NullifierAlreadyUsed,
            )
        }),
{
    let inputs = decode_inputs(public_inputs).unwrap();
    let after = state.settled(inputs);
    assert(state.first_rejection(config, proof.len(), range_proof.len(), public_inputs) is None);
    assert(after.registry.fee_nullifiers.contains(inputs.fee_nullifier));
    if inputs.nullifiers.len() > 0 {
        assert(inputs.nullifiers.to_set().contains(inputs.nullifiers[0]));
        assert(after.registry.nullifiers.contains(inputs.nullifiers[0]));
        assert(any_used(after.registry.nullifiers, inputs.nullifiers));
    }
}

/// A ledger only grows: when new commitments are appended, every leaf stays at
/// its index, every indexed commitment keeps its index, every new commitment is
/// indexed at the leaf that stands for it, and the ledger stays well formed.
pub proof fn lemma_leaves_are_kept(state: PalletState, commitments: Seq<Seq<u8>>)
    requires
        state.wf(),
        state.all_fresh(commitments),
        state.accumulator.leaves.len() + commitments.len() <= MAX_LEAVES,
    ensures
        ({
            let after = state.with_leaves(commitments);
            let held = state.accumulator.leaves.len() as int;
            &&& after.wf()
            &&& after.accumulator.leaves.len() == held + commitments.len()
            &&& forall|i: int|
                0 <= i < held ==> after.accumulator.leaves[i] == state.accumulator.leaves[i]
            &&& forall|c: Seq<u8>|
                state.registry.commitment_index.contains_key(c)
                    ==> after.registry.commitment_index.contains_key(c)
                    && after.registry.commitment_index[c] == state.registry.commitment_index[c]
            &&& forall|k: int|
                0 <= k < commitments.len() ==> after.registry.commitment_index.contains_key(
                    #[trigger] commitments[k],
                ) && after.registry.commitment_index[commitments[k]] == held + k
        }),
{
    let after = state.with_leaves(commitments);
    let held = state.accumulator.leaves.len() as int;
    lemma_window_push(state.accumulator.recent_roots, state.accumulator.current_root);
    assert forall|c: Seq<u8>|
        state.registry.commitment_index.contains_key(c) implies !commitments.contains(c) by {
        if commitments.contains(c) {
            let k = choose|k: int| 0 <= k < commitments.len() && commitments[k] == c;
            assert(!state.registry.commitment_index.contains_key(commitments[k]));
        }
    }
    assert forall|k: int| 0 <= k < commitments.len() implies commitments.contains(
        #[trigger] commitments[k],
    ) && commitments.index_of(commitments[k]) == k by {
        lemma_index_of_unique(commitments, k);
    }
    assert forall|c: Seq<u8>| #[trigger]
        after.registry.commitment_index.contains_key(c) implies {
        &&& after.registry.commitment_index[c] < after.accumulator.leaves.len()
        &&& after.accumulator.leaves[after.registry.commitment_index[c] as int] == leaf_digest(c)
    } by {
        if commitments.contains(c) {
            let k = commitments.index_of(c);
            assert(0 <= k < commitments.len() && commitments[k] == c);
        } else {
            assert(state.registry.commitment_index.contains_key(c));
        }
    }
}

/// An indexed commitment can always be spent with a path: in a well-formed
/// ledger the leaf of every indexed commitment opens to the current root along
/// its Merkle path.
pub proof fn lemma_indexed_commitment_opens(state: PalletState, commitment: Seq<u8>)
    requires
        state.wf(),
        state.registry.commitment_index.contains_key(commitment),
    ensures
        path_root(
            leaf_digest(commitment),
            state.registry.commitment_index[commitment] as nat,
            merkle_path(state.accumulator.leaves, state.registry.commitment_index[commitment] as nat),
        ) == state.accumulator.current_root,
{
    lemma_path_opens(
        state.accumulator.leaves,
        state.registry.commitment_index[commitment] as nat,
    );
}

} // verus!
