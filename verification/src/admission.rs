//! The admission sequence: the checks that a transaction passes before the
//! pool admits it and before dispatch applies it, and what a ledger holds.

use vstd::prelude::*;
use crate::accumulator::AccumulatorState;
use crate::error::Error;
use crate::inputs::{decode_inputs, PublicInputs};
use crate::merkle::{leaf_digest, merkle_root};
use crate::pallet::Config;
use crate::registry::RegistryState;
use crate::validity::{InvalidTransaction, ValidTransactionView, POOL_LONGEVITY, POOL_PRIORITY};

verus! {

/// The first check of the admission sequence that a transaction fails.
#[derive(Clone, Copy, Debug, PartialEq, Eq, Structural)]
pub enum Rejection {
    /// The public inputs cannot be decoded.
    Malformed,
    /// The balance proof is too long.
    ProofTooLarge,
    /// The range proof is too long.
    RangeProofTooLarge,
    /// The anchor is neither the current root nor a recent one.
    StaleAnchor,
    /// There are not as many nullifiers and indices as input commitments.
    ShapeMismatch,
    /// Two nullifiers are equal, or one equals the fee nullifier.
    NullifierCollision,
    /// An input nullifier is already used.
    NullifierUsed,
    /// The fee nullifier is already used.
    FeeNullifierUsed,
}

impl Rejection {
    /// How the pool is told of the rejection.
    pub open spec fn pool_reason(self) -> InvalidTransaction {
        match self {
            Rejection::Malformed => InvalidTransaction::Call,
            Rejection::ProofTooLarge => InvalidTransaction::ExhaustsResources,
            Rejection::RangeProofTooLarge => InvalidTransaction::ExhaustsResources,
            Rejection::StaleAnchor => InvalidTransaction::Stale,
            Rejection::ShapeMismatch => InvalidTransaction::BadMandatory,
            Rejection::NullifierCollision => InvalidTransaction::BadMandatory,
            Rejection::NullifierUsed => InvalidTransaction::Stale,
            Rejection::FeeNullifierUsed => InvalidTransaction::Stale,
        }
    }

    /// How a dispatch reports the rejection.
    pub open spec fn dispatch_error(self) -> Error {
        match self {
            Rejection::Malformed => Error::ProofVerificationFailed,
            Rejection::ProofTooLarge => Error::ProofTooLarge,
            Rejection::RangeProofTooLarge => Error::RangeProofTooLarge,
            Rejection::StaleAnchor => Error::ProofVerificationFailed,
            Rejection::ShapeMismatch => Error::ProofVerificationFailed,
            Rejection::NullifierCollision => Error::ProofVerificationFailed,
            Rejection::NullifierUsed => Error::NullifierAlreadyUsed,
            Rejection::FeeNullifierUsed => Error::FeeNullifierAlreadyUsed,
        }
    }

    /// How the pool is told of the rejection.
    pub fn to_pool_reason(self) -> (reason: InvalidTransaction)
        ensures
            reason == self.pool_reason(),
    {
        match self {
            Rejection::Malformed => InvalidTransaction::Call,
            Rejection::ProofTooLarge => InvalidTransaction::ExhaustsResources,
            Rejection::RangeProofTooLarge => InvalidTransaction::ExhaustsResources,
            Rejection::StaleAnchor => InvalidTransaction::Stale,
            Rejection::ShapeMismatch => InvalidTransaction::BadMandatory,
            Rejection::NullifierCollision => InvalidTransaction::BadMandatory,
            Rejection::NullifierUsed => InvalidTransaction::Stale,
            Rejection::FeeNullifierUsed => InvalidTransaction::Stale,
        }
    }

    /// How a dispatch reports the rejection.
    pub fn to_dispatch_error(self) -> (error: Error)
        ensures
            error == self.dispatch_error(),
    {
        match self {
            Rejection::Malformed => Error::ProofVerificationFailed,
            Rejection::ProofTooLarge => Error::ProofTooLarge,
            Rejection::RangeProofTooLarge => Error::RangeProofTooLarge,
            Rejection::StaleAnchor => Error::ProofVerificationFailed,
            Rejection::ShapeMismatch => Error::ProofVerificationFailed,
            Rejection::NullifierCollision => Error::ProofVerificationFailed,
            Rejection::NullifierUsed => Error::NullifierAlreadyUsed,
            Rejection::FeeNullifierUsed => Error::FeeNullifierAlreadyUsed,
        }
    }
}

/// What a ledger holds.
pub struct PalletState {
    pub accumulator: AccumulatorState,
    pub registry: RegistryState,
    pub genesis_initialized: bool,
}

/// Whether there are as many nullifiers and indices as input commitments.
pub open spec fn shape_ok(inputs: PublicInputs) -> bool {
    &&& inputs.nullifiers.len() == inputs.input_commitments.len()
    &&& inputs.input_indices.len() == inputs.input_commitments.len()
}

/// Whether the nullifiers are pairwise distinct and none is the fee nullifier.
pub open spec fn nullifiers_clean(inputs: PublicInputs) -> bool {
    &&& inputs.nullifiers.no_duplicates()
    &&& !inputs.nullifiers.contains(inputs.fee_nullifier)
}

/// Whether one of `nullifiers` is in `used`.
pub open spec fn any_used(used: Set<Seq<u8>>, nullifiers: Seq<Seq<u8>>) -> bool {
    exists|i: int| 0 <= i < nullifiers.len() && used.contains(#[trigger] nullifiers[i])
}

/// The tags under which a transaction is known to the pool: its id, its fee
/// nullifier and each of its nullifiers.
pub open spec fn pool_tags(inputs: PublicInputs) -> Seq<Seq<u8>> {
    seq![inputs.tx_id, inputs.fee_nullifier] + inputs.nullifiers
}

impl PalletState {
    /// What every ledger keeps: the accumulator's bounds; the current root is
    /// the Merkle root of the leaves and is recorded with their number; and
    /// every indexed commitment has its leaf at its index.
    pub open spec fn wf(self) -> bool {
        &&& self.accumulator.wf()
        &&& self.accumulator.current_root == merkle_root(self.accumulator.leaves)
        &&& self.accumulator.leaf_count_at(self.accumulator.current_root)
            == self.accumulator.leaves.len()
        &&& forall|c: Seq<u8>| #[trigger]
            self.registry.commitment_index.contains_key(c) ==> {
                &&& self.registry.commitment_index[c] < self.accumulator.leaves.len()
                &&& self.accumulator.leaves[self.registry.commitment_index[c] as int]
                    == leaf_digest(c)
            }
    }

    /// The ledger at genesis with the faucet commitments `faucet`.
    pub open spec fn genesis(faucet: Seq<Seq<u8>>) -> PalletState {
        PalletState {
            accumulator: AccumulatorState::genesis(),
            registry: RegistryState::empty().with_faucets(faucet),
            genesis_initialized: true,
        }
    }

    /// The first check, in order, that a transaction fails; `None` when it
    /// passes them all.
    ///
    /// The checks are: the public inputs decode; the proofs are within their
    /// size limits; the anchor is the current root or a recent one; there are
    /// as many nullifiers and indices as input commitments; the nullifiers are
    /// pairwise distinct and differ from the fee nullifier; no input nullifier
    /// and not the fee nullifier is used.
    pub open spec fn first_rejection(
        self,
        config: Config,
        proof_len: nat,
        range_proof_len: nat,
        public_inputs: Seq<u8>,
    ) -> Option<Rejection> {
        match decode_inputs(public_inputs) {
            None => Some(Rejection::Malformed),
            Some(inputs) => if proof_len > config.max_proof_size {
                Some(Rejection::ProofTooLarge)
            } else if range_proof_len > config.max_range_proof_size {
                Some(Rejection::RangeProofTooLarge)
            } else if !self.accumulator.anchor_is_valid(inputs.merkle_root) {
                Some(Rejection::StaleAnchor)
            } else if !shape_ok(inputs) {
                Some(Rejection::ShapeMismatch)
            } else if !nullifiers_clean(inputs) {
                Some(Rejection::NullifierCollision)
            } else if any_used(self.registry.nullifiers, inputs.nullifiers) {
                Some(Rejection::NullifierUsed)
            } else if self.registry.fee_nullifiers.contains(inputs.fee_nullifier) {
                Some(Rejection::FeeNullifierUsed)
            } else {
                None
            },
        }
    }

    /// The verdict of the pool-admission check.
    pub open spec fn pool_verdict(
        self,
        config: Config,
        proof_len: nat,
        range_proof_len: nat,
        public_inputs: Seq<u8>,
    ) -> Result<ValidTransactionView, InvalidTransaction> {
        match self.first_rejection(config, proof_len, range_proof_len, public_inputs) {
            Some(rejection) => Err(rejection.pool_reason()),
            None => Ok(
                ValidTransactionView {
                    priority: POOL_PRIORITY,
                    provides: pool_tags(decode_inputs(public_inputs).unwrap()),
                    longevity: POOL_LONGEVITY,
                    propagate: true,
                },
            ),
        }
    }
}

} // verus!
