//! What the dispatch path decides and what it leaves behind, as mathematics.

use vstd::prelude::*;
use crate::accumulator::{window_push, AccumulatorState, MAX_LEAVES};
use crate::bytes::zeros;
use crate::error::Error;
use crate::events::EventView;
use crate::inputs::{decode_inputs, PublicInputs};
use crate::merkle::{leaf_digest, merkle_root, path_root};
use crate::admission::PalletState;
use crate::pallet::{Config, ProofVerify};
use crate::registry::RegistryState;

verus! {

/// The number of bits every committed value must fit in.
pub const VALUE_BITS: u32 = 64;

/// `base`, with `commitments[i]` indexed at `first + i` for every `i`.
pub open spec fn extended_index(
    base: Map<Seq<u8>, u32>,
    commitments: Seq<Seq<u8>>,
    first: nat,
) -> Map<Seq<u8>, u32> {
    Map::new(
        |c: Seq<u8>| base.contains_key(c) || commitments.contains(c),
        |c: Seq<u8>|
            if commitments.contains(c) {
                (first + commitments.index_of(c)) as u32
            } else {
                base[c]
            },
    )
}

/// The commitments that the range proof of a transaction is about: its
/// outputs followed by its fee commitment.
pub open spec fn proven_commitments(public_inputs: Seq<u8>) -> Seq<Seq<u8>> {
    match decode_inputs(public_inputs) {
        Some(inputs) => inputs.new_commitments.push(inputs.fee_commitment),
        None => Seq::empty(),
    }
}

/// The amount of a deposit as the 64-bit value that is committed to: amounts
/// beyond 64 bits count as the largest 64-bit value.
pub open spec fn committed_amount(amount: u128) -> u64 {
    if amount > u64::MAX {
        u64::MAX
    } else {
        amount as u64
    }
}

impl PalletState {
    /// Whether input `i` is included under the anchor. A faucet commitment
    /// always is. Otherwise, where a path is given, the leaf of the commitment
    /// must open to the anchor along it; where none is given, the commitment
    /// must be indexed below the number of leaves the anchor covered.
    pub open spec fn input_included(self, inputs: PublicInputs, i: int) -> bool {
        let c = inputs.input_commitments[i];
        if self.registry.faucet.contains(c) {
            true
        } else if i < inputs.input_paths.len() && inputs.input_paths[i].len() > 0 && i
            < inputs.input_indices.len() {
            path_root(leaf_digest(c), inputs.input_indices[i] as nat, inputs.input_paths[i])
                == inputs.merkle_root
        } else {
            &&& self.registry.commitment_index.contains_key(c)
            &&& self.registry.commitment_index[c] < self.accumulator.leaf_count_at(
                inputs.merkle_root,
            )
        }
    }

    /// Whether every input is included under the anchor.
    pub open spec fn inputs_included(self, inputs: PublicInputs) -> bool {
        forall|i: int|
            0 <= i < inputs.input_commitments.len() ==> #[trigger] self.input_included(inputs, i)
    }

    /// Whether `commitments` are pairwise distinct and none is indexed yet.
    pub open spec fn all_fresh(self, commitments: Seq<Seq<u8>>) -> bool {
        &&& commitments.no_duplicates()
        &&& forall|i: int|
            0 <= i < commitments.len() ==> !self.registry.commitment_index.contains_key(
                #[trigger] commitments[i],
            )
    }

    /// The leaves followed by the leaves of `commitments`.
    pub open spec fn leaves_with(self, commitments: Seq<Seq<u8>>) -> Seq<Seq<u8>> {
        self.accumulator.leaves + Seq::new(
            commitments.len(),
            |i: int| leaf_digest(commitments[i]),
        )
    }

    /// The root after `commitments` are appended.
    pub open spec fn root_with(self, commitments: Seq<Seq<u8>>) -> Seq<u8> {
        merkle_root(self.leaves_with(commitments))
    }

    /// The ledger after `commitments` are appended and indexed and the root is
    /// advanced over them.
    pub open spec fn with_leaves(self, commitments: Seq<Seq<u8>>) -> PalletState {
        let leaves = self.leaves_with(commitments);
        let root = self.root_with(commitments);
        PalletState {
            accumulator: AccumulatorState {
                leaves,
                current_root: root,
                recent_roots: window_push(
                    self.accumulator.recent_roots,
                    self.accumulator.current_root,
                ),
                root_leaf_count: self.accumulator.root_leaf_count.insert(root, leaves.len() as u32),
            },
            registry: RegistryState {
                commitment_index: extended_index(
                    self.registry.commitment_index,
                    commitments,
                    self.accumulator.leaves.len(),
                ),
                ..self.registry
            },
            genesis_initialized: self.genesis_initialized,
        }
    }

    /// The ledger after the transaction with public inputs `inputs` is applied:
    /// its nullifiers and its fee nullifier are used, its fee escrow is
    /// consumed, and its outputs are appended, indexed and covered by the new
    /// current root.
    pub open spec fn settled(self, inputs: PublicInputs) -> PalletState {
        let grown = self.with_leaves(inputs.new_commitments);
        PalletState {
            registry: RegistryState {
                nullifiers: self.registry.nullifiers.union(inputs.nullifiers.to_set()),
                fee_nullifiers: self.registry.fee_nullifiers.insert(inputs.fee_nullifier),
                fee_escrow: self.registry.fee_escrow.insert(inputs.fee_commitment, false),
                ..grown.registry
            },
            ..grown
        }
    }

    /// Why a shielded transaction is refused; `None` when it is applied.
    /// `range_ok` and `balance_ok` say whether the verifier accepted the range
    /// proof and the balance proof.
    ///
    /// In order: the admission sequence; the number of outputs; the range
    /// proof; the balance proof; the inclusion of every input; the fee escrow;
    /// the outputs being new; room for the outputs; and the claimed new root,
    /// when one is claimed.
    pub open spec fn settle_error(
        self,
        config: Config,
        proof_len: nat,
        range_proof_len: nat,
        public_inputs: Seq<u8>,
        range_ok: bool,
        balance_ok: bool,
    ) -> Option<Error> {
        match self.first_rejection(config, proof_len, range_proof_len, public_inputs) {
            Some(rejection) => Some(rejection.dispatch_error()),
            None => {
                let inputs = decode_inputs(public_inputs).unwrap();
                if inputs.new_commitments.len() > config.max_outputs {
                    Some(Error::ProofVerificationFailed)
                } else if !range_ok {
                    Some(Error::ProofVerificationFailed)
                } else if !balance_ok {
                    Some(Error::ProofVerificationFailed)
                } else if !self.inputs_included(inputs) {
                    Some(Error::ProofVerificationFailed)
                } else if !self.registry.is_fee_escrowed(inputs.fee_commitment) {
                    Some(Error::ProofVerificationFailed)
                } else if !self.all_fresh(inputs.new_commitments) {
                    Some(Error::ProofVerificationFailed)
                } else if self.accumulator.leaves.len() + inputs.new_commitments.len()
                    > MAX_LEAVES {
                    Some(Error::CapacityExceeded)
                } else if inputs.new_merkle_root != zeros(32) && inputs.new_merkle_root
                    != self.root_with(inputs.new_commitments) {
                    Some(Error::ProofVerificationFailed)
                } else {
                    None
                }
            },
        }
    }

    /// The events a shielded transaction emits: none up to and including a
    /// failed range proof; after it the range proof's event, followed by the
    /// rejection when the balance proof fails or by the acceptance when the
    /// transaction is applied.
    pub open spec fn settle_events(
        self,
        config: Config,
        proof_len: nat,
        range_proof_len: nat,
        public_inputs: Seq<u8>,
        range_ok: bool,
        balance_ok: bool,
        hints_blob: Seq<u8>,
    ) -> Seq<EventView> {
        if self.first_rejection(config, proof_len, range_proof_len, public_inputs) is Some {
            Seq::empty()
        } else {
            let inputs = decode_inputs(public_inputs).unwrap();
            if inputs.new_commitments.len() > config.max_outputs || !range_ok {
                Seq::empty()
            } else if !balance_ok {
                seq![EventView::RangeProofVerified, EventView::ProofRejected]
            } else if self.settle_error(
                config,
                proof_len,
                range_proof_len,
                public_inputs,
                range_ok,
                balance_ok,
            ) is Some {
                seq![EventView::RangeProofVerified]
            } else {
                seq![
                    EventView::RangeProofVerified,
                    EventView::ProofAccepted {
                        tx_id: inputs.tx_id,
                        new_merkle_root: self.root_with(inputs.new_commitments),
                        outputs: inputs.new_commitments,
                        hints_blob,
                    },
                ]
            }
        }
    }

    /// Why a shielded transaction is refused when `V` verifies its proofs;
    /// `None` when it is applied.
    pub open spec fn submit_error<V: ProofVerify>(
        self,
        config: Config,
        proof: Seq<u8>,
        range_proof: Seq<u8>,
        public_inputs: Seq<u8>,
    ) -> Option<Error> {
        self.settle_error(
            config,
            proof.len(),
            range_proof.len(),
            public_inputs,
            V::range_holds(range_proof, proven_commitments(public_inputs), public_inputs, VALUE_BITS),
            V::balance_holds(proof, public_inputs),
        )
    }

    /// The events a shielded transaction emits when `V` verifies its proofs.
    pub open spec fn submit_events<V: ProofVerify>(
        self,
        config: Config,
        proof: Seq<u8>,
        range_proof: Seq<u8>,
        public_inputs: Seq<u8>,
        hints_blob: Seq<u8>,
    ) -> Seq<EventView> {
        self.settle_events(
            config,
            proof.len(),
            range_proof.len(),
            public_inputs,
            V::range_holds(range_proof, proven_commitments(public_inputs), public_inputs, VALUE_BITS),
            V::balance_holds(proof, public_inputs),
            hints_blob,
        )
    }

    /// Why a public deposit is refused before funds are moved; `None` when
    /// they may be moved.
    pub open spec fn opening_error<V: ProofVerify>(
        commitment: Seq<u8>,
        amount: u128,
        blinding: Seq<u8>,
    ) -> Option<Error> {
        if commitment.len() != 32 || blinding.len() != 32 {
            Some(Error::ProofVerificationFailed)
        } else if !V::opens(committed_amount(amount), blinding, commitment) {
            Some(Error::ProofVerificationFailed)
        } else {
            None
        }
    }

    /// Why a public deposit is refused; `None` when it is applied. `opening`
    /// is what the check of the opening found.
    ///
    /// In order: the opening was accepted; the commitment has 32 bytes; the
    /// commitment is not indexed yet; there is room for one more leaf.
    pub open spec fn place_error(self, commitment: Seq<u8>, opening: Option<Error>) -> Option<
        Error,
    > {
        if opening is Some {
            opening
        } else if commitment.len() != 32 {
            Some(Error::ProofVerificationFailed)
        } else if self.registry.commitment_index.contains_key(commitment) {
            Some(Error::ProofVerificationFailed)
        } else if self.accumulator.leaves.len() >= MAX_LEAVES {
            Some(Error::CapacityExceeded)
        } else {
            None
        }
    }

    /// Why a public deposit is refused when `V` checks its opening; `None`
    /// when it is applied.
    pub open spec fn deposit_error<V: ProofVerify>(
        self,
        commitment: Seq<u8>,
        amount: u128,
        blinding: Seq<u8>,
    ) -> Option<Error> {
        self.place_error(commitment, Self::opening_error::<V>(commitment, amount, blinding))
    }

    /// The ledger after `commitment` is escrowed as a fee commitment.
    pub open spec fn fee_escrowed(self, commitment: Seq<u8>) -> PalletState {
        PalletState {
            registry: RegistryState {
                fee_escrow: self.registry.fee_escrow.insert(commitment, true),
                ..self.registry
            },
            ..self
        }
    }

    /// The ledger after the faucet commitments `faucet` are seeded again.
    pub open spec fn reseeded(self, faucet: Seq<Seq<u8>>) -> PalletState {
        PalletState {
            registry: self.registry.with_faucets(faucet),
            genesis_initialized: true,
            ..self
        }
    }
}

/// In a list without repetition every item is found at its own position.
pub proof fn lemma_index_of_unique(s: Seq<Seq<u8>>, i: int)
    requires
        s.no_duplicates(),
        0 <= i < s.len(),
    ensures
        s.index_of(s[i]) == i,
{
    let j = s.index_of(s[i]);
    assert(0 <= j < s.len() && s[j] == s[i]);
}

/// Indexing one more commitment is one more entry in the index.
pub proof fn lemma_extended_index_step(
    base: Map<Seq<u8>, u32>,
    commitments: Seq<Seq<u8>>,
    first: nat,
    i: int,
)
    requires
        commitments.no_duplicates(),
        0 <= i < commitments.len(),
    ensures
        extended_index(base, commitments.subrange(0, i + 1), first) == extended_index(
            base,
            commitments.subrange(0, i),
            first,
        ).insert(commitments[i], (first + i) as u32),
{
    let shorter = commitments.subrange(0, i);
    let longer = commitments.subrange(0, i + 1);
    let a = extended_index(base, longer, first);
    let b = extended_index(base, shorter, first).insert(commitments[i], (first + i) as u32);
    assert(longer.no_duplicates());
    assert(shorter.no_duplicates());
    assert(longer[i] == commitments[i]);
    assert forall|c: Seq<u8>| longer.contains(c) <==> (shorter.contains(c) || c
        == commitments[i]) by {
        if longer.contains(c) {
            let k = choose|k: int| 0 <= k < longer.len() && longer[k] == c;
            if k < i {
                assert(shorter[k] == c);
            }
        }
        if shorter.contains(c) {
            let k = choose|k: int| 0 <= k < shorter.len() && shorter[k] == c;
            assert(longer[k] == c);
        }
    }
    assert forall|c: Seq<u8>| a.contains_key(c) implies a[c] == b[c] by {
        if c == commitments[i] {
            lemma_index_of_unique(longer, i);
        } else if shorter.contains(c) {
            let k = shorter.index_of(c);
            assert(0 <= k < shorter.len() && shorter[k] == c);
            assert(longer[k] == shorter[k]);
            lemma_index_of_unique(longer, k);
        }
    }
    assert(a =~= b);
}

} // verus!
