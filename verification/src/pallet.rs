//! The ledger: genesis, the pool-admission check and the dispatch path.

use vstd::prelude::*;
use crate::accumulator::{
    lemma_window_push,
    Accumulator,
    AccumulatorState,
    MAX_LEAVES,
    ROOT_WINDOW,
};
use crate::admission::{any_used, pool_tags, PalletState, Rejection};
use crate::bytes::{
    copy_hashes,
    hash_eq,
    is_zero_hash,
    lemma_prefix_contains,
    lemma_views_push,
    read32,
    views,
    zeros,
};
use crate::dispatch::{
    committed_amount,
    extended_index,
    lemma_extended_index_step,
    proven_commitments,
    VALUE_BITS,
};
use crate::error::Error;
use crate::events::{event_views, DispatchOutcome, Event, EventView};
use crate::inputs::{decode_inputs, ProofPublicInputs};
use crate::merkle::{
    compute_merkle_root,
    compute_path_root,
    leaf_digest,
    leaf_hash,
    merkle_root,
};
use crate::registry::{Registry, RegistryState};
use crate::snapshot::Snapshot;
use crate::store::{KeyMap, KeySet};
use crate::validity::{
    InvalidTransaction,
    ValidTransaction,
    ValidTransactionView,
    POOL_LONGEVITY,
    POOL_PRIORITY,
};

verus! {

/// The constants a ledger is set up with.
#[derive(Clone, Debug)]
pub struct Config {
    /// The most bytes a balance proof may have.
    pub max_proof_size: u32,
    /// The most bytes a range proof may have.
    pub max_range_proof_size: u32,
    /// The most outputs a transaction may have.
    pub max_outputs: u32,
    /// The fee of a shielded transaction.
    pub base_fee: u128,
    /// The faucet commitments seeded at genesis.
    pub genesis_commitments: Vec<[u8; 32]>,
}

/// The proof verifier a ledger relies on.
///
/// The three checks must be functions of their arguments: on every node the
/// same bytes give the same answer. The `spec` functions name those answers,
/// and the ledger's contracts are stated over the names. A verified
/// implementation says what they are; one that is not verified leaves them as
/// they stand here, as names for whatever its checks return.
pub trait ProofVerify {
    /// Whether `proof` is a balance proof for `public_inputs`.
    open spec fn balance_holds(proof: Seq<u8>, public_inputs: Seq<u8>) -> bool {
        arbitrary()
    }

    /// Whether `commitment` commits to `value` under `blinding`.
    open spec fn opens(value: u64, blinding: Seq<u8>, commitment: Seq<u8>) -> bool {
        arbitrary()
    }

    /// Whether `range_proof` shows that each of `commitments` holds a value of
    /// at most `nbits` bits.
    open spec fn range_holds(
        range_proof: Seq<u8>,
        commitments: Seq<Seq<u8>>,
        public_inputs: Seq<u8>,
        nbits: u32,
    ) -> bool {
        arbitrary()
    }

    /// Checks a balance proof.
    fn verify(proof: &[u8], public_inputs: &[u8]) -> (ok: bool)
        ensures
            ok == Self::balance_holds(proof@, public_inputs@),
    ;

    /// Checks the opening of a commitment.
    fn pedersen_check_u64(value: u64, blinding: [u8; 32], commitment: [u8; 32]) -> (ok: bool)
        ensures
            ok == Self::opens(value, blinding@, commitment@),
    ;

    /// Checks an aggregated range proof.
    fn verify_range_proof(
        range_proof: &[u8],
        commitments: &[[u8; 32]],
        public_inputs: &[u8],
        nbits: u32,
    ) -> (ok: bool)
        ensures
            ok == Self::range_holds(range_proof@, views(commitments@), public_inputs@, nbits),
    ;
}

/// The ledger.
pub struct Pallet {
    config: Config,
    accumulator: Accumulator,
    registry: Registry,
    genesis_initialized: bool,
}

impl View for Pallet {
    type V = PalletState;

    closed spec fn view(&self) -> PalletState {
        PalletState {
            accumulator: self.accumulator@,
            registry: self.registry@,
            genesis_initialized: self.genesis_initialized,
        }
    }
}

/// Whether the nullifiers are pairwise distinct and none is `fee_nullifier`.
fn check_nullifiers_clean(nullifiers: &Vec<[u8; 32]>, fee_nullifier: &[u8; 32]) -> (clean: bool)
    ensures
        clean == (views(nullifiers@).no_duplicates() && !views(nullifiers@).contains(
            fee_nullifier@,
        )),
{
    let ghost all = views(nullifiers@);
    let mut seen = KeySet::new();
    let mut i: usize = 0;
    while i < nullifiers.len()
        invariant
            i <= nullifiers@.len(),
            all == views(nullifiers@),
            forall|k: Seq<u8>| seen@.contains(k) <==> exists|j: int| 0 <= j < i && all[j] == k,
            forall|a: int, b: int| 0 <= a < b < i ==> all[a] != all[b],
            forall|j: int| 0 <= j < i ==> all[j] != fee_nullifier@,
        decreases nullifiers@.len() - i,
    {
        let n = nullifiers[i];
        assert(all[i as int] == n@);
        if hash_eq(&n, fee_nullifier) {
            return false;
        }
        if seen.contains(&n) {
            let ghost j = choose|j: int| 0 <= j < i && all[j] == n@;
            assert(all[j] == all[i as int] && j != i);
            return false;
        }
        seen.insert(n);
        i += 1;
    }
    true
}

/// Whether one of `nullifiers` is used.
fn check_any_used(registry: &Registry, nullifiers: &Vec<[u8; 32]>) -> (used: bool)
    ensures
        used == any_used(registry@.nullifiers, views(nullifiers@)),
{
    let mut i: usize = 0;
    while i < nullifiers.len()
        invariant
            i <= nullifiers@.len(),
            forall|j: int|
                0 <= j < i ==> !registry@.nullifiers.contains(#[trigger] views(nullifiers@)[j]),
        decreases nullifiers@.len() - i,
    {
        if registry.is_nullifier_used(&nullifiers[i]) {
            assert(registry@.nullifiers.contains(views(nullifiers@)[i as int]));
            return true;
        }
        i += 1;
    }
    false
}

/// The bytes of `data` as a vector.
fn to_vec(data: &[u8]) -> (v: Vec<u8>)
    ensures
        v@ == data@,
{
    let mut v: Vec<u8> = Vec::new();
    crate::bytes::append_bytes(&mut v, data);
    assert(v@ =~= data@);
    v
}

impl Pallet {
    /// The constants the ledger was set up with.
    pub closed spec fn config_spec(&self) -> Config {
        self.config
    }

    /// The constants the ledger was set up with.
    pub fn config(&self) -> (config: &Config)
        ensures
            *config == self.config_spec(),
    {
        &self.config
    }

    /// The accumulator.
    pub fn accumulator(&self) -> (acc: &Accumulator)
        ensures
            acc@ == self@.accumulator,
    {
        &self.accumulator
    }

    /// The registry.
    pub fn registry(&self) -> (reg: &Registry)
        ensures
            reg@ == self@.registry,
    {
        &self.registry
    }

    /// Whether genesis has run.
    pub fn genesis_initialized(&self) -> (done: bool)
        ensures
            done == self@.genesis_initialized,
    {
        self.genesis_initialized
    }

    /// Runs the admission sequence and hands back the decoded public inputs,
    /// or the first check that failed.
    pub fn precheck(&self, proof_len: usize, range_proof_len: usize, public_inputs: &[u8]) -> (r:
        Result<ProofPublicInputs, Rejection>)
        ensures
            match r {
                Ok(inputs) => decode_inputs(public_inputs@) == Some(inputs@)
                    && self@.first_rejection(
                    self.config_spec(),
                    proof_len as nat,
                    range_proof_len as nat,
                    public_inputs@,
                ) is None,
                Err(rejection) => self@.first_rejection(
                    self.config_spec(),
                    proof_len as nat,
                    range_proof_len as nat,
                    public_inputs@,
                ) == Some(rejection),
            },
    {
        let inputs = match ProofPublicInputs::decode(public_inputs) {
            Some(inputs) => inputs,
            None => {
                return Err(Rejection::Malformed);
            },
        };
        if proof_len > self.config.max_proof_size as usize {
            return Err(Rejection::ProofTooLarge);
        }
        if range_proof_len > self.config.max_range_proof_size as usize {
            return Err(Rejection::RangeProofTooLarge);
        }
        if !self.accumulator.anchor_is_valid(&inputs.merkle_root) {
            return Err(Rejection::StaleAnchor);
        }
        if inputs.nullifiers.len() != inputs.input_commitments.len() {
            return Err(Rejection::ShapeMismatch);
        }
        if inputs.input_indices.len() != inputs.input_commitments.len() {
            return Err(Rejection::ShapeMismatch);
        }
        if !check_nullifiers_clean(&inputs.nullifiers, &inputs.fee_nullifier) {
            return Err(Rejection::NullifierCollision);
        }
        if check_any_used(&self.registry, &inputs.nullifiers) {
            return Err(Rejection::NullifierUsed);
        }
        if self.registry.is_fee_nullifier_used(&inputs.fee_nullifier) {
            return Err(Rejection::FeeNullifierUsed);
        }
        Ok(inputs)
    }

    /// The pool-admission check of a candidate transaction.
    ///
    /// It reads the ledger and changes nothing; no proof is verified. An
    /// admitted transaction is tagged with its id, its fee nullifier and each of
    /// its nullifiers.
    pub fn validate_unsigned(&self, proof: &[u8], range_proof: &[u8], public_inputs: &[u8]) -> (r:
        Result<ValidTransaction, InvalidTransaction>)
        ensures
            match r {
                Ok(valid) => self@.pool_verdict(
                    self.config_spec(),
                    proof@.len(),
                    range_proof@.len(),
                    public_inputs@,
                ) == Ok::<ValidTransactionView, InvalidTransaction>(valid@),
                Err(reason) => self@.pool_verdict(
                    self.config_spec(),
                    proof@.len(),
                    range_proof@.len(),
                    public_inputs@,
                ) == Err::<ValidTransactionView, InvalidTransaction>(reason),
            },
    {
        let inputs = match self.precheck(proof.len(), range_proof.len(), public_inputs) {
            Ok(inputs) => inputs,
            Err(rejection) => {
                return Err(rejection.to_pool_reason());
            },
        };
        let mut provides: Vec<Vec<u8>> = Vec::new();
        provides.push(to_vec(inputs.tx_id.as_slice()));
        provides.push(to_vec(inputs.fee_nullifier.as_slice()));
        let mut i: usize = 0;
        while i < inputs.nullifiers.len()
            invariant
                i <= inputs.nullifiers@.len(),
                provides@.len() == 2 + i,
                provides@[0]@ == inputs.tx_id@,
                provides@[1]@ == inputs.fee_nullifier@,
                forall|j: int| 0 <= j < i ==> (#[trigger] provides@[2 + j])@ == inputs.nullifiers@[j]@,
            decreases inputs.nullifiers@.len() - i,
        {
            provides.push(to_vec(inputs.nullifiers[i].as_slice()));
            i += 1;
        }
        let valid = ValidTransaction {
            priority: POOL_PRIORITY,
            provides,
            longevity: POOL_LONGEVITY,
            propagate: true,
        };
        assert(valid@.provides =~= pool_tags(inputs@)) by {
            assert forall|k: int| 0 <= k < valid@.provides.len() implies valid@.provides[k]
                == pool_tags(inputs@)[k] by {
                if k >= 2 {
                    assert(valid.provides@[2 + (k - 2)]@ == inputs.nullifiers@[k - 2]@);
                }
            }
        }
        Ok(valid)
    }
}

/// The genesis of a ledger.
#[derive(Clone, Copy, Debug, Default)]
pub struct GenesisConfig {}

impl GenesisConfig {
    /// Builds the ledger at genesis: no leaves, the zero root, and the faucet
    /// commitments of `config`.
    pub fn build(&self, config: Config) -> (pallet: Pallet)
        ensures
            pallet@ == PalletState::genesis(views(config.genesis_commitments@)),
            pallet@.wf(),
            pallet.config_spec() == config,
    {
        let mut registry = Registry::new();
        let ghost faucet = views(config.genesis_commitments@);
        let mut i: usize = 0;
        assert(faucet.subrange(0, 0).to_set() =~= Set::<Seq<u8>>::empty());
        assert(RegistryState::empty().faucet.union(Set::<Seq<u8>>::empty())
            =~= RegistryState::empty().faucet);
        while i < config.genesis_commitments.len()
            invariant
                i <= faucet.len(),
                faucet == views(config.genesis_commitments@),
                registry@ == RegistryState::empty().with_faucets(faucet.subrange(0, i as int)),
            decreases faucet.len() - i,
        {
            registry.seed_faucet(config.genesis_commitments[i]);
            proof {
                lemma_prefix_contains(faucet, i as int);
                assert(registry@.faucet =~= RegistryState::empty().with_faucets(
                    faucet.subrange(0, i + 1),
                ).faucet);
            }
            i += 1;
        }
        assert(faucet.subrange(0, i as int) =~= faucet);
        let accumulator = Accumulator::new();
        assert(merkle_root(Seq::<Seq<u8>>::empty()) == zeros(32));
        Pallet { config, accumulator, registry, genesis_initialized: true }
    }
}

impl Pallet {
    /// Seeds the faucet commitments again and marks genesis as run. Called at
    /// the start of every block; a commitment that is a faucet commitment
    /// already stays one.
    pub fn on_initialize(&mut self)
        requires
            old(self)@.wf(),
        ensures
            final(self)@ == old(self)@.reseeded(
                views(old(self).config_spec().genesis_commitments@),
            ),
            final(self)@.wf(),
            final(self).config_spec() == old(self).config_spec(),
    {
        let ghost faucet = views(self.config.genesis_commitments@);
        let ghost start = self.registry@;
        let mut i: usize = 0;
        assert(faucet.subrange(0, 0).to_set() =~= Set::<Seq<u8>>::empty());
        assert(start.with_faucets(faucet.subrange(0, 0)).faucet =~= start.faucet);
        while i < self.config.genesis_commitments.len()
            invariant
                i <= faucet.len(),
                faucet == views(self.config.genesis_commitments@),
                self.config == old(self).config,
                self.accumulator == old(self).accumulator,
                self.genesis_initialized == old(self).genesis_initialized,
                self.registry@ == start.with_faucets(faucet.subrange(0, i as int)),
            decreases faucet.len() - i,
        {
            let c = self.config.genesis_commitments[i];
            self.registry.seed_faucet(c);
            proof {
                lemma_prefix_contains(faucet, i as int);
                assert(self.registry@.faucet =~= start.with_faucets(
                    faucet.subrange(0, i + 1),
                ).faucet);
            }
            i += 1;
        }
        assert(faucet.subrange(0, i as int) =~= faucet);
        self.genesis_initialized = true;
    }

    /// Escrows `fee_commitment` to pay the fee of one shielded transaction.
    ///
    /// This is an operation of a signed account: the caller has established
    /// who deposits and has moved the base fee from that account to the fee
    /// payer before.
    pub fn deposit_fee(&mut self, fee_commitment: [u8; 32]) -> (out: DispatchOutcome)
        requires
            old(self)@.wf(),
        ensures
            out.result == Ok::<(), Error>(()),
            out.emitted() == seq![EventView::FeeDeposited { commitment: fee_commitment@ }],
            final(self)@ == old(self)@.fee_escrowed(fee_commitment@),
            final(self)@.wf(),
            final(self).config_spec() == old(self).config_spec(),
    {
        self.registry.escrow_fee(fee_commitment);
        let mut events: Vec<Event> = Vec::new();
        events.push(Event::FeeDeposited { commitment: fee_commitment });
        let out = DispatchOutcome { result: Ok(()), events };
        assert(out.emitted() =~= seq![EventView::FeeDeposited { commitment: fee_commitment@ }]);
        out
    }

    /// The part of the base fee that goes to the block author: what is left
    /// when half of the fee, rounded down, is burned.
    pub fn author_payout(&self) -> (amount: u128)
        ensures
            amount == self.config_spec().base_fee - self.config_spec().base_fee / 2,
    {
        crate::fees::split_fee(self.config.base_fee).1
    }

    /// The root the accumulator would have after `commitments` are appended.
    fn root_with(&self, commitments: &Vec<[u8; 32]>) -> (root: [u8; 32])
        ensures
            root@ == self@.root_with(views(commitments@)),
    {
        let mut leaves = copy_hashes(self.accumulator.leaves());
        let ghost base = views(leaves@);
        let ghost cs = views(commitments@);
        let mut i: usize = 0;
        assert(views(leaves@) =~= base + Seq::new(0, |j: int| leaf_digest(cs[j])));
        while i < commitments.len()
            invariant
                i <= cs.len(),
                cs == views(commitments@),
                views(leaves@) == base + Seq::new(i as nat, |j: int| leaf_digest(cs[j])),
            decreases cs.len() - i,
        {
            let ghost before = leaves@;
            let leaf = leaf_hash(commitments[i]);
            leaves.push(leaf);
            proof {
                lemma_views_push(before, leaf);
                assert(views(leaves@) =~= base + Seq::new(
                    (i + 1) as nat,
                    |j: int| leaf_digest(cs[j]),
                ));
            }
            i += 1;
        }
        compute_merkle_root(leaves.as_slice())
    }

    /// Appends and indexes `commitments` and advances the root to `root`.
    fn apply_leaves(&mut self, commitments: &Vec<[u8; 32]>, root: [u8; 32])
        requires
            old(self)@.wf(),
            old(self)@.all_fresh(views(commitments@)),
            old(self)@.accumulator.leaves.len() + commitments@.len() <= MAX_LEAVES,
            root@ == old(self)@.root_with(views(commitments@)),
        ensures
            final(self)@ == old(self)@.with_leaves(views(commitments@)),
            final(self)@.wf(),
            final(self).config_spec() == old(self).config_spec(),
    {
        let ghost s0 = self@;
        let ghost cs = views(commitments@);
        let ghost n0 = s0.accumulator.leaves.len();
        let mut i: usize = 0;
        proof {
            assert(s0.leaves_with(cs.subrange(0, 0)) =~= s0.accumulator.leaves);
            assert(extended_index(s0.registry.commitment_index, cs.subrange(0, 0), n0)
                =~= s0.registry.commitment_index);
        }
        while i < commitments.len()
            invariant
                i <= cs.len(),
                cs == views(commitments@),
                n0 == s0.accumulator.leaves.len(),
                n0 + cs.len() <= MAX_LEAVES,
                s0.all_fresh(cs),
                self.config == old(self).config,
                self.genesis_initialized == s0.genesis_initialized,
                self.accumulator@ == (AccumulatorState {
                    leaves: s0.leaves_with(cs.subrange(0, i as int)),
                    ..s0.accumulator
                }),
                self.accumulator@.wf(),
                self.registry@ == (RegistryState {
                    commitment_index: extended_index(
                        s0.registry.commitment_index,
                        cs.subrange(0, i as int),
                        n0,
                    ),
                    ..s0.registry
                }),
            decreases cs.len() - i,
        {
            let c = commitments[i];
            proof {
                assert(cs[i as int] == c@);
                lemma_prefix_contains(cs, i as int);
                lemma_extended_index_step(s0.registry.commitment_index, cs, n0, i as int);
                if cs.subrange(0, i as int).contains(c@) {
                    let k = choose|k: int|
                        0 <= k < i && cs.subrange(0, i as int)[k] == c@;
                    assert(cs[k] == cs[i as int]);
                }
                assert(s0.leaves_with(cs.subrange(0, i + 1)) =~= s0.leaves_with(
                    cs.subrange(0, i as int),
                ).push(leaf_digest(c@)));
            }
            let appended = self.accumulator.append(c);
            assert(appended is Ok);
            if let Ok(index) = appended {
                let registered = self.registry.register_commitment_index(c, index);
                assert(registered is Ok);
            }
            i += 1;
        }
        assert(cs.subrange(0, i as int) =~= cs);
        self.accumulator.advance_root(root);
        proof {
            let s1 = self@;
            let goal = s0.with_leaves(cs);
            lemma_window_push(s0.accumulator.recent_roots, s0.accumulator.current_root);
            assert(s1.accumulator == goal.accumulator);
            assert(s1 == goal);
            assert forall|c: Seq<u8>| #[trigger]
                s1.registry.commitment_index.contains_key(c) implies {
                &&& s1.registry.commitment_index[c] < s1.accumulator.leaves.len()
                &&& s1.accumulator.leaves[s1.registry.commitment_index[c] as int] == leaf_digest(c)
            } by {
                if cs.contains(c) {
                    let k = cs.index_of(c);
                    assert(0 <= k < cs.len() && cs[k] == c);
                } else {
                    assert(s0.registry.commitment_index.contains_key(c));
                }
            }
        }
    }

    /// Whether every input of `inputs` is included under the anchor.
    fn check_inputs_included(&self, inputs: &ProofPublicInputs) -> (ok: bool)
        ensures
            ok == self@.inputs_included(inputs@),
    {
        let anchor_count = self.accumulator.leaf_count_at(&inputs.merkle_root);
        let mut i: usize = 0;
        while i < inputs.input_commitments.len()
            invariant
                i <= inputs.input_commitments@.len(),
                anchor_count == self@.accumulator.leaf_count_at(inputs@.merkle_root),
                forall|j: int| 0 <= j < i ==> #[trigger] self@.input_included(inputs@, j),
            decreases inputs.input_commitments@.len() - i,
        {
            let c = inputs.input_commitments[i];
            assert(inputs@.input_commitments[i as int] == c@);
            let included = if self.registry.is_faucet(&c) {
                true
            } else if i < inputs.input_paths.len() && inputs.input_paths[i].len() > 0 && i
                < inputs.input_indices.len() {
                assert(inputs@.input_paths[i as int] == views(inputs.input_paths@[i as int]@));
                let node = compute_path_root(
                    leaf_hash(c),
                    inputs.input_indices[i],
                    &inputs.input_paths[i],
                );
                hash_eq(&node, &inputs.merkle_root)
            } else {
                if i < inputs.input_paths.len() {
                    assert(inputs@.input_paths[i as int] == views(inputs.input_paths@[i as int]@));
                }
                match self.registry.commitment_index(&c) {
                    Some(index) => index < anchor_count,
                    None => false,
                }
            };
            if !included {
                assert(!self@.input_included(inputs@, i as int));
                return false;
            }
            i += 1;
        }
        true
    }

    /// Whether `commitments` are pairwise distinct and none is indexed yet.
    fn check_all_fresh(&self, commitments: &Vec<[u8; 32]>) -> (fresh: bool)
        ensures
            fresh == self@.all_fresh(views(commitments@)),
    {
        let ghost all = views(commitments@);
        let mut seen = KeySet::new();
        let mut i: usize = 0;
        while i < commitments.len()
            invariant
                i <= commitments@.len(),
                all == views(commitments@),
                forall|k: Seq<u8>| seen@.contains(k) <==> exists|j: int| 0 <= j < i && all[j] == k,
                forall|a: int, b: int| 0 <= a < b < i ==> all[a] != all[b],
                forall|j: int|
                    0 <= j < i ==> !self@.registry.commitment_index.contains_key(#[trigger] all[j]),
            decreases commitments@.len() - i,
        {
            let c = commitments[i];
            assert(all[i as int] == c@);
            if seen.contains(&c) {
                let ghost j = choose|j: int| 0 <= j < i && all[j] == c@;
                assert(all[j] == all[i as int] && j != i);
                return false;
            }
            if self.registry.commitment_index(&c).is_some() {
                assert(self@.registry.commitment_index.contains_key(all[i as int]));
                return false;
            }
            seen.insert(c);
            i += 1;
        }
        true
    }

    /// Checks a public deposit as far as it can be checked before funds are
    /// moved: the commitment and the blinding have 32 bytes each, and the
    /// commitment opens to the amount under the blinding.
    pub fn check_deposit<V: ProofVerify>(commitment: &[u8], amount: u128, blinding: &[u8]) -> (r:
        Result<(), Error>)
        ensures
            r == (match PalletState::opening_error::<V>(commitment@, amount, blinding@) {
                Some(error) => Err::<(), Error>(error),
                None => Ok::<(), Error>(()),
            }),
    {
        if commitment.len() != 32 || blinding.len() != 32 {
            return Err(Error::ProofVerificationFailed);
        }
        let c = read32(commitment, 0);
        let b = read32(blinding, 0);
        assert(c@ =~= commitment@);
        assert(b@ =~= blinding@);
        let value: u64 = if amount > u64::MAX as u128 {
            u64::MAX
        } else {
            amount as u64
        };
        if !V::pedersen_check_u64(value, b, c) {
            return Err(Error::ProofVerificationFailed);
        }
        Ok(())
    }

    /// Applies a public deposit whose opening was checked with the result
    /// `opening`: the commitment gets the next leaf and the root advances over
    /// it. A refused deposit changes nothing.
    pub fn place_deposit(
        &mut self,
        commitment: &[u8],
        amount: u128,
        opening: Result<(), Error>,
        hints_blob: Vec<u8>,
    ) -> (out: DispatchOutcome)
        requires
            old(self)@.wf(),
        ensures
            final(self)@.wf(),
            final(self).config_spec() == old(self).config_spec(),
            match old(self)@.place_error(
                commitment@,
                match opening {
                    Ok(_) => None,
                    Err(error) => Some(error),
                },
            ) {
                Some(error) => {
                    &&& out.result == Err::<(), Error>(error)
                    &&& out.emitted() == Seq::<EventView>::empty()
                    &&& final(self)@ == old(self)@
                },
                None => {
                    &&& out.result == Ok::<(), Error>(())
                    &&& out.emitted() == seq![
                        EventView::DepositAccepted {
                            commitment: commitment@,
                            amount: committed_amount(amount),
                            new_merkle_root: old(self)@.root_with(seq![commitment@]),
                            hints_blob: hints_blob@,
                        },
                    ]
                    &&& final(self)@ == old(self)@.with_leaves(seq![commitment@])
                },
            },
    {
        let mut events: Vec<Event> = Vec::new();
        assert(event_views(events@) =~= Seq::<EventView>::empty());
        match opening {
            Err(error) => {
                return DispatchOutcome { result: Err(error), events };
            },
            Ok(_) => {},
        }
        if commitment.len() != 32 {
            return DispatchOutcome { result: Err(Error::ProofVerificationFailed), events };
        }
        let c = read32(commitment, 0);
        assert(c@ =~= commitment@);
        if self.registry.commitment_index(&c).is_some() {
            return DispatchOutcome { result: Err(Error::ProofVerificationFailed), events };
        }
        if self.accumulator.len() >= MAX_LEAVES {
            return DispatchOutcome { result: Err(Error::CapacityExceeded), events };
        }
        let mut one: Vec<[u8; 32]> = Vec::new();
        one.push(c);
        assert(views(one@) =~= seq![commitment@]);
        let root = self.root_with(&one);
        self.apply_leaves(&one, root);
        let value: u64 = if amount > u64::MAX as u128 {
            u64::MAX
        } else {
            amount as u64
        };
        events.push(
            Event::DepositAccepted {
                commitment: c,
                amount: value,
                new_merkle_root: root,
                hints_blob,
            },
        );
        let out = DispatchOutcome { result: Ok(()), events };
        assert(out.emitted() =~= seq![
            EventView::DepositAccepted {
                commitment: commitment@,
                amount: committed_amount(amount),
                new_merkle_root: old(self)@.root_with(seq![commitment@]),
                hints_blob: hints_blob@,
            },
        ]);
        out
    }

    /// Applies a public deposit: the commitment, which must open to the amount
    /// under the blinding, gets the next leaf and the root advances over it.
    ///
    /// This is an operation of a signed account: the caller has established who
    /// deposits, and moves the amount from that account into pool custody after
    /// [`Pallet::check_deposit`] has passed and before this call. A refused
    /// deposit changes nothing.
    pub fn deposit_public<V: ProofVerify>(
        &mut self,
        commitment: &[u8],
        amount: u128,
        blinding: &[u8],
        hints_blob: Vec<u8>,
    ) -> (out: DispatchOutcome)
        requires
            old(self)@.wf(),
        ensures
            final(self)@.wf(),
            final(self).config_spec() == old(self).config_spec(),
            match old(self)@.deposit_error::<V>(commitment@, amount, blinding@) {
                Some(error) => {
                    &&& out.result == Err::<(), Error>(error)
                    &&& out.emitted() == Seq::<EventView>::empty()
                    &&& final(self)@ == old(self)@
                },
                None => {
                    &&& out.result == Ok::<(), Error>(())
                    &&& out.emitted() == seq![
                        EventView::DepositAccepted {
                            commitment: commitment@,
                            amount: committed_amount(amount),
                            new_merkle_root: old(self)@.root_with(seq![commitment@]),
                            hints_blob: hints_blob@,
                        },
                    ]
                    &&& final(self)@ == old(self)@.with_leaves(seq![commitment@])
                },
            },
    {
        let opening = Self::check_deposit::<V>(commitment, amount, blinding);
        self.place_deposit(commitment, amount, opening, hints_blob)
    }
}

impl Pallet {
    /// Marks every nullifier of `nullifiers` used.
    fn mark_all_used(&mut self, nullifiers: &Vec<[u8; 32]>)
        requires
            views(nullifiers@).no_duplicates(),
            !any_used(old(self)@.registry.nullifiers, views(nullifiers@)),
        ensures
            final(self)@ == (PalletState {
                registry: RegistryState {
                    nullifiers: old(self)@.registry.nullifiers.union(views(nullifiers@).to_set()),
                    ..old(self)@.registry
                },
                ..old(self)@
            }),
            final(self).config_spec() == old(self).config_spec(),
    {
        let ghost s0 = self@;
        let ghost ns = views(nullifiers@);
        let mut i: usize = 0;
        proof {
            assert(ns.subrange(0, 0).to_set() =~= Set::<Seq<u8>>::empty());
            assert(s0.registry.nullifiers.union(Set::<Seq<u8>>::empty())
                =~= s0.registry.nullifiers);
        }
        while i < nullifiers.len()
            invariant
                i <= ns.len(),
                ns == views(nullifiers@),
                ns.no_duplicates(),
                !any_used(s0.registry.nullifiers, ns),
                self.config == old(self).config,
                self.accumulator == old(self).accumulator,
                self.genesis_initialized == old(self).genesis_initialized,
                self.registry@ == (RegistryState {
                    nullifiers: s0.registry.nullifiers.union(ns.subrange(0, i as int).to_set()),
                    ..s0.registry
                }),
            decreases ns.len() - i,
        {
            let n = nullifiers[i];
            proof {
                assert(ns[i as int] == n@);
                assert(!s0.registry.nullifiers.contains(ns[i as int]));
                if ns.subrange(0, i as int).contains(n@) {
                    let k = choose|k: int| 0 <= k < i && ns.subrange(0, i as int)[k] == n@;
                    assert(ns[k] == ns[i as int]);
                }
                lemma_prefix_contains(ns, i as int);
            }
            let marked = self.registry.mark_nullifier_used(n);
            proof {
                assert(marked is Ok);
                assert(self.registry@.nullifiers =~= s0.registry.nullifiers.union(
                    ns.subrange(0, i + 1).to_set(),
                ));
            }
            i += 1;
        }
        assert(ns.subrange(0, i as int) =~= ns);
    }

    /// Applies a shielded transaction whose range proof and balance proof the
    /// verifier accepted or not, as `range_ok` and `balance_ok` say.
    ///
    /// The transaction passes the admission sequence, its proofs must have been
    /// accepted, and every input must be included under the anchor. Then its
    /// nullifiers and its fee nullifier are marked used, its fee escrow is
    /// consumed, and its outputs are appended, indexed and covered by the new
    /// root. A refused transaction changes nothing.
    pub fn settle(
        &mut self,
        proof_len: usize,
        range_proof_len: usize,
        public_inputs: &[u8],
        range_ok: bool,
        balance_ok: bool,
        hints_blob: Vec<u8>,
    ) -> (out: DispatchOutcome)
        requires
            old(self)@.wf(),
        ensures
            final(self)@.wf(),
            final(self).config_spec() == old(self).config_spec(),
            out.emitted() == old(self)@.settle_events(
                old(self).config_spec(),
                proof_len as nat,
                range_proof_len as nat,
                public_inputs@,
                range_ok,
                balance_ok,
                hints_blob@,
            ),
            match old(self)@.settle_error(
                old(self).config_spec(),
                proof_len as nat,
                range_proof_len as nat,
                public_inputs@,
                range_ok,
                balance_ok,
            ) {
                Some(error) => out.result == Err::<(), Error>(error) && final(self)@ == old(self)@,
                None => out.result == Ok::<(), Error>(()) && final(self)@ == old(self)@.settled(
                    decode_inputs(public_inputs@).unwrap(),
                ),
            },
    {
        let ghost s0 = self@;
        let mut events: Vec<Event> = Vec::new();
        assert(event_views(events@) =~= Seq::<EventView>::empty());
        let inputs = match self.precheck(proof_len, range_proof_len, public_inputs) {
            Ok(inputs) => inputs,
            Err(rejection) => {
                return DispatchOutcome { result: Err(rejection.to_dispatch_error()), events };
            },
        };
        if inputs.new_commitments.len() > self.config.max_outputs as usize {
            return DispatchOutcome { result: Err(Error::ProofVerificationFailed), events };
        }
        if !range_ok {
            return DispatchOutcome { result: Err(Error::ProofVerificationFailed), events };
        }
        events.push(Event::RangeProofVerified);
        assert(event_views(events@) =~= seq![EventView::RangeProofVerified]);
        if !balance_ok {
            events.push(Event::ProofRejected);
            assert(event_views(events@) =~= seq![
                EventView::RangeProofVerified,
                EventView::ProofRejected,
            ]);
            return DispatchOutcome { result: Err(Error::ProofVerificationFailed), events };
        }
        if !self.check_inputs_included(&inputs) {
            return DispatchOutcome { result: Err(Error::ProofVerificationFailed), events };
        }
        if !self.registry.is_fee_escrowed(&inputs.fee_commitment) {
            return DispatchOutcome { result: Err(Error::ProofVerificationFailed), events };
        }
        if !self.check_all_fresh(&inputs.new_commitments) {
            return DispatchOutcome { result: Err(Error::ProofVerificationFailed), events };
        }
        let held = self.accumulator.len();
        if MAX_LEAVES - held < inputs.new_commitments.len() {
            return DispatchOutcome { result: Err(Error::CapacityExceeded), events };
        }
        let root = self.root_with(&inputs.new_commitments);
        if !is_zero_hash(&inputs.new_merkle_root) && !hash_eq(&inputs.new_merkle_root, &root) {
            return DispatchOutcome { result: Err(Error::ProofVerificationFailed), events };
        }
        self.mark_all_used(&inputs.nullifiers);
        let fee_marked = self.registry.mark_fee_nullifier_used(inputs.fee_nullifier);
        assert(fee_marked is Ok);
        let consumed = self.registry.consume_fee_escrow(inputs.fee_commitment);
        assert(consumed is Ok);
        self.apply_leaves(&inputs.new_commitments, root);
        assert(self@ == s0.settled(inputs@));
        events.push(
            Event::ProofAccepted {
                tx_id: inputs.tx_id,
                new_merkle_root: root,
                outputs: inputs.new_commitments,
                hints_blob,
            },
        );
        let out = DispatchOutcome { result: Ok(()), events };
        assert(out.emitted() =~= seq![
            EventView::RangeProofVerified,
            EventView::ProofAccepted {
                tx_id: inputs@.tx_id,
                new_merkle_root: s0.root_with(inputs@.new_commitments),
                outputs: inputs@.new_commitments,
                hints_blob: hints_blob@,
            },
        ]);
        out
    }

    /// Whether `V` accepts the range proof of a transaction that passes the
    /// admission sequence and has no more outputs than allowed; `false`,
    /// without asking `V`, for every other transaction.
    fn range_proof_accepted<V: ProofVerify>(
        &self,
        proof_len: usize,
        range_proof: &[u8],
        public_inputs: &[u8],
    ) -> (ok: bool)
        ensures
            ok == ({
                &&& self@.first_rejection(
                    self.config_spec(),
                    proof_len as nat,
                    range_proof@.len(),
                    public_inputs@,
                ) is None
                &&& decode_inputs(public_inputs@).unwrap().new_commitments.len()
                    <= self.config_spec().max_outputs
                &&& V::range_holds(
                    range_proof@,
                    proven_commitments(public_inputs@),
                    public_inputs@,
                    VALUE_BITS,
                )
            }),
    {
        let inputs = match self.precheck(proof_len, range_proof.len(), public_inputs) {
            Ok(inputs) => inputs,
            Err(_) => {
                return false;
            },
        };
        if inputs.new_commitments.len() > self.config.max_outputs as usize {
            return false;
        }
        let mut proven = copy_hashes(&inputs.new_commitments);
        proven.push(inputs.fee_commitment);
        proof {
            lemma_views_push(inputs.new_commitments@, inputs.fee_commitment);
        }
        V::verify_range_proof(range_proof, proven.as_slice(), public_inputs, VALUE_BITS)
    }

    /// Applies a shielded transaction.
    ///
    /// The range proof is verified over the outputs followed by the fee
    /// commitment, then the balance proof; a transaction that fails the
    /// admission sequence is refused before any proof is looked at. What
    /// follows is what [`Pallet::settle`] does with the two verdicts.
    ///
    /// This is an operation without a signer: whoever proves may submit. After
    /// an applied transaction the caller pays [`Pallet::author_payout`] to the
    /// block author and reports the payment with
    /// [`fee_payout_event`](crate::events::fee_payout_event); a payment that
    /// fails is reported and undoes nothing.
    pub fn submit_proof<V: ProofVerify>(
        &mut self,
        proof: &[u8],
        range_proof: &[u8],
        public_inputs: &[u8],
        hints_blob: Vec<u8>,
    ) -> (out: DispatchOutcome)
        requires
            old(self)@.wf(),
        ensures
            final(self)@.wf(),
            final(self).config_spec() == old(self).config_spec(),
            out.emitted() == old(self)@.submit_events::<V>(
                old(self).config_spec(),
                proof@,
                range_proof@,
                public_inputs@,
                hints_blob@,
            ),
            match old(self)@.submit_error::<V>(
                old(self).config_spec(),
                proof@,
                range_proof@,
                public_inputs@,
            ) {
                Some(error) => out.result == Err::<(), Error>(error) && final(self)@ == old(self)@,
                None => out.result == Ok::<(), Error>(()) && final(self)@ == old(self)@.settled(
                    decode_inputs(public_inputs@).unwrap(),
                ),
            },
    {
        let range_ok = self.range_proof_accepted::<V>(proof.len(), range_proof, public_inputs);
        let balance_ok = range_ok && V::verify(proof, public_inputs);
        self.settle(proof.len(), range_proof.len(), public_inputs, range_ok, balance_ok, hints_blob)
    }
}

impl Pallet {
    /// The ledger laid out as lists.
    pub fn snapshot(&self) -> (snapshot: Snapshot)
        ensures
            snapshot.state() == self@,
    {
        Snapshot {
            leaves: copy_hashes(self.accumulator.leaves()),
            current_root: self.accumulator.current_root(),
            recent_roots: copy_hashes(self.accumulator.recent_roots()),
            root_leaf_count: self.accumulator.root_leaf_counts().to_entries(),
            nullifiers: self.registry.nullifiers().to_vec(),
            fee_nullifiers: self.registry.fee_nullifiers().to_vec(),
            faucet: self.registry.faucet().to_vec(),
            fee_escrow: self.registry.fee_escrow().to_entries(),
            commitment_index: self.registry.commitment_indices().to_entries(),
            genesis_initialized: self.genesis_initialized,
        }
    }

    /// Whether every indexed commitment has its leaf at its index.
    fn check_indices(leaves: &Vec<[u8; 32]>, index: &KeyMap<u32>) -> (ok: bool)
        ensures
            ok == (forall|c: Seq<u8>| #[trigger]
                index@.contains_key(c) ==> {
                    &&& index@[c] < leaves@.len()
                    &&& views(leaves@)[index@[c] as int] == leaf_digest(c)
                }),
    {
        proof {
            index.lemma_keys();
        }
        let mut i: usize = 0;
        while i < index.len()
            invariant
                i <= index.keys().len(),
                forall|j: int|
                    0 <= j < i ==> {
                        &&& index@[#[trigger] index.keys()[j]] < leaves@.len()
                        &&& views(leaves@)[index@[index.keys()[j]] as int] == leaf_digest(
                            index.keys()[j],
                        )
                    },
            decreases index.keys().len() - i,
        {
            let key = index.key_at(i);
            proof {
                index.lemma_keys();
                assert(index.keys().contains(index.keys()[i as int]));
                assert(index@.contains_key(key@));
            }
            let at = match index.get(&key) {
                Some(at) => at,
                None => {
                    return false;
                },
            };
            if at as usize >= leaves.len() {
                assert(index@.contains_key(key@));
                return false;
            }
            let leaf = leaf_hash(key);
            if !hash_eq(&leaves[at as usize], &leaf) {
                assert(index@.contains_key(key@));
                assert(views(leaves@)[at as int] == leaves@[at as int]@);
                return false;
            }
            i += 1;
        }
        assert forall|c: Seq<u8>| #[trigger] index@.contains_key(c) implies {
            &&& index@[c] < leaves@.len()
            &&& views(leaves@)[index@[c] as int] == leaf_digest(c)
        } by {
            index.lemma_keys();
            assert(index.keys().contains(c));
            let j = choose|j: int| 0 <= j < index.keys().len() && index.keys()[j] == c;
            assert(index.keys()[j] == c);
        }
        true
    }

    /// The ledger that `snapshot` stands for, if that is a well-formed
    /// ledger: the accumulator is within its bounds, the current root is the
    /// Merkle root of the leaves and is recorded with their number, and every
    /// indexed commitment has its leaf at its index.
    pub fn restore(config: Config, snapshot: Snapshot) -> (r: Option<Pallet>)
        ensures
            match r {
                Some(pallet) => {
                    &&& pallet@ == snapshot.state()
                    &&& pallet@.wf()
                    &&& pallet.config_spec() == config
                },
                None => !snapshot.state().wf(),
            },
    {
        let ghost state = snapshot.state();
        if snapshot.leaves.len() > MAX_LEAVES || snapshot.recent_roots.len() > ROOT_WINDOW {
            return None;
        }
        let root = compute_merkle_root(snapshot.leaves.as_slice());
        if !hash_eq(&root, &snapshot.current_root) {
            return None;
        }
        let counts = KeyMap::from_entries(snapshot.root_leaf_count);
        let covered = match counts.get(&snapshot.current_root) {
            Some(count) => count,
            None => 0,
        };
        if covered as usize != snapshot.leaves.len() {
            return None;
        }
        let index = KeyMap::from_entries(snapshot.commitment_index);
        assert(index@ == state.registry.commitment_index);
        assert(views(snapshot.leaves@) == state.accumulator.leaves);
        if !Self::check_indices(&snapshot.leaves, &index) {
            assert(!state.wf());
            return None;
        }
        let accumulator = Accumulator::from_parts(
            snapshot.leaves,
            snapshot.current_root,
            snapshot.recent_roots,
            counts,
        );
        let registry = Registry::from_parts(
            KeySet::from_vec(snapshot.nullifiers),
            KeySet::from_vec(snapshot.fee_nullifiers),
            KeySet::from_vec(snapshot.faucet),
            KeyMap::from_entries(snapshot.fee_escrow),
            index,
        );
        let pallet = Pallet {
            config,
            accumulator,
            registry,
            genesis_initialized: snapshot.genesis_initialized,
        };
        assert(pallet@ == state);
        Some(pallet)
    }
}

} // verus!
