//! The registry of nullifiers and commitments.
//!
//! It records which nullifiers and fee nullifiers are used, which commitments
//! are faucet commitments, which fee commitments are escrowed, and the leaf
//! index of every commitment in the accumulator. Nothing is ever removed: a
//! nullifier, once used, stays used.

use vstd::prelude::*;
use crate::error::Error;
use crate::store::{KeyMap, KeySet};

verus! {

/// What a registry holds.
pub struct RegistryState {
    /// The nullifiers that are used.
    pub nullifiers: Set<Seq<u8>>,
    /// The fee nullifiers that are used.
    pub fee_nullifiers: Set<Seq<u8>>,
    /// The faucet commitments.
    pub faucet: Set<Seq<u8>>,
    /// The fee commitments ever escrowed: `true` while the escrow can still be
    /// consumed, `false` after.
    pub fee_escrow: Map<Seq<u8>, bool>,
    /// The leaf index of every commitment in the accumulator.
    pub commitment_index: Map<Seq<u8>, u32>,
}

impl RegistryState {
    /// The registry that holds nothing.
    pub open spec fn empty() -> RegistryState {
        RegistryState {
            nullifiers: Set::empty(),
            fee_nullifiers: Set::empty(),
            faucet: Set::empty(),
            fee_escrow: Map::empty(),
            commitment_index: Map::empty(),
        }
    }

    /// Whether the escrow of `commitment` can be consumed.
    pub open spec fn is_fee_escrowed(self, commitment: Seq<u8>) -> bool {
        self.fee_escrow.contains_key(commitment) && self.fee_escrow[commitment]
    }

    /// The registry with all of `more` among the faucet commitments.
    pub open spec fn with_faucets(self, more: Seq<Seq<u8>>) -> RegistryState {
        RegistryState { faucet: self.faucet.union(more.to_set()), ..self }
    }
}

/// The registry.
pub struct Registry {
    nullifiers: KeySet,
    fee_nullifiers: KeySet,
    faucet: KeySet,
    fee_escrow: KeyMap<bool>,
    commitment_index: KeyMap<u32>,
}

impl View for Registry {
    type V = RegistryState;

    closed spec fn view(&self) -> RegistryState {
        RegistryState {
            nullifiers: self.nullifiers@,
            fee_nullifiers: self.fee_nullifiers@,
            faucet: self.faucet@,
            fee_escrow: self.fee_escrow@,
            commitment_index: self.commitment_index@,
        }
    }
}

impl Registry {
    /// The registry that holds nothing.
    pub fn new() -> (reg: Self)
        ensures
            reg@ == RegistryState::empty(),
    {
        Registry {
            nullifiers: KeySet::new(),
            fee_nullifiers: KeySet::new(),
            faucet: KeySet::new(),
            fee_escrow: KeyMap::new(),
            commitment_index: KeyMap::new(),
        }
    }

    /// The registry that holds the given parts.
    pub fn from_parts(
        nullifiers: KeySet,
        fee_nullifiers: KeySet,
        faucet: KeySet,
        fee_escrow: KeyMap<bool>,
        commitment_index: KeyMap<u32>,
    ) -> (reg: Self)
        ensures
            reg@ == (RegistryState {
                nullifiers: nullifiers@,
                fee_nullifiers: fee_nullifiers@,
                faucet: faucet@,
                fee_escrow: fee_escrow@,
                commitment_index: commitment_index@,
            }),
    {
        Registry { nullifiers, fee_nullifiers, faucet, fee_escrow, commitment_index }
    }

    /// The used nullifiers.
    pub fn nullifiers(&self) -> (set: &KeySet)
        ensures
            set@ == self@.nullifiers,
    {
        &self.nullifiers
    }

    /// The used fee nullifiers.
    pub fn fee_nullifiers(&self) -> (set: &KeySet)
        ensures
            set@ == self@.fee_nullifiers,
    {
        &self.fee_nullifiers
    }

    /// The faucet commitments.
    pub fn faucet(&self) -> (set: &KeySet)
        ensures
            set@ == self@.faucet,
    {
        &self.faucet
    }

    /// The fee commitments ever escrowed, with their flags.
    pub fn fee_escrow(&self) -> (map: &KeyMap<bool>)
        ensures
            map@ == self@.fee_escrow,
    {
        &self.fee_escrow
    }

    /// The leaf indices of the commitments.
    pub fn commitment_indices(&self) -> (map: &KeyMap<u32>)
        ensures
            map@ == self@.commitment_index,
    {
        &self.commitment_index
    }

    /// Whether `nullifier` is used.
    pub fn is_nullifier_used(&self, nullifier: &[u8; 32]) -> (used: bool)
        ensures
            used == self@.nullifiers.contains(nullifier@),
    {
        self.nullifiers.contains(nullifier)
    }

    /// Whether `nullifier` is used as a fee nullifier.
    pub fn is_fee_nullifier_used(&self, nullifier: &[u8; 32]) -> (used: bool)
        ensures
            used == self@.fee_nullifiers.contains(nullifier@),
    {
        self.fee_nullifiers.contains(nullifier)
    }

    /// Marks `nullifier` used; fails, and changes nothing, if it already is.
    pub fn mark_nullifier_used(&mut self, nullifier: [u8; 32]) -> (r: Result<(), Error>)
        ensures
            old(self)@.nullifiers.contains(nullifier@) ==> r == Err::<(), Error>(
                Error::NullifierAlreadyUsed,
            ) && final(self)@ == old(self)@,
            !old(self)@.nullifiers.contains(nullifier@) ==> r == Ok::<(), Error>(()) && final(self)@ == (RegistryState {
                nullifiers: old(self)@.nullifiers.insert(nullifier@),
                ..old(self)@
            }),
    {
        if self.nullifiers.contains(&nullifier) {
            return Err(Error::NullifierAlreadyUsed);
        }
        self.nullifiers.insert(nullifier);
        Ok(())
    }

    /// Marks `nullifier` used as a fee nullifier; fails, and changes nothing,
    /// if it already is.
    pub fn mark_fee_nullifier_used(&mut self, nullifier: [u8; 32]) -> (r: Result<(), Error>)
        ensures
            old(self)@.fee_nullifiers.contains(nullifier@) ==> r == Err::<(), Error>(
                Error::FeeNullifierAlreadyUsed,
            ) && final(self)@ == old(self)@,
            !old(self)@.fee_nullifiers.contains(nullifier@) ==> r == Ok::<(), Error>(()) && final(self)@ == (RegistryState {
                fee_nullifiers: old(self)@.fee_nullifiers.insert(nullifier@),
                ..old(self)@
            }),
    {
        if self.fee_nullifiers.contains(&nullifier) {
            return Err(Error::FeeNullifierAlreadyUsed);
        }
        self.fee_nullifiers.insert(nullifier);
        Ok(())
    }

    /// The leaf index of `commitment`, if it is in the accumulator.
    pub fn commitment_index(&self, commitment: &[u8; 32]) -> (index: Option<u32>)
        ensures
            index == (if self@.commitment_index.contains_key(commitment@) {
                Some(self@.commitment_index[commitment@])
            } else {
                None
            }),
    {
        self.commitment_index.get(commitment)
    }

    /// Records `index` as the leaf index of `commitment`; fails, and changes
    /// nothing, if the commitment already has one.
    pub fn register_commitment_index(&mut self, commitment: [u8; 32], index: u32) -> (r: Result<
        (),
        Error,
    >)
        ensures
            old(self)@.commitment_index.contains_key(commitment@) ==> r == Err::<(), Error>(
                Error::ProofVerificationFailed,
            ) && final(self)@ == old(self)@,
            !old(self)@.commitment_index.contains_key(commitment@) ==> r == Ok::<(), Error>(())
                && final(self)@ == (RegistryState {
                commitment_index: old(self)@.commitment_index.insert(commitment@, index),
                ..old(self)@
            }),
    {
        if self.commitment_index.contains_key(&commitment) {
            return Err(Error::ProofVerificationFailed);
        }
        self.commitment_index.insert(commitment, index);
        Ok(())
    }

    /// Whether `commitment` is a faucet commitment.
    pub fn is_faucet(&self, commitment: &[u8; 32]) -> (found: bool)
        ensures
            found == self@.faucet.contains(commitment@),
    {
        self.faucet.contains(commitment)
    }

    /// Makes `commitment` a faucet commitment; nothing changes if it is one.
    pub fn seed_faucet(&mut self, commitment: [u8; 32])
        ensures
            final(self)@ == (RegistryState {
                faucet: old(self)@.faucet.insert(commitment@),
                ..old(self)@
            }),
    {
        self.faucet.insert(commitment);
    }

    /// Whether the escrow of `commitment` can be consumed.
    pub fn is_fee_escrowed(&self, commitment: &[u8; 32]) -> (escrowed: bool)
        ensures
            escrowed == self@.is_fee_escrowed(commitment@),
    {
        match self.fee_escrow.get(commitment) {
            Some(open) => open,
            None => false,
        }
    }

    /// Escrows the fee commitment `commitment`.
    pub fn escrow_fee(&mut self, commitment: [u8; 32])
        ensures
            final(self)@ == (RegistryState {
                fee_escrow: old(self)@.fee_escrow.insert(commitment@, true),
                ..old(self)@
            }),
    {
        self.fee_escrow.insert(commitment, true);
    }

    /// Consumes the escrow of `commitment`; fails, and changes nothing, if the
    /// commitment was never escrowed or its escrow is consumed already.
    pub fn consume_fee_escrow(&mut self, commitment: [u8; 32]) -> (r: Result<(), Error>)
        ensures
            !old(self)@.is_fee_escrowed(commitment@) ==> r == Err::<(), Error>(
                Error::ProofVerificationFailed,
            ) && final(self)@ == old(self)@,
            old(self)@.is_fee_escrowed(commitment@) ==> r == Ok::<(), Error>(()) && final(self)@
                == (RegistryState {
                fee_escrow: old(self)@.fee_escrow.insert(commitment@, false),
                ..old(self)@
            }),
    {
        if !self.is_fee_escrowed(&commitment) {
            return Err(Error::ProofVerificationFailed);
        }
        self.fee_escrow.insert(commitment, false);
        Ok(())
    }
}

} // verus!
