//! A ledger laid out as plain lists, as a host keeps it in its store.

use vstd::prelude::*;
use crate::accumulator::AccumulatorState;
use crate::bytes::views;
use crate::admission::PalletState;
use crate::registry::RegistryState;
use crate::store::entries_map;

verus! {

/// What a ledger holds, as lists. A set is listed in any order; of the
/// entries listed for one key of a map the last counts.
#[derive(Clone, Debug, PartialEq, Eq)]
pub struct Snapshot {
    pub leaves: Vec<[u8; 32]>,
    pub current_root: [u8; 32],
    pub recent_roots: Vec<[u8; 32]>,
    pub root_leaf_count: Vec<([u8; 32], u32)>,
    pub nullifiers: Vec<[u8; 32]>,
    pub fee_nullifiers: Vec<[u8; 32]>,
    pub faucet: Vec<[u8; 32]>,
    pub fee_escrow: Vec<([u8; 32], bool)>,
    pub commitment_index: Vec<([u8; 32], u32)>,
    pub genesis_initialized: bool,
}

impl Snapshot {
    /// The ledger that the lists stand for.
    pub open spec fn state(&self) -> PalletState {
        PalletState {
            accumulator: AccumulatorState {
                leaves: views(self.leaves@),
                current_root: self.current_root@,
                recent_roots: views(self.recent_roots@),
                root_leaf_count: entries_map(self.root_leaf_count@),
            },
            registry: RegistryState {
                nullifiers: views(self.nullifiers@).to_set(),
                fee_nullifiers: views(self.fee_nullifiers@).to_set(),
                faucet: views(self.faucet@).to_set(),
                fee_escrow: entries_map(self.fee_escrow@),
                commitment_index: entries_map(self.commitment_index@),
            },
            genesis_initialized: self.genesis_initialized,
        }
    }
}

} // verus!
