//! The verdict of the pool-admission check.

use vstd::prelude::*;

verus! {

/// Why a candidate transaction is not admitted to the pool.
#[derive(Clone, Copy, Debug, PartialEq, Eq, Structural)]
pub enum InvalidTransaction {
    /// The public inputs cannot be decoded.
    Call,
    /// The anchor is outside the window of recent roots, or a nullifier is
    /// already used.
    Stale,
    /// The inputs do not line up, or nullifiers collide.
    BadMandatory,
    /// A proof is longer than the configured maximum.
    ExhaustsResources,
}

/// The priority given to every admitted transaction.
pub const POOL_PRIORITY: u64 = 100;

/// The number of blocks for which an admission stays trusted.
pub const POOL_LONGEVITY: u64 = 64;

/// What the pool learns of an admitted transaction.
#[derive(Clone, Debug, PartialEq, Eq)]
pub struct ValidTransaction {
    /// The priority among pending transactions.
    pub priority: u64,
    /// The tags this transaction provides. Two pending transactions that
    /// provide a common tag exclude one another.
    pub provides: Vec<Vec<u8>>,
    /// The number of blocks for which the admission stays trusted.
    pub longevity: u64,
    /// Whether the transaction is passed on to peers.
    pub propagate: bool,
}

/// An admitted transaction as mathematical values.
pub struct ValidTransactionView {
    pub priority: u64,
    pub provides: Seq<Seq<u8>>,
    pub longevity: u64,
    pub propagate: bool,
}

/// The byte sequences held by a list of tags.
pub open spec fn tag_views(tags: Seq<Vec<u8>>) -> Seq<Seq<u8>> {
    Seq::new(tags.len(), |i: int| tags[i]@)
}

impl View for ValidTransaction {
    type V = ValidTransactionView;

    open spec fn view(&self) -> ValidTransactionView {
        ValidTransactionView {
            priority: self.priority,
            provides: tag_views(self.provides@),
            longevity: self.longevity,
            propagate: self.propagate,
        }
    }
}

} // verus!
