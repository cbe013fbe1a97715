//! What a dispatch reports: its result and the events it emitted.

use vstd::prelude::*;
use crate::bytes::views;
use crate::error::Error;

verus! {

/// An event of the ledger.
#[derive(Clone, Debug, PartialEq, Eq)]
#[allow(inconsistent_fields)]
pub enum Event {
    /// A shielded transaction was applied.
    ProofAccepted {
        tx_id: [u8; 16],
        new_merkle_root: [u8; 32],
        outputs: Vec<[u8; 32]>,
        hints_blob: Vec<u8>,
    },
    /// The balance proof of a shielded transaction did not verify.
    ProofRejected,
    /// A fee commitment was escrowed.
    FeeDeposited { commitment: [u8; 32] },
    /// The range proof of a shielded transaction verified.
    RangeProofVerified,
    /// The block author was paid its share of the fee.
    FeePaid { author: Vec<u8>, amount: u128 },
    /// Paying the block author its share of the fee failed.
    FeePayoutFailed { author: Vec<u8>, amount: u128 },
    /// A public deposit was applied.
    DepositAccepted {
        commitment: [u8; 32],
        amount: u64,
        new_merkle_root: [u8; 32],
        hints_blob: Vec<u8>,
    },
}

/// An event as mathematical values.
#[allow(inconsistent_fields)]
pub enum EventView {
    ProofAccepted {
        tx_id: Seq<u8>,
        new_merkle_root: Seq<u8>,
        outputs: Seq<Seq<u8>>,
        hints_blob: Seq<u8>,
    },
    ProofRejected,
    FeeDeposited { commitment: Seq<u8> },
    RangeProofVerified,
    FeePaid { author: Seq<u8>, amount: u128 },
    FeePayoutFailed { author: Seq<u8>, amount: u128 },
    DepositAccepted {
        commitment: Seq<u8>,
        amount: u64,
        new_merkle_root: Seq<u8>,
        hints_blob: Seq<u8>,
    },
}

impl View for Event {
    type V = EventView;

    open spec fn view(&self) -> EventView {
        match *self {
            Event::ProofAccepted { tx_id, new_merkle_root, outputs, hints_blob } => {
                EventView::ProofAccepted {
                    tx_id: tx_id@,
                    new_merkle_root: new_merkle_root@,
                    outputs: views(outputs@),
                    hints_blob: hints_blob@,
                }
            },
            Event::ProofRejected => EventView::ProofRejected,
            Event::FeeDeposited { commitment } => EventView::FeeDeposited {
                commitment: commitment@,
            },
            Event::RangeProofVerified => EventView::RangeProofVerified,
            Event::FeePaid { author, amount } => EventView::FeePaid { author: author@, amount },
            Event::FeePayoutFailed { author, amount } => EventView::FeePayoutFailed {
                author: author@,
                amount,
            },
            Event::DepositAccepted { commitment, amount, new_merkle_root, hints_blob } => {
                EventView::DepositAccepted {
                    commitment: commitment@,
                    amount,
                    new_merkle_root: new_merkle_root@,
                    hints_blob: hints_blob@,
                }
            },
        }
    }
}

/// The events of a list as mathematical values.
pub open spec fn event_views(events: Seq<Event>) -> Seq<EventView> {
    Seq::new(events.len(), |i: int| events[i]@)
}

/// The outcome of a dispatch: whether it was applied, and the events it
/// emitted on the way. When the result is an error the ledger is unchanged.
#[derive(Debug)]
pub struct DispatchOutcome {
    pub result: Result<(), Error>,
    pub events: Vec<Event>,
}

impl DispatchOutcome {
    /// The events as mathematical values.
    pub open spec fn emitted(&self) -> Seq<EventView> {
        event_views(self.events@)
    }
}

/// The event that reports how paying `amount` to `author` went.
pub fn fee_payout_event(author: Vec<u8>, amount: u128, paid: bool) -> (event: Event)
    ensures
        event@ == (if paid {
            EventView::FeePaid { author: author@, amount }
        } else {
            EventView::FeePayoutFailed { author: author@, amount }
        }),
{
    if paid {
        Event::FeePaid { author, amount }
    } else {
        Event::FeePayoutFailed { author, amount }
    }
}

} // verus!
