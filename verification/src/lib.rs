//! Ledger core of a shielded transaction pool.
//!
//! The crate holds an append-only Merkle accumulator of commitments with a
//! bounded window of recent roots, the registry of spent nullifiers and
//! escrowed fee commitments, the verifier for Pedersen openings, balance
//! proofs and aggregated range proofs, the pool-admission check, and the
//! dispatch path that applies a deposit or a shielded transaction to the
//! ledger state.
//!
//! The ledger is [`pallet::Pallet`]. What it holds is described by
//! [`admission::PalletState`], what its operations decide and leave behind by
//! the functions of [`admission`] and [`dispatch`], and what holds of every
//! ledger and every transaction is proved in [`laws`]. The ledger does no
//! input or output of its own: funds are moved and events are deposited by
//! the host, which keeps the ledger in its store as a [`snapshot::Snapshot`].
//!
//! Hashing, group arithmetic, transcripts and the range-proof protocol are
//! taken from other crates. Each such call sits behind a small function whose
//! contract is stated, not proved; everything built on top of them is proved
//! against those contracts. These functions are in [`hashing`], [`group`],
//! [`rangeproof`] and [`fees`].

pub mod accumulator;
pub mod admission;
pub mod bytes;
pub mod dispatch;
pub mod encoding;
pub mod error;
pub mod events;
pub mod fees;
pub mod group;
pub mod hashing;
pub mod inputs;
pub mod laws;
pub mod merkle;
pub mod pallet;
pub mod proofs;
pub mod rangeproof;
pub mod registry;
pub mod rng;
pub mod snapshot;
pub mod store;
pub mod validity;
