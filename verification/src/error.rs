//! Why the ledger refuses an operation.

use vstd::prelude::*;

verus! {

/// The reason a dispatch is refused.
#[derive(Clone, Copy, Debug, PartialEq, Eq, Structural)]
pub enum Error {
    /// The inputs are malformed, a proof does not verify, an input is not
    /// included under the anchor, the fee escrow is missing, or an output is
    /// already known. The cases are not told apart on purpose.
    ProofVerificationFailed,
    /// An input nullifier is already marked used.
    NullifierAlreadyUsed,
    /// The fee nullifier is already marked used.
    FeeNullifierAlreadyUsed,
    /// The balance proof is longer than the configured maximum.
    ProofTooLarge,
    /// The range proof is longer than the configured maximum.
    RangeProofTooLarge,
    /// The accumulator holds as many leaves as it can.
    CapacityExceeded,
}

impl Error {
    /// A short text for the error.
    pub fn message(&self) -> (text: &'static str)
        ensures
            text@ == (match *self {
                Error::ProofVerificationFailed => "proof verification failed"@,
                Error::NullifierAlreadyUsed => "nullifier already used"@,
                Error::FeeNullifierAlreadyUsed => "fee nullifier already used"@,
                Error::ProofTooLarge => "proof too large"@,
                Error::RangeProofTooLarge => "range proof too large"@,
                Error::CapacityExceeded => "accumulator capacity exceeded"@,
            }),
    {
        match self {
            Error::ProofVerificationFailed => "proof verification failed",
            Error::NullifierAlreadyUsed => "nullifier already used",
            Error::FeeNullifierAlreadyUsed => "fee nullifier already used",
            Error::ProofTooLarge => "proof too large",
            Error::RangeProofTooLarge => "range proof too large",
            Error::CapacityExceeded => "accumulator capacity exceeded",
        }
    }
}

} // verus!
