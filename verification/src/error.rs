//! Error taxonomy of the wallet engine.
//!
//! Recoverable errors leave the wallet in its pre-call state; fatal
//! errors indicate accumulator or persistence-format corruption and
//! callers must stop mutating the affected wallet.

use vstd::prelude::*;

verus! {

#[derive(Clone, Copy, PartialEq, Eq, Structural, Debug)]
pub enum WalletError {
    /// Input validation: a string that is not valid hexadecimal.
    InvalidHex,
    /// Input validation: a byte buffer whose length does not match the format.
    WrongLength,
    /// Input validation: a malformed account-name identifier.
    BadIdentifier,
    /// Input validation: a transfer intent the engine cannot resolve
    /// (wrong note kind for the operation).
    InvalidIntent,
    /// State consistency: a witness was requested for a leaf not yet appended.
    NotYetInserted,
    /// The accumulator holds its maximum number of leaves.
    CapacityExceeded,
    /// Note selection cannot cover the requested amount plus fee.
    InsufficientFunds,
    /// The fee schedule lacks its required base entry.
    MissingFeeEntry,
    /// Cryptographic: a proof slot is missing or a statement does not check.
    ProofInvalid,
    /// Fatal: two logically distinct notes share a commitment.
    CommitmentCollision,
    /// Fatal: serialized size does not match the declared size.
    SizeMismatch,
}

impl WalletError {
    /// Fatal errors mean the wallet data itself is corrupt; everything
    /// else is safe to retry with different input.
    pub open spec fn spec_is_fatal(self) -> bool {
        self == WalletError::CommitmentCollision || self == WalletError::SizeMismatch
    }

    pub fn is_fatal(&self) -> (r: bool)
        ensures
            r == self.spec_is_fatal(),
    {
        *self == WalletError::CommitmentCollision || *self == WalletError::SizeMismatch
    }
}

} // verus!
