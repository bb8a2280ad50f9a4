//! The kinds of failure that the engine tells apart.

use vstd::prelude::*;
use crate::directory::DirectoryError;

verus! {

/// The class of a failure. None of them stops the engine.
#[derive(Debug, Clone, Copy, PartialEq, Eq, Structural)]
pub enum ErrorKind {
    /// A record or a file is not there.
    NotFound,
    /// The request makes no sense as it stands: a non-positive amount, too little money,
    /// an unknown item or player, a number that cannot be read.
    Validation,
    /// Reading or writing storage failed.
    IoFailure,
    /// The directory of players could not be asked.
    DirectoryFailure,
    /// The other end of a channel is gone.
    ChannelClosed,
}

/// Why a payment was refused.
#[derive(Debug, Clone, Copy, PartialEq, Eq, Structural)]
pub enum PayError {
    /// The directory gave no identifier for the payer's name.
    PayerUnresolved(DirectoryError),
    /// The directory gave no identifier for the payee's name.
    PayeeUnresolved(DirectoryError),
    /// The payer has no account.
    PayerMissing,
    /// The amount is zero or negative.
    AmountNotPositive,
    /// The payer has less than the amount.
    InsufficientBalance { required: i64, available: i64 },
}

impl PayError {
    /// The class of this refusal.
    pub open spec fn spec_kind(self) -> ErrorKind {
        match self {
            PayError::PayerMissing => ErrorKind::NotFound,
            _ => ErrorKind::Validation,
        }
    }

    /// The class of this refusal: `NotFound` for a payer without account, `Validation`
    /// for everything else.
    pub fn kind(&self) -> (k: ErrorKind)
        ensures
            k == self.spec_kind(),
    {
        match self {
            PayError::PayerMissing => ErrorKind::NotFound,
            _ => ErrorKind::Validation,
        }
    }
}

} // verus!
