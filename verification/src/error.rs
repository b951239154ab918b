//! Failures that a request can end in.

use vstd::prelude::*;

verus! {

/// Why a request was turned down.
#[derive(Clone, Copy, Debug, PartialEq, Eq, Structural)]
pub enum Error {
    /// The identity to register is already in the registry.
    AlreadyRegistered,
    /// The identity to deregister is not in the registry.
    NotRegistered,
    /// An election was asked for while no sequencer is registered.
    NoSequencersAvailable,
    /// A block was submitted while no round is open.
    NoActiveRound,
    /// A block was submitted by a rollup that is not registered.
    UnregisteredRollup,
}

impl Error {
    /// Whether the same request may succeed later without being changed:
    /// true of the failures that say the service has nothing to offer yet.
    pub open spec fn retryable(self) -> bool {
        self == Error::NoSequencersAvailable || self == Error::NoActiveRound
    }

    /// The HTTP status under which the failure is reported: a conflict for a
    /// registration that is already there and for a block that finds no open
    /// round, not found for a deregistration of what is not there, forbidden
    /// for a block of an unregistered rollup, and service unavailable while
    /// there is nobody to elect.
    pub open spec fn status_code(self) -> u16 {
        match self {
            Error::AlreadyRegistered => 409,
            Error::NotRegistered => 404,
            Error::NoSequencersAvailable => 503,
            Error::NoActiveRound => 409,
            Error::UnregisteredRollup => 403,
        }
    }

    /// Computes [`Error::status_code`].
    pub fn status(&self) -> (code: u16)
        ensures
            code == self.status_code(),
    {
        match self {
            Error::AlreadyRegistered => 409,
            Error::NotRegistered => 404,
            Error::NoSequencersAvailable => 503,
            Error::NoActiveRound => 409,
            Error::UnregisteredRollup => 403,
        }
    }

    /// Computes [`Error::retryable`].
    pub fn is_retryable(&self) -> (answer: bool)
        ensures
            answer == self.retryable(),
    {
        match self {
            Error::NoSequencersAvailable => true,
            Error::NoActiveRound => true,
            Error::AlreadyRegistered => false,
            Error::NotRegistered => false,
            Error::UnregisteredRollup => false,
        }
    }
}

} // verus!
