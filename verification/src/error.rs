//! Failures the drain pipeline can meet.

use vstd::prelude::*;

verus! {

/// Why a call to the queue service failed.
#[derive(Clone, Copy, Debug, PartialEq, Eq, Structural)]
pub enum QueueError {
    /// Transient network or service failure; the caller may try again later.
    Unavailable,
    /// The service refused the credentials; no further call can succeed.
    Unauthorized,
}

impl QueueError {
    /// Whether the error ends the run: only a refusal of the credentials does.
    pub fn is_fatal(&self) -> (fatal: bool)
        ensures
            fatal == (*self == QueueError::Unauthorized),
    {
        match self {
            QueueError::Unauthorized => true,
            QueueError::Unavailable => false,
        }
    }
}

/// One receive round that ended in an error instead of a batch.
#[derive(Clone, Copy, Debug, PartialEq, Eq, Structural)]
pub struct RoundFailure {
    /// The round, counted from zero in launch order.
    pub round: u64,
    /// What the queue service answered.
    pub error: QueueError,
}

/// The sink could not write the collection; `message` is the sink's own account of it.
#[derive(Clone, Debug, PartialEq, Eq)]
pub struct IoError {
    pub message: String,
}

} // verus!
