//! What reading a document and trying for its lock can come to, and what a
//! store makes of either.

use crate::error::StoreError;
use vstd::prelude::*;

verus! {

/// What reading one document from disk came to.
#[derive(Debug, PartialEq, Eq)]
pub enum Fetched<T> {
    /// There is no such document.
    Absent,
    /// The document is there but does not hold what it should.
    Malformed,
    /// The document could not be read.
    Unreadable,
    /// The document, as read.
    Present(T),
}

/// What a store makes of a document it has read, where the document need
/// not be there: a missing document is none, a damaged one is a failure of
/// its own kind and never taken for a missing one.
pub open spec fn document_of<T>(fetched: Fetched<T>) -> Result<Option<T>, StoreError> {
    match fetched {
        Fetched::Absent => Ok(None),
        Fetched::Malformed => Err(StoreError::CorruptState),
        Fetched::Unreadable => Err(StoreError::IoFailure),
        Fetched::Present(document) => Ok(Some(document)),
    }
}

impl<T> Fetched<T> {
    /// The document that was read, none where there is none, or the failure
    /// that the reading came to.
    pub fn into_document(self) -> (document: Result<Option<T>, StoreError>)
        ensures
            document == document_of(self),
    {
        match self {
            Fetched::Absent => Ok(None),
            Fetched::Malformed => Err(StoreError::CorruptState),
            Fetched::Unreadable => Err(StoreError::IoFailure),
            Fetched::Present(document) => Ok(Some(document)),
        }
    }
}

/// What one try for the lock on a document came to.
#[derive(Clone, Copy, Debug, PartialEq, Eq, Structural)]
pub enum LockTry {
    /// The lock is ours.
    Taken,
    /// Somebody else holds the lock.
    Held,
    /// The try itself failed.
    Failed,
}

/// What to do after a try for a lock.
#[derive(Clone, Copy, Debug, PartialEq, Eq, Structural)]
pub enum LockStep {
    /// Go on with the operation: the lock is held.
    Proceed,
    /// Wait a little and try again.
    Retry,
    /// Give the operation up with this failure.
    GiveUp(StoreError),
}

/// What to do after a try for a lock that came to `outcome`, when
/// `waited_ms` milliseconds have been spent waiting and `patience_ms` may be
/// spent: a held lock is tried for again until the patience is used up,
/// and then the operation is given up as busy rather than left to wait for
/// ever.
pub open spec fn lock_step(outcome: LockTry, waited_ms: u64, patience_ms: u64) -> LockStep {
    match outcome {
        LockTry::Taken => LockStep::Proceed,
        LockTry::Failed => LockStep::GiveUp(StoreError::IoFailure),
        LockTry::Held => if waited_ms >= patience_ms {
            LockStep::GiveUp(StoreError::Busy)
        } else {
            LockStep::Retry
        },
    }
}

/// What to do after a try for a lock.
pub fn after_lock_try(outcome: LockTry, waited_ms: u64, patience_ms: u64) -> (step: LockStep)
    ensures
        step == lock_step(outcome, waited_ms, patience_ms),
{
    match outcome {
        LockTry::Taken => LockStep::Proceed,
        LockTry::Failed => LockStep::GiveUp(StoreError::IoFailure),
        LockTry::Held => if waited_ms >= patience_ms {
            LockStep::GiveUp(StoreError::Busy)
        } else {
            LockStep::Retry
        },
    }
}

} // verus!
