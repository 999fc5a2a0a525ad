//! The ways in which an operation on a store can fail.

use vstd::prelude::*;

verus! {

/// Why an operation on a store failed.
#[derive(Clone, Copy, Debug, PartialEq, Eq, Structural)]
pub enum StoreError {
    /// The team, agent or task that was named does not exist.
    NotFound,
    /// The team to create exists already.
    AlreadyExists,
    /// A persisted document could not be read as what it should hold.
    CorruptState,
    /// The lock on a document could not be had in time.
    Busy,
    /// The storage below failed.
    IoFailure,
}

/// What a caller is told of each kind of failure.
pub open spec fn error_text(error: StoreError) -> Seq<char> {
    match error {
        StoreError::NotFound => "not found"@,
        StoreError::AlreadyExists => "already exists"@,
        StoreError::CorruptState => "corrupt state"@,
        StoreError::Busy => "busy"@,
        StoreError::IoFailure => "internal storage error"@,
    }
}

impl StoreError {
    /// The failure in words.
    pub fn message(&self) -> (text: String)
        ensures
            text@ == error_text(*self),
    {
        match self {
            StoreError::NotFound => "not found".to_owned(),
            StoreError::AlreadyExists => "already exists".to_owned(),
            StoreError::CorruptState => "corrupt state".to_owned(),
            StoreError::Busy => "busy".to_owned(),
            StoreError::IoFailure => "internal storage error".to_owned(),
        }
    }
}

/// `i` is the first failure among the outcomes.
pub open spec fn is_first_failure(outcomes: Seq<Result<(), StoreError>>, i: int) -> bool {
    &&& 0 <= i < outcomes.len()
    &&& outcomes[i] is Err
    &&& forall|j: int| 0 <= j < i ==> (#[trigger] outcomes[j]) is Ok
}

/// What is reported of several attempts that were all made: success where
/// each succeeded, else the first failure.
pub fn first_failure(outcomes: &Vec<Result<(), StoreError>>) -> (reported: Result<(), StoreError>)
    ensures
        match reported {
            Ok(()) => forall|j: int| 0 <= j < outcomes@.len() ==> (#[trigger] outcomes@[j]) is Ok,
            Err(error) => exists|i: int|
                is_first_failure(outcomes@, i) && outcomes@[i] == Err::<(), StoreError>(error),
        },
{
    let mut i: usize = 0;
    while i < outcomes.len()
        invariant
            i <= outcomes@.len(),
            forall|j: int| 0 <= j < i ==> (#[trigger] outcomes@[j]) is Ok,
        decreases outcomes@.len() - i,
    {
        match outcomes[i] {
            Ok(()) => {},
            Err(error) => {
                assert(is_first_failure(outcomes@, i as int));
                return Err(error);
            },
        }
        i += 1;
    }
    Ok(())
}

} // verus!
