//! The one question that retry logic asks of an error.

use crate::error::StoreError;
use crate::sealed::Sealed;
use vstd::prelude::*;

verus! {

/// Whether a repository error is an optimistic-concurrency conflict: reload, decide again, retry.
pub trait ConflictPredicate: Sealed {
    /// Whether this error is a conflict.
    spec fn conflicting(&self) -> bool;

    /// Whether this error is a conflict.
    fn is_conflict(&self) -> (r: bool)
        ensures
            r == self.conflicting(),
    ;
}

impl<A, EncErr, DecErr> Sealed for StoreError<A, EncErr, DecErr> {

}

impl<A, EncErr, DecErr> ConflictPredicate for StoreError<A, EncErr, DecErr> {
    open spec fn conflicting(&self) -> bool {
        self is Conflict
    }

    fn is_conflict(&self) -> (r: bool) {
        StoreError::is_conflict(self)
    }
}

} // verus!
