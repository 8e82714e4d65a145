//! Failures of the append path, one variant per failure domain.

use crate::stream_key::StreamKey;
use crate::version::Version;
use vstd::prelude::*;

verus! {

/// Why a store refused an append.
#[derive(Debug)]
#[non_exhaustive]
pub enum AppendError<E> {
    /// The stream is not at the expected version, or the batch does not continue it.
    Conflict {
        /// The stream the append was meant for.
        stream_id: StreamKey,
        /// The head that the caller expected.
        expected: Option<Version>,
        /// The head that the stream has.
        actual: Option<Version>,
    },
    /// The store itself failed.
    Store(E),
}

/// Why a batch fails the append contract, before any store is involved.
#[derive(Debug)]
pub enum AppendValidationError {
    /// The expectation or one of the versions is wrong.
    Conflict {
        /// The stream the append was meant for.
        stream_id: StreamKey,
        /// The expected head, or the version that should have come next.
        expected: Option<Version>,
        /// The head that the stream has, or the version that came instead.
        actual: Option<Version>,
    },
    /// The versions would pass `u64::MAX`. Never worth a retry.
    VersionOverflow,
}

/// Why a repository failed to load or save.
#[derive(Debug)]
#[non_exhaustive]
pub enum StoreError<A, EncErr, DecErr> {
    /// The store adapter failed.
    Adapter(A),
    /// The codec could not encode an event.
    Encode(EncErr),
    /// The codec could not decode an event.
    Decode(DecErr),
    /// Another writer was faster.
    Conflict {
        /// The stream the append was meant for.
        stream_id: StreamKey,
        /// The head that the caller expected.
        expected: Option<Version>,
        /// The head that the stream has.
        actual: Option<Version>,
    },
    /// The versions would pass `u64::MAX`. Never worth a retry.
    VersionOverflow,
}

impl<A, EncErr, DecErr> StoreError<A, EncErr, DecErr> {
    /// Whether this is an optimistic-concurrency conflict.
    pub fn is_conflict(&self) -> (r: bool)
        ensures
            r == (self is Conflict),
    {
        match self {
            StoreError::Conflict { .. } => true,
            _ => false,
        }
    }
}

} // verus!
