//! The store seam: what an adapter implements, and the handle that shares it.

use crate::envelope::{
    pending_views, persisted_views, EventView, PendingBatch, PendingEnvelope, PersistedEnvelope,
};
use crate::error::{AppendError, AppendValidationError};
use crate::log::{
    accepts, all_behind, event_versions, extends, head_of, leading_run, leading_run_is, log_ok,
    overflows, rows_for, stream_from, stream_of, LogEntry,
};
use crate::stream_key::StreamKey;
use crate::version::{group_version, head_at, version_at, Version};
use std::sync::Arc;
use vstd::prelude::*;

verus! {

broadcast use group_version;

/// `<Arc<S> as Clone>::clone`: another handle to the same value.
#[verifier::external_body]
pub(crate) fn share<S>(handle: &Arc<S>) -> (r: Arc<S>)
    ensures
        *r == **handle,
{
    Arc::clone(handle)
}

/// Shared handle to a store backend.
#[derive(Debug)]
pub struct Store<S> {
    inner: Arc<S>,
}

impl<S> Store<S> {
    /// The backend behind the handle.
    pub closed spec fn backend(&self) -> S {
        *self.inner
    }

    /// Wraps a backend in a shared handle.
    pub fn new(raw: S) -> (r: Store<S>)
        ensures
            r.backend() == raw,
    {
        Store { inner: Arc::new(raw) }
    }

    /// Borrows the backend.
    pub fn raw(&self) -> (r: &S)
        ensures
            *r == self.backend(),
    {
        &self.inner
    }

    /// Borrows the shared pointer to the backend.
    pub fn arc(&self) -> (r: &Arc<S>)
        ensures
            **r == self.backend(),
    {
        &self.inner
    }
}

impl<S> Clone for Store<S> {
    fn clone(&self) -> (r: Store<S>)
        ensures
            r.backend() == self.backend(),
    {
        Store { inner: share(&self.inner) }
    }
}

/// Where an event sits in the order of all streams. Each adapter brings its own type.
///
/// There is an order and no successor: a read resumes strictly behind the last position seen.
pub trait AllPosition: Copy {
    /// The position's place in the order.
    open spec fn ordinal(self) -> int {
        arbitrary()
    }

    /// Whether this position comes before another.
    fn precedes(self, other: Self) -> (r: bool)
        ensures
            r == (self.ordinal() < other.ordinal()),
    ;
}

/// The place of an optional position in the order.
pub open spec fn optional_ordinal<P: AllPosition>(position: Option<P>) -> Option<int> {
    match position {
        Some(p) => Some(p.ordinal()),
        None => None,
    }
}

/// What an append may answer, and what it does to the log.
///
/// It succeeds only where the batch continues the stream from the expected head; it then answers
/// the position of the batch's last event. A conflict names the stream, the caller's expectation
/// and the head that the stream really has. Whatever is refused leaves the log as it was.
pub open spec fn append_reply<P: AllPosition, E>(
    before: Seq<LogEntry>,
    after: Seq<LogEntry>,
    key: Seq<u8>,
    expected: Option<Version>,
    events: Seq<EventView>,
    reply: Result<P, AppendError<E>>,
) -> bool {
    match reply {
        Ok(position) => {
            &&& accepts(before, key, expected, events)
            &&& extends(before, after, rows_for(key, events))
            &&& after.len() > 0
            &&& position.ordinal() == after.last().position
        },
        Err(AppendError::Conflict { stream_id, expected: wanted, actual }) => {
            &&& !accepts(before, key, expected, events)
            &&& expected == head_of(before, key) ==> !overflows(
                stream_of(before, key).len(),
                events,
            )
            &&& stream_id@ == key
            &&& wanted == expected
            &&& actual == head_of(before, key)
            &&& after == before
        },
        Err(AppendError::Store(_)) => after == before,
    }
}

/// A row of an all-streams read: its position, its stream and its event.
pub open spec fn all_row_view<P: AllPosition>(row: (P, StreamKey, PersistedEnvelope)) -> LogEntry {
    LogEntry { position: row.0.ordinal(), key: row.1@, event: row.2@ }
}

/// The rows of an all-streams read.
pub open spec fn all_row_views<P: AllPosition>(
    found: Seq<(P, StreamKey, PersistedEnvelope)>,
) -> Seq<LogEntry> {
    Seq::new(found.len(), |i: int| all_row_view(found[i]))
}

/// What a store adapter implements: bytes in, bytes out.
pub trait RawEventStore: Sized {
    /// The adapter's own failures.
    type Error;

    /// The adapter's position in the order of all streams.
    type AllPosition: AllPosition;

    /// Everything the store holds.
    open spec fn log(&self) -> Seq<LogEntry> {
        arbitrary()
    }

    /// The adapter's invariant.
    open spec fn valid(&self) -> bool {
        arbitrary()
    }

    /// Whether an append to this store may fail in the store, with this error.
    open spec fn append_fails(
        &self,
        key: Seq<u8>,
        expected: Option<Version>,
        events: Seq<EventView>,
        error: Self::Error,
    ) -> bool {
        arbitrary()
    }

    /// The invariant covers the log.
    proof fn valid_log(&self)
        requires
            self.valid(),
        ensures
            log_ok(self.log()),
    ;

    /// Appends a batch to one stream, if the stream is at the expected version.
    fn append(
        &mut self,
        id: &StreamKey,
        expected_version: Option<Version>,
        envelopes: PendingBatch<'_>,
    ) -> (r: Result<Self::AllPosition, AppendError<Self::Error>>)
        requires
            old(self).valid(),
        ensures
            final(self).valid(),
            append_reply(
                old(self).log(),
                final(self).log(),
                id@,
                expected_version,
                envelopes@,
                r,
            ),
            r matches Err(AppendError::Store(e)) ==> old(self).append_fails(
                id@,
                expected_version,
                envelopes@,
                e,
            ),
    ;

    /// Reads one stream from version `from` on, `from` included. An absent stream is empty.
    fn read_stream(&self, id: &StreamKey, from: Version) -> (r: Result<
        Vec<PersistedEnvelope>,
        Self::Error,
    >)
        requires
            self.valid(),
        ensures
            r matches Ok(found) ==> persisted_views(found@) == stream_from(self.log(), id@, from@),
    ;

    /// Reads all streams strictly behind `from`, in position order.
    fn read_all(&self, from: Option<Self::AllPosition>) -> (r: Result<
        Vec<(Self::AllPosition, StreamKey, PersistedEnvelope)>,
        Self::Error,
    >)
        requires
            self.valid(),
        ensures
            r matches Ok(found) ==> all_row_views(found@) == all_behind(
                self.log(),
                optional_ordinal(from),
            ),
    ;

    /// Wraps this backend in a shared handle.
    fn into_store(self) -> (r: Store<Self>)
        ensures
            r.backend() == self,
    {
        Store::new(self)
    }
}

impl<S: RawEventStore> Store<S> {
    /// Reads one stream of the backend, as the backend does.
    pub fn read_stream(&self, id: &StreamKey, from: Version) -> (r: Result<
        Vec<PersistedEnvelope>,
        S::Error,
    >)
        requires
            self.backend().valid(),
        ensures
            call_ensures(S::read_stream, (&self.backend(), id, from), r),
            r matches Ok(found) ==> persisted_views(found@) == stream_from(
                self.backend().log(),
                id@,
                from@,
            ),
    {
        self.inner.read_stream(id, from)
    }

    /// Reads all streams of the backend, as the backend does.
    pub fn read_all(&self, from: Option<S::AllPosition>) -> (r: Result<
        Vec<(S::AllPosition, StreamKey, PersistedEnvelope)>,
        S::Error,
    >)
        requires
            self.backend().valid(),
        ensures
            call_ensures(S::read_all, (&self.backend(), from), r),
            r matches Ok(found) ==> all_row_views(found@) == all_behind(
                self.backend().log(),
                optional_ordinal(from),
            ),
    {
        self.inner.read_all(from)
    }
}

/// Checks the append contract for a stream whose last version is `current`, 0 for a fresh one.
///
/// The caller must expect exactly the head that the stream has, and the batch must count up from
/// it. A batch that steps out of line is a conflict, except where the version that should have
/// come next does not exist: that is an overflow and never worth a retry.
pub fn validate_append_versions(
    current: u64,
    expected: Option<Version>,
    envelopes: &[PendingEnvelope],
    id: &StreamKey,
) -> (r: Result<(), AppendValidationError>)
    ensures
        ({
            let events = pending_views(envelopes@);
            let run = leading_run(event_versions(events), current as nat);
            match r {
                Ok(()) => expected == head_at(current as nat) && run == events.len(),
                Err(AppendValidationError::VersionOverflow) => {
                    &&& expected == head_at(current as nat)
                    &&& run < events.len()
                    &&& current + run + 1 > u64::MAX
                },
                Err(AppendValidationError::Conflict { stream_id, expected: wanted, actual }) => {
                    &&& stream_id@ == id@
                    &&& if expected != head_at(current as nat) {
                        wanted == expected && actual == head_at(current as nat)
                    } else {
                        &&& run < events.len()
                        &&& current + run + 1 <= u64::MAX
                        &&& wanted == Some(version_at((current + run + 1) as nat))
                        &&& actual == Some(version_at(events[run as int].version))
                    }
                },
            }
        }),
{
    let actual: Option<Version> = Version::new(current);
    if expected != actual {
        return Err(AppendValidationError::Conflict { stream_id: id.clone(), expected, actual });
    }
    let ghost events = pending_views(envelopes@);
    let ghost versions = event_versions(events);
    let mut next: u64 = current;
    let mut i: usize = 0;
    while i < envelopes.len()
        invariant
            0 <= i <= envelopes.len(),
            next == current + i,
            events == pending_views(envelopes@),
            versions == event_versions(events),
            expected == head_at(current as nat),
            forall|j: int|
                0 <= j < i ==> (#[trigger] versions[j]) == Some((current + j + 1) as nat),
        decreases envelopes.len() - i,
    {
        let env: &PendingEnvelope = &envelopes[i];
        assert(versions[i as int] == Some(env@.version));
        let version: Version = env.version();
        let number: u64 = version.as_u64();
        if next == u64::MAX {
            proof {
                leading_run_is(versions, current as nat, i as nat);
            }
            return Err(AppendValidationError::VersionOverflow);
        }
        next = next + 1;
        if number != next {
            proof {
                leading_run_is(versions, current as nat, i as nat);
            }
            return Err(
                AppendValidationError::Conflict {
                    stream_id: id.clone(),
                    expected: Version::new(next),
                    actual: Some(version),
                },
            );
        }
        i = i + 1;
    }
    proof {
        leading_run_is(versions, current as nat, events.len());
    }
    Ok(())
}

} // verus!
