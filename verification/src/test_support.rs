//! An in-memory store: every append, read and wake of the store seam over plain vectors.

use crate::channel::{
    armed, bump, channel_of, generation_of, observe, observed_by, open_channel, seen_by, successor,
};
use crate::envelope::{
    batch_not_empty, pending_version_fits, pending_views, persist, persisted_views, EventView,
    PendingBatch, PendingEnvelope, PersistedEnvelope,
};
use crate::error::{AppendError, AppendValidationError};
use crate::import::{
    len_after, len_after_write, planned_rows, running_len, write_fits, write_views, AtomicAppend,
    AtomicAppendError, PlannedAppend, WriteView,
};
use crate::log::{
    accepts, behind, dense, dense_is_whole_run, extends, extends_twice, from_version, head_of,
    log_ok, ordered, overflows, routed, rows, rows_for, stream_of, stream_of_extended,
    stream_of_grown, LogEntry,
};
use crate::store::{
    all_row_view, all_row_views, optional_ordinal, validate_append_versions, AllPosition,
    RawEventStore,
};
use crate::stream_key::StreamKey;
use crate::version::{group_version, head_at, Version};
use crate::wake::{Announcement, WakeRegistration, WakeSource};
use std::convert::Infallible;
use tokio::sync::watch;
use vstd::prelude::*;

verus! {

broadcast use {group_version, batch_not_empty};

/// Failures of [`TestStore`].
#[derive(Clone, Copy, Debug, PartialEq, Eq, Structural)]
pub enum TestStoreError {
    /// A stream's next version would pass `u64::MAX`.
    VersionOverflow,
    /// The log cannot grow any further.
    PositionOverflow,
}

/// A position of [`TestStore`]: the place in append order, counted from 1.
#[derive(Clone, Copy, Debug, PartialEq, Eq, PartialOrd, Ord, Hash, Structural)]
pub struct TestAllPos {
    value: u64,
}

impl TestAllPos {
    #[verifier::type_invariant]
    spec fn nonzero(&self) -> bool {
        self.value > 0
    }

    /// The place in append order.
    pub fn as_u64(self) -> (r: u64)
        ensures
            r == self.ordinal(),
            r > 0,
    {
        proof {
            use_type_invariant(&self);
        }
        self.value
    }
}

impl AllPosition for TestAllPos {
    closed spec fn ordinal(self) -> int {
        self.value as int
    }

    fn precedes(self, other: TestAllPos) -> (r: bool) {
        self.value < other.value
    }
}

/// The events of one stream.
#[derive(Debug)]
struct StreamRows {
    key: StreamKey,
    events: Vec<PersistedEnvelope>,
}

/// An in-memory event store with a store-wide wake counter.
///
/// Any commit wakes every waiter; a waiter on another stream finds nothing new and waits again.
#[derive(Debug)]
pub struct TestStore {
    streams: Vec<StreamRows>,
    all: Vec<(TestAllPos, StreamKey, PersistedEnvelope)>,
    wake_tx: watch::Sender<u64>,
}

/// Every stream of the log is listed once, with its events.
spec fn listed(streams: Seq<StreamRows>, log: Seq<LogEntry>) -> bool {
    &&& forall|i: int|
        0 <= i < streams.len() ==> persisted_views((#[trigger] streams[i]).events@) == stream_of(
            log,
            streams[i].key@,
        )
    &&& forall|i: int, j: int|
        0 <= i < j < streams.len() ==> (#[trigger] streams[i]).key@ != (
        #[trigger] streams[j]).key@
    &&& forall|key: Seq<u8>|
        (forall|i: int| 0 <= i < streams.len() ==> (#[trigger] streams[i]).key@ != key)
            ==> #[trigger] stream_of(log, key).len() == 0
}

impl TestStore {
    /// The number of wakes so far, wrapping.
    pub closed spec fn generation(&self) -> u64 {
        generation_of(self.wake_tx)
    }

    /// An empty store.
    pub fn new() -> (r: TestStore)
        ensures
            r.valid(),
            r.log() == Seq::<LogEntry>::empty(),
            r.generation() == 0,
    {
        let r = TestStore { streams: Vec::new(), all: Vec::new(), wake_tx: open_channel(0) };
        proof {
            assert(r.log() =~= Seq::empty());
            assert forall|key: Seq<u8>| (#[trigger] stream_of(r.log(), key)).len() == 0 by {
                assert(rows(r.log()) =~= Seq::empty());
            }
        }
        r
    }

    /// Where the stream `id` is listed.
    fn find(&self, id: &StreamKey) -> (r: Option<usize>)
        requires
            self.valid(),
        ensures
            match r {
                Some(at) => at < self.streams@.len() && self.streams@[at as int].key@ == id@,
                None => forall|i: int|
                    0 <= i < self.streams@.len() ==> (#[trigger] self.streams@[i]).key@ != id@,
            },
    {
        let mut i: usize = 0;
        while i < self.streams.len()
            invariant
                0 <= i <= self.streams.len(),
                forall|j: int| 0 <= j < i ==> (#[trigger] self.streams@[j]).key@ != id@,
            decreases self.streams.len() - i,
        {
            if self.streams[i].key.same(id) {
                return Some(i);
            }
            i = i + 1;
        }
        None
    }

    /// The version of the last event of the stream `id`, 0 for a fresh stream.
    fn head_number(&self, id: &StreamKey) -> (r: u64)
        requires
            self.valid(),
        ensures
            r == stream_of(self.log(), id@).len(),
    {
        match self.find(id) {
            Some(at) => {
                let events: &Vec<PersistedEnvelope> = &self.streams[at].events;
                assert(persisted_views(events@) == stream_of(self.log(), id@));
                if events.len() == 0 {
                    0
                } else {
                    let last: &PersistedEnvelope = &events[events.len() - 1];
                    assert(stream_of(self.log(), id@)[events@.len() - 1] == last@);
                    last.version().as_u64()
                }
            },
            None => 0,
        }
    }
}

impl TestStore {
    /// Adds events to the stream `id` and to the log, and answers the last position.
    fn commit(&mut self, id: &StreamKey, batch: &[PendingEnvelope]) -> (r: TestAllPos)
        requires
            old(self).valid(),
            batch@.len() > 0,
            dense(pending_views(batch@), stream_of(old(self).log(), id@).len()),
            stream_of(old(self).log(), id@).len() + batch@.len() <= u64::MAX,
            old(self).log().len() + batch@.len() <= usize::MAX,
        ensures
            final(self).valid(),
            extends(old(self).log(), final(self).log(), rows_for(id@, pending_views(batch@))),
            r.ordinal() == final(self).log().last().position,
            final(self).wake_tx == old(self).wake_tx,
    {
        let ghost before = self.log();
        let ghost streams_before = self.streams@;
        let ghost events = pending_views(batch@);
        let found: Option<usize> = self.find(id);
        let mut staged: Vec<PersistedEnvelope> = Vec::new();
        let mut last: TestAllPos = TestAllPos { value: 1 };
        let mut i: usize = 0;
        while i < batch.len()
            invariant
                0 <= i <= batch.len(),
                events == pending_views(batch@),
                before == all_row_views(old(self).all@),
                before.len() + batch@.len() <= usize::MAX,
                self.streams == old(self).streams,
                self.wake_tx == old(self).wake_tx,
                self.all@.len() == before.len() + i,
                staged@.len() == i,
                i > 0 ==> last.ordinal() == self.all@.len(),
                forall|j: int|
                    0 <= j < before.len() ==> all_row_view(#[trigger] self.all@[j]) == before[j],
                forall|j: int|
                    before.len() <= j < self.all@.len() ==> (#[trigger] self.all@[j]).0.ordinal()
                        == j + 1 && self.all@[j].1@ == id@ && self.all@[j].2@ == events[j
                        - before.len()],
                forall|j: int| 0 <= j < i ==> (#[trigger] staged@[j])@ == events[j],
            decreases batch.len() - i,
        {
            let place: u64 = self.all.len() as u64 + 1;
            last = TestAllPos { value: place };
            let event: PersistedEnvelope = persist(&batch[i]);
            self.all.push((last, id.clone(), event.clone()));
            staged.push(event);
            i = i + 1;
        }
        assert(persisted_views(staged@) =~= events);
        match found {
            Some(at) => {
                self.streams[at].events.append(&mut staged);
            },
            None => {
                self.streams.push(StreamRows { key: id.clone(), events: staged });
            },
        }
        proof {
            let after = self.log();
            assert(after.take(before.len() as int) =~= before);
            assert(rows(after) =~= rows(before) + rows_for(id@, events));
            assert forall|key: Seq<u8>|
                dense(#[trigger] stream_of(after, key), 0) && stream_of(after, key).len()
                    <= u64::MAX by {
                stream_of_extended(before, after, id@, events, key);
                assert(dense(stream_of(before, key), 0));
            }
            assert(ordered(after));
            assert(listed(self.streams@, after)) by {
                assert forall|j: int| 0 <= j < self.streams@.len() implies persisted_views(
                    (#[trigger] self.streams@[j]).events@,
                ) == stream_of(after, self.streams@[j].key@) by {
                    stream_of_extended(before, after, id@, events, self.streams@[j].key@);
                    if j < streams_before.len() {
                        assert(persisted_views(streams_before[j].events@) == stream_of(
                            before,
                            streams_before[j].key@,
                        ));
                    }
                    assert(persisted_views(self.streams@[j].events@) =~= stream_of(
                        after,
                        self.streams@[j].key@,
                    ));
                }
                assert forall|key: Seq<u8>|
                    (forall|j: int|
                        0 <= j < self.streams@.len() ==> (#[trigger] self.streams@[j]).key@
                            != key) implies #[trigger] stream_of(after, key).len() == 0 by {
                    stream_of_extended(before, after, id@, events, key);
                    assert forall|j: int| 0 <= j < streams_before.len() implies (
                    #[trigger] streams_before[j]).key@ != key by {
                        assert(self.streams@[j].key@ == streams_before[j].key@);
                    }
                    assert(key != id@) by {
                        match found {
                            Some(at) => {
                                assert(self.streams@[at as int].key@ == id@);
                            },
                            None => {
                                assert(self.streams@[streams_before.len() as int].key@ == id@);
                            },
                        }
                    }
                }
            }
        }
        last
    }
}

impl RawEventStore for TestStore {
    type Error = TestStoreError;

    type AllPosition = TestAllPos;

    closed spec fn log(&self) -> Seq<LogEntry> {
        all_row_views(self.all@)
    }

    closed spec fn valid(&self) -> bool {
        &&& log_ok(self.log())
        &&& listed(self.streams@, self.log())
        &&& forall|i: int| 0 <= i < self.all@.len() ==> (#[trigger] self.all@[i]).0.ordinal() == i + 1
    }

    /// The next version would pass `u64::MAX`, or the log has no room.
    open spec fn append_fails(
        &self,
        key: Seq<u8>,
        expected: Option<Version>,
        events: Seq<EventView>,
        error: TestStoreError,
    ) -> bool {
        match error {
            TestStoreError::VersionOverflow => expected == head_of(self.log(), key) && overflows(
                stream_of(self.log(), key).len(),
                events,
            ),
            TestStoreError::PositionOverflow => accepts(self.log(), key, expected, events)
                && self.log().len() + events.len() > usize::MAX,
        }
    }

    proof fn valid_log(&self) {
    }

    fn append(
        &mut self,
        id: &StreamKey,
        expected_version: Option<Version>,
        envelopes: PendingBatch<'_>,
    ) -> (r: Result<TestAllPos, AppendError<TestStoreError>>)
        ensures
            r is Ok <==> accepts(old(self).log(), id@, expected_version, envelopes@)
                && old(self).log().len() + envelopes@.len() <= usize::MAX,
            r is Ok ==> forall|i: int|
                old(self).log().len() <= i < final(self).log().len() ==> (
                #[trigger] final(self).log()[i]).position == i + 1,
            r is Ok ==> final(self).generation() == successor(old(self).generation()),
            r is Err ==> final(self).generation() == old(self).generation(),
            final(self).channel() == old(self).channel(),
    {
        let current: u64 = self.head_number(id);
        let batch: Vec<PendingEnvelope> = envelopes.to_vec();
        let ghost before = self.log();
        proof {
            dense_is_whole_run(envelopes@, current as nat);
        }
        match validate_append_versions(current, expected_version, batch.as_slice(), id) {
            Ok(()) => {},
            Err(AppendValidationError::VersionOverflow) => {
                return Err(AppendError::Store(TestStoreError::VersionOverflow));
            },
            Err(AppendValidationError::Conflict { .. }) => {
                return Err(
                    AppendError::Conflict {
                        stream_id: id.clone(),
                        expected: expected_version,
                        actual: Version::new(current),
                    },
                );
            },
        }
        if batch.len() > usize::MAX - self.all.len() {
            return Err(AppendError::Store(TestStoreError::PositionOverflow));
        }
        proof {
            pending_version_fits(batch@.last());
            assert(envelopes@.last() == batch@.last()@);
        }
        let position: TestAllPos = self.commit(id, batch.as_slice());
        bump(&mut self.wake_tx);
        Ok(position)
    }

    fn read_stream(&self, id: &StreamKey, from: Version) -> (r: Result<
        Vec<PersistedEnvelope>,
        TestStoreError,
    >)
        ensures
            r is Ok,
    {
        let mut out: Vec<PersistedEnvelope> = Vec::new();
        let ghost keep = from_version(from@);
        let at: usize = match self.find(id) {
            Some(at) => at,
            None => {
                assert(stream_of(self.log(), id@) =~= Seq::empty());
                assert(persisted_views(out@) =~= Seq::empty());
                reveal_with_fuel(Seq::filter, 1);
                return Ok(out);
            },
        };
        let events: &Vec<PersistedEnvelope> = &self.streams[at].events;
        let ghost stream = persisted_views(events@);
        let mut i: usize = 0;
        proof {
            reveal_with_fuel(Seq::filter, 1);
            assert(stream.take(0) =~= Seq::empty());
            assert(persisted_views(out@) =~= stream.take(0).filter(keep));
        }
        while i < events.len()
            invariant
                0 <= i <= events.len(),
                stream == persisted_views(events@),
                keep == from_version(from@),
                persisted_views(out@) == stream.take(i as int).filter(keep),
            decreases events.len() - i,
        {
            let event: &PersistedEnvelope = &events[i];
            let ghost shown = persisted_views(out@);
            proof {
                assert(stream.take(i + 1) =~= stream.take(i as int).push(event@));
                stream.take(i as int).lemma_filter_push(event@, keep);
            }
            if event.version().as_u64() >= from.as_u64() {
                out.push(event.clone());
                assert(persisted_views(out@) =~= shown.push(event@));
            }
            i = i + 1;
        }
        assert(stream.take(i as int) =~= stream);
        Ok(out)
    }

    fn read_all(&self, from: Option<TestAllPos>) -> (r: Result<
        Vec<(TestAllPos, StreamKey, PersistedEnvelope)>,
        TestStoreError,
    >)
        ensures
            r is Ok,
    {
        let mut out: Vec<(TestAllPos, StreamKey, PersistedEnvelope)> = Vec::new();
        let ghost keep = behind(optional_ordinal(from));
        let ghost log = self.log();
        let mut i: usize = 0;
        proof {
            reveal_with_fuel(Seq::filter, 1);
            assert(log.take(0) =~= Seq::empty());
            assert(all_row_views(out@) =~= log.take(0).filter(keep));
        }
        while i < self.all.len()
            invariant
                0 <= i <= self.all.len(),
                log == all_row_views(self.all@),
                keep == behind(optional_ordinal(from)),
                all_row_views(out@) == log.take(i as int).filter(keep),
            decreases self.all.len() - i,
        {
            let row: &(TestAllPos, StreamKey, PersistedEnvelope) = &self.all[i];
            let ghost shown = all_row_views(out@);
            let ghost entry = all_row_view(*row);
            proof {
                assert(log.take(i + 1) =~= log.take(i as int).push(entry));
                log.take(i as int).lemma_filter_push(entry, keep);
            }
            let wanted: bool = match from {
                Some(bound) => bound.precedes(row.0),
                None => true,
            };
            if wanted {
                out.push((row.0, row.1.clone(), row.2.clone()));
                assert(all_row_views(out@) =~= shown.push(entry));
            }
            i = i + 1;
        }
        assert(log.take(i as int) =~= log);
        Ok(out)
    }
}

impl TestStore {
    /// The length of the target of write `index` once the writes before it are in.
    fn running_number(&self, writes: &[PlannedAppend], index: usize) -> (r: u64)
        requires
            self.valid(),
            index < writes@.len(),
            forall|i: int|
                0 <= i < index ==> #[trigger] write_fits(self.log(), write_views(writes@), i),
        ensures
            r == running_len(self.log(), write_views(writes@), index as int),
    {
        let target: &StreamKey = &writes[index].target;
        let ghost views = write_views(writes@);
        let mut j: usize = index;
        while j > 0
            invariant
                0 <= j <= index < writes@.len(),
                views == write_views(writes@),
                target@ == views[index as int].target,
                forall|i: int| 0 <= i < index ==> #[trigger] write_fits(self.log(), views, i),
                len_after(self.log(), views, index as int, target@) == len_after(
                    self.log(),
                    views,
                    j as int,
                    target@,
                ),
            decreases j,
        {
            let write: &PlannedAppend = &writes[j - 1];
            proof {
                len_after_write(self.log(), views, j - 1, target@);
                assert(write_fits(self.log(), views, j - 1));
                assert(views[j - 1] == write@);
            }
            if write.target.same(target) {
                let last: &PendingEnvelope = if write.tail.len() == 0 {
                    &write.head
                } else {
                    &write.tail[write.tail.len() - 1]
                };
                assert(write@.events.last() == last@);
                return last.version().as_u64();
            }
            j = j - 1;
        }
        proof {
            assert(views.take(0) =~= Seq::empty());
            assert(routed(planned_rows(views.take(0)), target@) =~= Seq::empty());
        }
        self.head_number(target)
    }

    /// Whether the log has room for every event of the writes.
    fn has_room(&self, writes: &[PlannedAppend]) -> (r: bool)
        ensures
            r == (self.log().len() + planned_rows(write_views(writes@)).len() <= usize::MAX),
    {
        let ghost views = write_views(writes@);
        let mut room: usize = usize::MAX - self.all.len();
        let mut i: usize = 0;
        assert(views.take(0) =~= Seq::empty());
        while i < writes.len()
            invariant
                0 <= i <= writes.len(),
                views == write_views(writes@),
                room + self.log().len() + planned_rows(views.take(i as int)).len() == usize::MAX,
            decreases writes.len() - i,
        {
            let behind: usize = writes[i].tail.len();
            proof {
                len_after_write(self.log(), views, i as int, views[i as int].target);
                assert(views[i as int].events.len() == behind + 1);
                planned_rows_grow(views, i + 1);
            }
            if behind >= room {
                return false;
            }
            room = room - behind - 1;
            i = i + 1;
        }
        assert(views.take(i as int) =~= views);
        true
    }
}

/// The writes from `n` on only add rows.
proof fn planned_rows_grow(writes: Seq<WriteView>, n: int)
    requires
        0 <= n <= writes.len(),
    ensures
        planned_rows(writes.take(n)).len() <= planned_rows(writes).len(),
    decreases writes.len() - n,
{
    if n == writes.len() {
        assert(writes.take(n) =~= writes);
    } else {
        planned_rows_grow(writes, n + 1);
        assert(writes.take(n + 1).drop_last() =~= writes.take(n));
    }
}

impl AtomicAppend for TestStore {
    /// The first write that does not fit would pass `u64::MAX`, or all fit and the log has no room.
    open spec fn transaction_fails(&self, writes: Seq<WriteView>, error: TestStoreError) -> bool {
        match error {
            TestStoreError::VersionOverflow => exists|n: int|
                #![trigger write_fits(self.log(), writes, n)]
                {
                    let length = running_len(self.log(), writes, n);
                    &&& 0 <= n < writes.len()
                    &&& forall|i: int| 0 <= i < n ==> #[trigger] write_fits(self.log(), writes, i)
                    &&& !write_fits(self.log(), writes, n)
                    &&& writes[n].expected == head_at(length)
                    &&& overflows(length, writes[n].events)
                },
            TestStoreError::PositionOverflow => {
                &&& forall|i: int|
                    0 <= i < writes.len() ==> #[trigger] write_fits(self.log(), writes, i)
                &&& self.log().len() + planned_rows(writes).len() > usize::MAX
            },
        }
    }

    fn atomic_append_many(&mut self, writes: &[PlannedAppend]) -> (r: Result<
        Option<TestAllPos>,
        AtomicAppendError<TestStoreError>,
    >)
        ensures
            r is Ok <==> (forall|i: int|
                0 <= i < writes@.len() ==> #[trigger] write_fits(
                    old(self).log(),
                    write_views(writes@),
                    i,
                )) && old(self).log().len() + planned_rows(write_views(writes@)).len()
                <= usize::MAX,
            forall|i: int|
                old(self).log().len() <= i < final(self).log().len() ==> (
                #[trigger] final(self).log()[i]).position == i + 1,
            r matches Ok(Some(_)) ==> final(self).generation() == successor(
                old(self).generation(),
            ),
            !(r matches Ok(Some(_))) ==> final(self).generation() == old(self).generation(),
            final(self).channel() == old(self).channel(),
    {
        let ghost before = self.log();
        let ghost views = write_views(writes@);
        let mut i: usize = 0;
        while i < writes.len()
            invariant
                0 <= i <= writes.len(),
                *self == *old(self),
                self.valid(),
                before == self.log(),
                views == write_views(writes@),
                forall|j: int| 0 <= j < i ==> #[trigger] write_fits(before, views, j),
            decreases writes.len() - i,
        {
            let write: &PlannedAppend = &writes[i];
            let current: u64 = self.running_number(writes, i);
            let batch: Vec<PendingEnvelope> = write.batch().to_vec();
            proof {
                assert(views[i as int] == write@);
                dense_is_whole_run(write@.events, current as nat);
            }
            match validate_append_versions(
                current,
                write.expected_version,
                batch.as_slice(),
                &write.target,
            ) {
                Ok(()) => {},
                Err(AppendValidationError::VersionOverflow) => {
                    assert(!write_fits(before, views, i as int));
                    return Err(AtomicAppendError::Store(TestStoreError::VersionOverflow));
                },
                Err(AppendValidationError::Conflict { .. }) => {
                    assert(!write_fits(before, views, i as int));
                    return Err(
                        AtomicAppendError::Conflict { index: i, actual: Version::new(current) },
                    );
                },
            }
            i = i + 1;
        }
        if !self.has_room(writes) {
            return Err(AtomicAppendError::Store(TestStoreError::PositionOverflow));
        }
        let mut position: Option<TestAllPos> = None;
        let mut n: usize = 0;
        assert(views.take(0) =~= Seq::empty());
        assert(before.take(before.len() as int) =~= before);
        assert(rows(before) + Seq::empty() =~= rows(before));
        while n < writes.len()
            invariant
                0 <= n <= writes.len(),
                self.valid(),
                self.wake_tx == old(self).wake_tx,
                views == write_views(writes@),
                before.len() + planned_rows(views).len() <= usize::MAX,
                forall|j: int| 0 <= j < views.len() ==> #[trigger] write_fits(before, views, j),
                extends(before, self.log(), planned_rows(views.take(n as int))),
                position is None <==> n == 0,
                position matches Some(p) ==> self.log().len() > 0 && p.ordinal()
                    == self.log().last().position,
            decreases writes.len() - n,
        {
            let write: &PlannedAppend = &writes[n];
            let batch: Vec<PendingEnvelope> = write.batch().to_vec();
            let ghost reached = self.log();
            proof {
                assert(views[n as int] == write@);
                assert(write_fits(before, views, n as int));
                stream_of_grown(
                    before,
                    reached,
                    planned_rows(views.take(n as int)),
                    write.target@,
                );
                len_after_write(before, views, n as int, write.target@);
                planned_rows_grow(views, n + 1);
                assert(rows(reached).len() == reached.len());
                assert(rows(before).len() == before.len());
                pending_version_fits(batch@.last());
                assert(write@.events.last() == batch@.last()@);
            }
            position = Some(self.commit(&write.target, batch.as_slice()));
            proof {
                extends_twice(
                    before,
                    reached,
                    self.log(),
                    planned_rows(views.take(n as int)),
                    rows_for(write.target@, write@.events),
                );
            }
            n = n + 1;
        }
        assert(views.take(n as int) =~= views);
        if writes.len() > 0 {
            bump(&mut self.wake_tx);
        }
        Ok(position)
    }
}

/// A registration with the store-wide wake counter.
#[derive(Debug)]
pub struct TestWakeReg {
    rx: watch::Receiver<u64>,
}

impl WakeRegistration for TestWakeReg {
    type Wait = watch::Receiver<u64>;

    closed spec fn channel(&self) -> int {
        observed_by(self.rx)
    }

    closed spec fn seen(&self) -> u64 {
        seen_by(self.rx)
    }

    fn arm(&self) -> (r: watch::Receiver<u64>)
        ensures
            observed_by(r) == self.channel(),
    {
        armed(&self.rx)
    }
}

impl TestStore {
    /// The channel on which the store announces its commits.
    pub closed spec fn channel(&self) -> int {
        channel_of(self.wake_tx)
    }

    /// Arms a wait: what the store's counter shows now counts as seen, so that the wait ends with
    /// the next commit. A registration with another store waits on that one.
    pub fn arm(&self, registration: &TestWakeReg) -> (r: watch::Receiver<u64>)
        requires
            registration.channel() == self.channel(),
        ensures
            observed_by(r) == self.channel(),
            seen_by(r) == self.generation(),
    {
        observe(&self.wake_tx)
    }
}

impl WakeSource for TestStore {
    type Registration = TestWakeReg;

    type Error = Infallible;

    open spec fn ready(&self) -> bool {
        self.valid()
    }

    /// A registration never fails.
    open spec fn register_fails(&self, target: Option<Seq<u8>>, error: Infallible) -> bool {
        false
    }

    /// Every target shares the store's channel.
    open spec fn announced(&self, target: Option<Seq<u8>>) -> Option<Announcement> {
        Some(Announcement { channel: self.channel(), shown: self.generation() })
    }

    /// Every wake reaches every registration, whatever it was made for.
    fn register(&mut self, _stream: Option<&[u8]>) -> (r: Result<TestWakeReg, Infallible>)
        ensures
            r matches Ok(registration) && registration.channel() == old(self).channel()
                && registration.seen() == old(self).generation(),
            *final(self) == *old(self),
    {
        Ok(TestWakeReg { rx: observe(&self.wake_tx) })
    }

    /// The stored events stay as they are.
    fn wake(&mut self, _stream: &[u8])
        ensures
            final(self).generation() == successor(old(self).generation()),
            final(self).channel() == old(self).channel(),
            final(self).log() == old(self).log(),
    {
        bump(&mut self.wake_tx);
    }
}

} // verus!
