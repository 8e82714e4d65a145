//! Laws of the store seam, over the calls of the in-memory store: what reads say behind a write.

use crate::channel::{observed_by, seen_by};
use crate::envelope::{
    batch_not_empty, pending_version_fits, pending_views, persisted_views, EventView, PendingBatch,
    PendingEnvelope, PersistedEnvelope,
};
use crate::error::{AppendError, AppendValidationError};
use crate::import::{
    len_after, len_after_write, planned_rows, running_len, write_fits, write_views, AtomicAppend,
    AtomicAppendError, PlannedAppend, WriteView,
};
use crate::laws::append::all_read_is_exclusive;
use crate::log::{
    count_upto, dense, dense_from_version, dense_is_whole_run, event_versions, leading_run,
    leading_run_bounds, leading_run_is, ordered_behind, overflows, routed, routed_of_stream,
    routed_of_sum, rows, rows_for, stream_of, stream_of_extended, stream_of_grown, LogEntry, Row,
};
use crate::store::{
    all_row_views, optional_ordinal, validate_append_versions, AllPosition, RawEventStore, Store,
};
use crate::stream_key::StreamKey;
use crate::subscription::Subscription;
use crate::test_support::{TestAllPos, TestStore, TestStoreError, TestWakeReg};
use crate::version::{group_version, head_at, Version};
use crate::wake::{WakeRegistration, WakeSource};
use std::convert::Infallible;
use std::sync::Arc;
use tokio::sync::watch;
use vstd::prelude::*;

verus! {

broadcast use group_version;

/// A head names a stream's length: none for a fresh stream, the version of the last event for any
/// other.
pub open spec fn names_length(head: Option<Version>, n: nat) -> bool {
    match head {
        None => n == 0,
        Some(v) => n > 0 && v@ == n,
    }
}

/// Events number `n + 1`, `n + 2` and so on.
pub open spec fn counts_on(events: Seq<EventView>, n: nat) -> bool {
    forall|i: int| 0 <= i < events.len() ==> (#[trigger] events[i]).version == n + i + 1
}

/// Event `k` is the first whose number is not the one that is due behind `n` events.
pub open spec fn first_out_of_line(events: Seq<EventView>, n: nat, k: int) -> bool {
    &&& 0 <= k < events.len()
    &&& events[k].version != n + k + 1
    &&& forall|i: int| 0 <= i < k ==> (#[trigger] events[i]).version == n + i + 1
}

proof fn run_ends_out_of_line(events: Seq<EventView>, n: nat)
    requires
        !counts_on(events, n),
    ensures
        first_out_of_line(events, n, leading_run(event_versions(events), n) as int),
{
    let versions = event_versions(events);
    leading_run_bounds(versions, n);
    dense_is_whole_run(events, n);
    let run = leading_run(versions, n);
    assert(counts_on(events, n) == dense(events, n));
    assert forall|i: int| 0 <= i < run implies (#[trigger] events[i]).version == n + i + 1 by {
        assert(versions[i] == Some((n + i + 1) as nat));
    }
    assert(versions[run as int] == Some(events[run as int].version));
}

/// The batch of a validation is good exactly if the caller expects the head that the stream has and
/// the versions count on from it. A wrong expectation is a conflict between that and the real head.
/// Otherwise the first version out of line decides: it is a conflict between the version that was
/// due and the one that came, unless there is no version to be due.
pub proof fn validation_finds_the_first_version_out_of_line(
    current: u64,
    expected: Option<Version>,
    envelopes: &[PendingEnvelope],
    id: &StreamKey,
    r: Result<(), AppendValidationError>,
    k: int,
)
    requires
        call_ensures(validate_append_versions, (current, expected, envelopes, id), r),
    ensures
        r is Ok <==> names_length(expected, current as nat) && forall|i: int|
            0 <= i < envelopes@.len() ==> (#[trigger] envelopes@[i])@.version == current + i + 1,
        !names_length(expected, current as nat) ==> (r matches Err(
            AppendValidationError::Conflict { stream_id, expected: wanted, actual },
        ) && stream_id@ == id@ && wanted == expected && names_length(actual, current as nat)),
        names_length(expected, current as nat) && 0 <= k < envelopes@.len()
            && envelopes@[k]@.version
            != current + k + 1 && (forall|i: int|
            0 <= i < k ==> (#[trigger] envelopes@[i])@.version == current + i + 1)
                ==> if current + k
            + 1 > u64::MAX {
            r matches Err(AppendValidationError::VersionOverflow)
        } else {
            r matches Err(AppendValidationError::Conflict { stream_id, expected: wanted, actual })
                && stream_id@ == id@ && (wanted matches Some(v) && v@ == current + k + 1) && (
            actual matches Some(v) && v@ == envelopes@[k]@.version)
        },
{
    let events = pending_views(envelopes@);
    let versions = event_versions(events);
    let n = current as nat;
    leading_run_bounds(versions, n);
    dense_is_whole_run(events, n);
    let run = leading_run(versions, n);
    assert forall|i: int| 0 <= i < envelopes@.len() implies (#[trigger] envelopes@[i])@
        == events[i] && versions[i] == Some(events[i].version) && events[i].version
        <= u64::MAX by {
        pending_version_fits(envelopes@[i]);
    }
    if dense(events, n) {
        assert forall|i: int| 0 <= i < envelopes@.len() implies (
        #[trigger] envelopes@[i])@.version == current + i + 1 by {
            assert(events[i].version == n + i + 1);
        }
    }
    if forall|i: int|
        0 <= i < envelopes@.len() ==> (#[trigger] envelopes@[i])@.version == current + i + 1 {
        assert forall|i: int| 0 <= i < events.len() implies (#[trigger] events[i]).version == n + i
            + 1 by {
            assert(envelopes@[i]@.version == current + i + 1);
        }
    }
    if 0 <= k < envelopes@.len() && envelopes@[k]@.version != current + k + 1 && (forall|i: int|
        0 <= i < k ==> (#[trigger] envelopes@[i])@.version == current + i + 1) {
        assert forall|i: int| 0 <= i < k implies (#[trigger] versions[i]) == Some(
            (n + i + 1) as nat,
        ) by {
            assert(envelopes@[i]@.version == current + i + 1);
        }
        leading_run_is(versions, n, k as nat);
    }
    if !names_length(expected, n) {
        assert(!(r matches Err(AppendValidationError::VersionOverflow)));
    }
}

/// What the in-memory store answers to a read of a whole stream.
pub open spec fn reads_stream(store: &TestStore, key: Seq<u8>, found: Seq<EventView>) -> bool {
    exists|id: &StreamKey, first: Version, r: Result<Vec<PersistedEnvelope>, TestStoreError>|
        {
            &&& id@ == key
            &&& first@ == 1
            &&& #[trigger] call_ensures(
                <TestStore as RawEventStore>::read_stream,
                (store, id, first),
                r,
            )
            &&& r matches Ok(events) && persisted_views(events@) == found
        }
}

/// What the in-memory store answers to a read of all streams from the beginning.
pub open spec fn reads_all(store: &TestStore, found: Seq<LogEntry>) -> bool {
    exists|
        r: Result<Vec<(TestAllPos, StreamKey, PersistedEnvelope)>, TestStoreError>,
    |
        {
            &&& #[trigger] call_ensures(
                <TestStore as RawEventStore>::read_all,
                (store, None::<TestAllPos>),
                r,
            )
            &&& r matches Ok(rows) && all_row_views(rows@) == found
        }
}

proof fn stream_is_read(store: &TestStore, key: Seq<u8>, found: Seq<EventView>)
    requires
        store.valid(),
        reads_stream(store, key, found),
    ensures
        found == stream_of(store.log(), key),
        dense(found, 0),
        found.len() <= u64::MAX,
{
    store.valid_log();
    assert(dense(stream_of(store.log(), key), 0));
    dense_from_version(stream_of(store.log(), key), 1);
    assert(stream_of(store.log(), key).skip(0) =~= stream_of(store.log(), key));
}

proof fn log_is_read(store: &TestStore, found: Seq<LogEntry>)
    requires
        store.valid(),
        reads_all(store, found),
    ensures
        found == store.log(),
{
    store.valid_log();
    all_read_is_exclusive(store.log(), None);
}

/// An append lands exactly if the caller expects the head that the stream has and the batch counts
/// on from it, as long as there is room. What landed is read back: the stream is what it was and the
/// batch behind it, every other stream is what it was, and the read of all streams has the batch
/// behind what it had, at the next positions. The answer is the position of the batch's last event.
pub proof fn appended_batch_is_read_back(
    store: &mut TestStore,
    id: &StreamKey,
    expected: Option<Version>,
    batch: PendingBatch<'_>,
    r: Result<TestAllPos, AppendError<TestStoreError>>,
    was: Seq<EventView>,
    other: Seq<u8>,
    other_was: Seq<EventView>,
    other_is: Seq<EventView>,
    is: Seq<EventView>,
    all_was: Seq<LogEntry>,
    all_is: Seq<LogEntry>,
)
    requires
        old(store).valid(),
        final(store).valid(),
        call_ensures(<TestStore as RawEventStore>::append, (store, id, expected, batch), r),
        reads_stream(&*old(store), id@, was),
        reads_stream(&*final(store), id@, is),
        other != id@,
        reads_stream(&*old(store), other, other_was),
        reads_stream(&*final(store), other, other_is),
        reads_all(&*old(store), all_was),
        reads_all(&*final(store), all_is),
    ensures
        r is Ok <==> names_length(expected, was.len()) && counts_on(batch@, was.len())
            && all_was.len() + batch@.len() <= usize::MAX,
        r matches Ok(position) ==> {
            &&& is == was + batch@
            &&& all_is.len() == all_was.len() + batch@.len()
            &&& all_is.take(all_was.len() as int) == all_was
            &&& forall|i: int|
                0 <= i < batch@.len() ==> (#[trigger] all_is[all_was.len() + i]) == (LogEntry {
                    position: all_was.len() + i + 1,
                    key: id@,
                    event: batch@[i],
                })
            &&& position.ordinal() == all_is.len()
        },
        other_is == other_was,
{
    stream_is_read(&*old(store), id@, was);
    stream_is_read(&*final(store), id@, is);
    stream_is_read(&*old(store), other, other_was);
    stream_is_read(&*final(store), other, other_is);
    log_is_read(&*old(store), all_was);
    log_is_read(&*final(store), all_is);
    assert(counts_on(batch@, was.len()) == dense(batch@, was.len()));
    if r is Ok {
        let before = old(store).log();
        let after = final(store).log();
        stream_of_extended(before, after, id@, batch@, id@);
        stream_of_extended(before, after, id@, batch@, other);
        let added = rows_for(id@, batch@);
        assert(rows(after).len() == after.len());
        assert(rows(before).len() == before.len());
        assert forall|i: int| 0 <= i < batch@.len() implies (#[trigger] all_is[all_was.len() + i])
            == (LogEntry {
            position: all_was.len() + i + 1,
            key: id@,
            event: batch@[i],
        }) by {
            assert(rows(after)[before.len() + i] == (rows(before) + added)[before.len() + i]);
        }
        let last = batch@.len() - 1;
        batch_not_empty(batch);
        assert(all_is[all_was.len() + last].position == all_is.len());
    }
}

/// A refused append leaves everything as it was, and says why: a conflict names the stream, what was
/// expected and the head that the stream really has; an overflow means that the version that was due
/// does not exist, or that there is no room.
pub proof fn refused_batch_leaves_no_trace(
    store: &mut TestStore,
    id: &StreamKey,
    expected: Option<Version>,
    batch: PendingBatch<'_>,
    e: AppendError<TestStoreError>,
    was: Seq<EventView>,
    key: Seq<u8>,
    key_was: Seq<EventView>,
    key_is: Seq<EventView>,
    all_was: Seq<LogEntry>,
    all_is: Seq<LogEntry>,
)
    requires
        old(store).valid(),
        final(store).valid(),
        call_ensures(
            <TestStore as RawEventStore>::append,
            (store, id, expected, batch),
            Err::<TestAllPos, AppendError<TestStoreError>>(e),
        ),
        reads_stream(&*old(store), id@, was),
        reads_stream(&*old(store), key, key_was),
        reads_stream(&*final(store), key, key_is),
        reads_all(&*old(store), all_was),
        reads_all(&*final(store), all_is),
    ensures
        key_is == key_was,
        all_is == all_was,
        match e {
            AppendError::Conflict { stream_id, expected: wanted, actual } => {
                &&& stream_id@ == id@
                &&& wanted == expected
                &&& names_length(actual, was.len())
                &&& names_length(expected, was.len()) ==> exists|k: int|
                    #[trigger] first_out_of_line(batch@, was.len(), k) && was.len() + k + 1
                        <= u64::MAX
            },
            AppendError::Store(TestStoreError::VersionOverflow) => {
                &&& names_length(expected, was.len())
                &&& exists|k: int|
                    #[trigger] first_out_of_line(batch@, was.len(), k) && was.len() + k + 1
                        > u64::MAX
            },
            AppendError::Store(TestStoreError::PositionOverflow) => {
                &&& names_length(expected, was.len())
                &&& counts_on(batch@, was.len())
                &&& all_was.len() + batch@.len() > usize::MAX
            },
        },
{
    stream_is_read(&*old(store), id@, was);
    stream_is_read(&*old(store), key, key_was);
    stream_is_read(&*final(store), key, key_is);
    log_is_read(&*old(store), all_was);
    log_is_read(&*final(store), all_is);
    assert(counts_on(batch@, was.len()) == dense(batch@, was.len()));
    dense_is_whole_run(batch@, was.len());
    leading_run_bounds(event_versions(batch@), was.len());
    if !counts_on(batch@, was.len()) {
        run_ends_out_of_line(batch@, was.len());
    }
}

/// A read of one stream from a version on has everything but the events before that version, in
/// order. It never fails, and a stream that is not there is empty.
pub proof fn stream_is_read_from_any_version(
    store: &TestStore,
    id: &StreamKey,
    from: Version,
    r: Result<Vec<PersistedEnvelope>, TestStoreError>,
    whole: Seq<EventView>,
)
    requires
        store.valid(),
        from@ >= 1,
        call_ensures(<TestStore as RawEventStore>::read_stream, (store, id, from), r),
        reads_stream(store, id@, whole),
    ensures
        r is Ok,
        r->Ok_0@.len() == (if from@ <= whole.len() {
            whole.len() - from@ + 1
        } else {
            0
        }),
        forall|i: int|
            0 <= i < r->Ok_0@.len() ==> (#[trigger] r->Ok_0@[i])@ == whole[from@ - 1 + i]
                && r->Ok_0@[i]@.version == from@ + i,
{
    stream_is_read(store, id@, whole);
    dense_from_version(whole, from@);
    let found = r->Ok_0@;
    assert(persisted_views(found).len() == found.len());
    assert forall|i: int| 0 <= i < found.len() implies (#[trigger] found[i])@ == whole[from@ - 1
        + i] && found[i]@.version == from@ + i by {
        assert(persisted_views(found)[i] == found[i]@);
    }
}

/// A read of all streams behind a position has the rows at later positions and no others, in order;
/// each row has its position, its stream and its event.
pub proof fn all_streams_are_read_behind_any_position(
    store: &TestStore,
    from: Option<TestAllPos>,
    r: Result<Vec<(TestAllPos, StreamKey, PersistedEnvelope)>, TestStoreError>,
    whole: Seq<LogEntry>,
) -> (c: nat)
    requires
        store.valid(),
        call_ensures(<TestStore as RawEventStore>::read_all, (store, from), r),
        reads_all(store, whole),
    ensures
        r is Ok,
        c <= whole.len(),
        from is None ==> c == 0,
        forall|i: int|
            0 <= i < c ==> from is Some && (#[trigger] whole[i]).position <= from->0.ordinal(),
        forall|i: int|
            c <= i < whole.len() ==> from is Some ==> (#[trigger] whole[i]).position
                > from->0.ordinal(),
        r->Ok_0@.len() == whole.len() - c,
        forall|i: int|
            0 <= i < r->Ok_0@.len() ==> {
                &&& (#[trigger] r->Ok_0@[i]).0.ordinal() == whole[c + i].position
                &&& r->Ok_0@[i].1@ == whole[c + i].key
                &&& r->Ok_0@[i].2@ == whole[c + i].event
            },
{
    store.valid_log();
    log_is_read(store, whole);
    let bound = optional_ordinal(from);
    ordered_behind(whole, bound);
    let c = count_upto(whole, bound);
    let found = r->Ok_0@;
    assert(all_row_views(found).len() == found.len());
    if c > 0 {
        assert(whole[0].position == whole[0].position);
    }
    assert forall|i: int| 0 <= i < found.len() implies {
        &&& (#[trigger] found[i]).0.ordinal() == whole[c + i].position
        &&& found[i].1@ == whole[c + i].key
        &&& found[i].2@ == whole[c + i].event
    } by {
        assert(all_row_views(found)[i] == whole.skip(c as int)[i]);
    }
    c
}

/// A new store is empty, whatever is read.
pub proof fn new_store_is_empty(
    store: TestStore,
    key: Seq<u8>,
    found: Seq<EventView>,
    all: Seq<LogEntry>,
)
    requires
        call_ensures(TestStore::new, (), store),
        reads_stream(&store, key, found),
        reads_all(&store, all),
    ensures
        found.len() == 0,
        all.len() == 0,
{
    stream_is_read(&store, key, found);
    log_is_read(&store, all);
    assert(rows(store.log()) =~= Seq::empty());
}

// ── Several streams at once ─────────────────────────────────────────────────────────────────────

/// What the first `n` writes bring to the stream `key`.
pub open spec fn brings(writes: Seq<WriteView>, n: nat, key: Seq<u8>) -> Seq<EventView>
    decreases n,
{
    if n == 0 {
        Seq::empty()
    } else {
        let write = writes[n - 1];
        brings(writes, (n - 1) as nat, key) + (if write.target == key {
            write.events
        } else {
            Seq::empty()
        })
    }
}

/// The rows that the first `n` writes bring, in order.
pub open spec fn brings_rows(writes: Seq<WriteView>, n: nat) -> Seq<Row>
    decreases n,
{
    if n == 0 {
        Seq::empty()
    } else {
        let write = writes[n - 1];
        brings_rows(writes, (n - 1) as nat) + Seq::new(
            write.events.len(),
            |i: int| (write.target, write.events[i]),
        )
    }
}

/// Write `i` continues its target, which has `n` events before any of the writes.
pub open spec fn takes_up(writes: Seq<WriteView>, i: int, n: nat) -> bool {
    let length = n + brings(writes, i as nat, writes[i].target).len();
    names_length(writes[i].expected, length) && counts_on(writes[i].events, length)
}

/// How many events the target of write `i` has behind the writes before it, if `streams` are the
/// streams without them.
pub open spec fn reached(
    writes: Seq<WriteView>,
    streams: spec_fn(Seq<u8>) -> Seq<EventView>,
    i: int,
) -> nat {
    streams(writes[i].target).len() + brings(writes, i as nat, writes[i].target).len()
}

/// The writes before write `n` all continue their targets, and so does write `n` up to where the
/// version that is due does not exist.
pub open spec fn runs_out_at(
    writes: Seq<WriteView>,
    streams: spec_fn(Seq<u8>) -> Seq<EventView>,
    n: int,
) -> bool {
    &&& 0 <= n < writes.len()
    &&& forall|i: int|
        0 <= i < n ==> takes_up(writes, i, streams((#[trigger] writes[i]).target).len())
    &&& names_length(writes[n].expected, reached(writes, streams, n))
    &&& exists|k: int|
        #[trigger] first_out_of_line(writes[n].events, reached(writes, streams, n), k) && reached(
            writes,
            streams,
            n,
        ) + k + 1 > u64::MAX
}

proof fn brings_what_is_planned(writes: Seq<WriteView>, n: nat, key: Seq<u8>)
    requires
        n <= writes.len(),
    ensures
        brings_rows(writes, n) == planned_rows(writes.take(n as int)),
        brings(writes, n, key) == routed(planned_rows(writes.take(n as int)), key),
    decreases n,
{
    if n == 0 {
        assert(writes.take(0) =~= Seq::empty());
    } else {
        let m = (n - 1) as nat;
        brings_what_is_planned(writes, m, key);
        let write = writes[n - 1];
        assert(writes.take(n as int).drop_last() =~= writes.take(m as int));
        assert(writes.take(n as int).last() == write);
        assert(rows_for(write.target, write.events) =~= Seq::new(
            write.events.len(),
            |i: int| (write.target, write.events[i]),
        ));
        routed_of_sum(
            planned_rows(writes.take(m as int)),
            rows_for(write.target, write.events),
            key,
        );
        routed_of_stream(write.target, write.events, key);
    }
}

/// A transaction over several streams lands whole: every stream is what it was and behind it what
/// the writes bring it, in order, and the read of all streams has the rows of the writes behind what
/// it had. There is an answer unless there was nothing to write, and it is the last position.
pub proof fn transaction_lands_whole(
    store: &mut TestStore,
    writes: &[PlannedAppend],
    position: Option<TestAllPos>,
    key: Seq<u8>,
    was: Seq<EventView>,
    is: Seq<EventView>,
    all_was: Seq<LogEntry>,
    all_is: Seq<LogEntry>,
)
    requires
        old(store).valid(),
        final(store).valid(),
        call_ensures(
            <TestStore as AtomicAppend>::atomic_append_many,
            (store, writes),
            Ok::<Option<TestAllPos>, AtomicAppendError<TestStoreError>>(position),
        ),
        reads_stream(&*old(store), key, was),
        reads_stream(&*final(store), key, is),
        reads_all(&*old(store), all_was),
        reads_all(&*final(store), all_is),
    ensures
        is == was + brings(write_views(writes@), writes@.len(), key),
        all_is.len() == all_was.len() + brings_rows(write_views(writes@), writes@.len()).len(),
        all_is.take(all_was.len() as int) == all_was,
        forall|i: int|
            all_was.len() <= i < all_is.len() ==> {
                &&& (#[trigger] all_is[i]).position == i + 1
                &&& (all_is[i].key, all_is[i].event) == brings_rows(
                    write_views(writes@),
                    writes@.len(),
                )[i - all_was.len()]
            },
        position is None <==> writes@.len() == 0,
        position matches Some(p) ==> p.ordinal() == all_is.last().position,
{
    stream_is_read(&*old(store), key, was);
    stream_is_read(&*final(store), key, is);
    log_is_read(&*old(store), all_was);
    log_is_read(&*final(store), all_is);
    let views = write_views(writes@);
    let n = writes@.len();
    brings_what_is_planned(views, n, key);
    assert(views.take(n as int) =~= views);
    let before = old(store).log();
    let after = final(store).log();
    stream_of_grown(before, after, planned_rows(views), key);
    assert(rows(after).len() == after.len());
    assert(rows(before).len() == before.len());
    assert forall|i: int| all_was.len() <= i < all_is.len() implies {
        &&& (#[trigger] all_is[i]).position == i + 1
        &&& (all_is[i].key, all_is[i].event) == brings_rows(views, n)[i - all_was.len()]
    } by {
        assert(rows(after)[i] == (rows(before) + planned_rows(views))[i]);
    }
}

/// A transaction that is refused leaves everything as it was. A conflict names the first write that
/// does not continue its target and the head that the target has at that write; the writes before it
/// all continue theirs.
pub proof fn refused_transaction_leaves_no_trace(
    store: &mut TestStore,
    writes: &[PlannedAppend],
    e: AtomicAppendError<TestStoreError>,
    key: Seq<u8>,
    was: Seq<EventView>,
    is: Seq<EventView>,
    all_was: Seq<LogEntry>,
    all_is: Seq<LogEntry>,
    streams: spec_fn(Seq<u8>) -> Seq<EventView>,
)
    requires
        old(store).valid(),
        final(store).valid(),
        call_ensures(
            <TestStore as AtomicAppend>::atomic_append_many,
            (store, writes),
            Err::<Option<TestAllPos>, AtomicAppendError<TestStoreError>>(e),
        ),
        reads_stream(&*old(store), key, was),
        reads_stream(&*final(store), key, is),
        reads_all(&*old(store), all_was),
        reads_all(&*final(store), all_is),
        forall|k: Seq<u8>| reads_stream(&*old(store), k, #[trigger] streams(k)),
    ensures
        is == was,
        all_is == all_was,
        ({
            let views = write_views(writes@);
            match e {
                AtomicAppendError::Conflict { index, actual } => {
                    &&& index < views.len()
                    &&& forall|i: int|
                        0 <= i < index ==> takes_up(
                            views,
                            i,
                            streams((#[trigger] views[i]).target).len(),
                        )
                    &&& !takes_up(
                        views,
                        index as int,
                        streams(views[index as int].target).len(),
                    )
                    &&& names_length(actual, reached(views, streams, index as int))
                    &&& names_length(
                        views[index as int].expected,
                        reached(views, streams, index as int),
                    ) ==> exists|k: int|
                        #[trigger] first_out_of_line(
                            views[index as int].events,
                            reached(views, streams, index as int),
                            k,
                        ) && reached(views, streams, index as int) + k + 1 <= u64::MAX
                },
                AtomicAppendError::Store(TestStoreError::PositionOverflow) => {
                    &&& all_was.len() + brings_rows(views, views.len()).len() > usize::MAX
                    &&& forall|i: int|
                        0 <= i < views.len() ==> takes_up(
                            views,
                            i,
                            streams((#[trigger] views[i]).target).len(),
                        )
                },
                AtomicAppendError::Store(TestStoreError::VersionOverflow) => exists|n: int|
                    #[trigger] runs_out_at(views, streams, n),
            }
        }),
{
    stream_is_read(&*old(store), key, was);
    stream_is_read(&*final(store), key, is);
    log_is_read(&*old(store), all_was);
    log_is_read(&*final(store), all_is);
    let views = write_views(writes@);
    let before = old(store).log();
    brings_what_is_planned(views, views.len(), key);
    assert(views.take(views.len() as int) =~= views);
    match e {
        AtomicAppendError::Conflict { index, actual } => {
            let at = index as int;
            assert forall|i: int| 0 <= i < at implies takes_up(
                views,
                i,
                streams((#[trigger] views[i]).target).len(),
            ) by {
                assert(write_fits(before, views, i));
                write_takes_up(&*old(store), writes, i, streams);
            }
            write_takes_up(&*old(store), writes, at, streams);
            lengths_stay_versions(&*old(store), writes, at, views[at].target);
            let length = reached(views, streams, at);
            if names_length(views[at].expected, length) {
                run_ends_out_of_line(views[at].events, length);
            }
        },
        AtomicAppendError::Store(TestStoreError::PositionOverflow) => {
            assert forall|i: int| 0 <= i < views.len() implies takes_up(
                views,
                i,
                streams((#[trigger] views[i]).target).len(),
            ) by {
                assert(write_fits(before, views, i));
                write_takes_up(&*old(store), writes, i, streams);
            }
        },
        AtomicAppendError::Store(TestStoreError::VersionOverflow) => {
            let n = choose|n: int|
                {
                    &&& 0 <= n < views.len()
                    &&& forall|i: int| 0 <= i < n ==> #[trigger] write_fits(before, views, i)
                    &&& !(#[trigger] write_fits(before, views, n))
                    &&& views[n].expected == head_at(running_len(before, views, n))
                    &&& overflows(running_len(before, views, n), views[n].events)
                };
            assert forall|i: int| 0 <= i < n implies takes_up(
                views,
                i,
                streams((#[trigger] views[i]).target).len(),
            ) by {
                assert(write_fits(before, views, i));
                write_takes_up(&*old(store), writes, i, streams);
            }
            write_takes_up(&*old(store), writes, n, streams);
            lengths_stay_versions(&*old(store), writes, n, views[n].target);
            let length = reached(views, streams, n);
            assert(!counts_on(views[n].events, length));
            run_ends_out_of_line(views[n].events, length);
            assert(runs_out_at(views, streams, n));
        },
    }
}

proof fn write_takes_up(
    store: &TestStore,
    writes: &[PlannedAppend],
    i: int,
    streams: spec_fn(Seq<u8>) -> Seq<EventView>,
)
    requires
        store.valid(),
        0 <= i < writes@.len(),
        forall|k: Seq<u8>| reads_stream(store, k, #[trigger] streams(k)),
    ensures
        takes_up(write_views(writes@), i, streams(write_views(writes@)[i].target).len())
            == write_fits(store.log(), write_views(writes@), i),
        running_len(store.log(), write_views(writes@), i) == streams(
            write_views(writes@)[i].target,
        ).len() + brings(write_views(writes@), i as nat, write_views(writes@)[i].target).len(),
{
    let views = write_views(writes@);
    let target = views[i].target;
    stream_is_read(store, target, streams(target));
    brings_what_is_planned(views, i as nat, target);
    let length = running_len(store.log(), views, i);
    let events = views[i].events;
    assert(counts_on(events, length) == dense(events, length));
    pending_version_fits(writes@[i].head);
    assert(events[0] == writes@[i].head@);
    if counts_on(events, length) {
        assert(events[0].version == length + 1);
        assert(length <= u64::MAX);
    }
}

/// Behind writes that fit, no stream is longer than there are versions.
proof fn lengths_stay_versions(store: &TestStore, writes: &[PlannedAppend], n: int, key: Seq<u8>)
    requires
        store.valid(),
        0 <= n <= writes@.len(),
        forall|i: int|
            0 <= i < n ==> #[trigger] write_fits(store.log(), write_views(writes@), i),
    ensures
        len_after(store.log(), write_views(writes@), n, key) <= u64::MAX,
    decreases n,
{
    let views = write_views(writes@);
    store.valid_log();
    assert(dense(stream_of(store.log(), key), 0));
    if n == 0 {
        assert(views.take(0) =~= Seq::empty());
        assert(routed(planned_rows(views.take(0)), key) =~= Seq::empty());
    } else {
        lengths_stay_versions(store, writes, n - 1, key);
        len_after_write(store.log(), views, n - 1, key);
        assert(write_fits(store.log(), views, n - 1));
        let write = writes@[n - 1];
        assert(views[n - 1] == write@);
        let events = write@.events;
        let last = events.len() - 1;
        if write.tail@.len() == 0 {
            pending_version_fits(write.head);
            assert(events[last] == write.head@);
        } else {
            pending_version_fits(write.tail@.last());
            assert(events[last] == write.tail@.last()@);
        }
    }
}

/// A transaction whose writes all continue their targets is taken, as long as there is room.
pub proof fn transaction_that_continues_is_taken(
    store: &mut TestStore,
    writes: &[PlannedAppend],
    r: Result<Option<TestAllPos>, AtomicAppendError<TestStoreError>>,
    all_was: Seq<LogEntry>,
    streams: spec_fn(Seq<u8>) -> Seq<EventView>,
)
    requires
        old(store).valid(),
        call_ensures(<TestStore as AtomicAppend>::atomic_append_many, (store, writes), r),
        reads_all(&*old(store), all_was),
        forall|k: Seq<u8>| reads_stream(&*old(store), k, #[trigger] streams(k)),
    ensures
        r is Ok <==> {
            let views = write_views(writes@);
            &&& forall|i: int|
                0 <= i < views.len() ==> takes_up(
                    views,
                    i,
                    streams((#[trigger] views[i]).target).len(),
                )
            &&& all_was.len() + brings_rows(views, views.len()).len() <= usize::MAX
        },
{
    log_is_read(&*old(store), all_was);
    let views = write_views(writes@);
    let before = old(store).log();
    assert forall|i: int| 0 <= i < views.len() implies takes_up(
        views,
        i,
        streams((#[trigger] views[i]).target).len(),
    ) == write_fits(before, views, i) by {
        write_takes_up(&*old(store), writes, i, streams);
    }
    brings_what_is_planned(views, views.len(), Seq::empty());
    assert(views.take(views.len() as int) =~= views);
    if forall|i: int|
        0 <= i < views.len() ==> takes_up(views, i, streams((#[trigger] views[i]).target).len()) {
        assert forall|i: int| 0 <= i < views.len() implies #[trigger] write_fits(
            before,
            views,
            i,
        ) by {
            assert(takes_up(views, i, streams(views[i].target).len()));
        }
    }
    if forall|i: int| 0 <= i < views.len() ==> #[trigger] write_fits(before, views, i) {
        assert forall|i: int| 0 <= i < views.len() implies takes_up(
            views,
            i,
            streams((#[trigger] views[i]).target).len(),
        ) by {
            assert(write_fits(before, views, i));
        }
    }
}

// ── Handles and wakes ───────────────────────────────────────────────────────────────────────────

/// A shared handle reads what its backend reads, and so does every other handle to it.
pub proof fn handle_reads_its_backend<S: RawEventStore>(
    raw: S,
    store: Store<S>,
    handle: Store<S>,
    id: &StreamKey,
    from: Version,
    r: Result<Vec<PersistedEnvelope>, S::Error>,
    behind: Option<S::AllPosition>,
    all: Result<Vec<(S::AllPosition, StreamKey, PersistedEnvelope)>, S::Error>,
)
    requires
        call_ensures(Store::<S>::new, (raw,), store),
        call_ensures(<Store<S> as Clone>::clone, (&store,), handle),
        call_ensures(Store::<S>::read_stream, (&handle, id, from), r),
        call_ensures(Store::<S>::read_all, (&handle, behind), all),
    ensures
        call_ensures(S::read_stream, (&raw, id, from), r),
        call_ensures(S::read_all, (&raw, behind), all),
{
}

/// A handle gives its backend back, however it was made.
pub proof fn handle_holds_its_backend<S: RawEventStore>(
    raw: S,
    store: Store<S>,
    direct: Store<S>,
    read: &S,
    pointer: &Arc<S>,
    subscriptions: Subscription<S>,
    subscribed: &Arc<S>,
)
    requires
        call_ensures(S::into_store, (raw,), store),
        call_ensures(Store::<S>::new, (raw,), direct),
        call_ensures(Store::<S>::raw, (&direct,), read),
        call_ensures(Store::<S>::arc, (&direct,), pointer),
        call_ensures(Subscription::<S>::new, (&direct,), subscriptions),
        call_ensures(Subscription::<S>::store, (&subscriptions,), subscribed),
    ensures
        store.backend() == raw,
        *read == raw,
        **pointer == raw,
        **subscribed == raw,
{
}

/// A wait that was armed before a commit ends with it: the store then shows another generation than
/// the one that counts as seen, on the same channel. What is refused ends no wait.
pub proof fn commit_ends_the_armed_wait(
    store: &mut TestStore,
    registration: &TestWakeReg,
    wait: watch::Receiver<u64>,
    id: &StreamKey,
    expected: Option<Version>,
    batch: PendingBatch<'_>,
    r: Result<TestAllPos, AppendError<TestStoreError>>,
)
    requires
        call_ensures(TestStore::arm, (&*old(store), registration), wait),
        call_ensures(<TestStore as RawEventStore>::append, (store, id, expected, batch), r),
    ensures
        observed_by(wait) == final(store).channel(),
        r is Ok <==> seen_by(wait) != final(store).generation(),
{
}

/// A transaction ends an armed wait exactly if it wrote anything.
pub proof fn transaction_ends_the_armed_wait(
    store: &mut TestStore,
    registration: &TestWakeReg,
    wait: watch::Receiver<u64>,
    writes: &[PlannedAppend],
    r: Result<Option<TestAllPos>, AtomicAppendError<TestStoreError>>,
)
    requires
        call_ensures(TestStore::arm, (&*old(store), registration), wait),
        call_ensures(<TestStore as AtomicAppend>::atomic_append_many, (store, writes), r),
    ensures
        observed_by(wait) == final(store).channel(),
        r is Ok && writes@.len() > 0 <==> seen_by(wait) != final(store).generation(),
{
}

/// A wake ends an armed wait, whichever stream it is for, and changes no stored event.
pub proof fn wake_ends_the_armed_wait(
    store: &mut TestStore,
    registration: &TestWakeReg,
    wait: watch::Receiver<u64>,
    stream: &[u8],
)
    requires
        call_ensures(TestStore::arm, (&*old(store), registration), wait),
        call_ensures(<TestStore as WakeSource>::wake, (store, stream), ()),
    ensures
        observed_by(wait) == final(store).channel(),
        seen_by(wait) != final(store).generation(),
        final(store).log() == old(store).log(),
{
}

/// A registration with the store, for whatever stream, has seen what the store's counter shows, on
/// the store's channel, and changes nothing.
pub proof fn registration_sees_the_store(
    store: &mut TestStore,
    target: Option<&[u8]>,
    r: Result<TestWakeReg, Infallible>,
)
    requires
        call_ensures(<TestStore as WakeSource>::register, (store, target), r),
    ensures
        r matches Ok(registration) && registration.channel() == final(store).channel()
            && registration.seen() == final(store).generation(),
        final(store).log() == old(store).log(),
        final(store).generation() == old(store).generation(),
        final(store).channel() == old(store).channel(),
{
}

/// A wait on a registration itself stays on the registration's channel.
pub proof fn wait_stays_with_the_store(registration: &TestWakeReg, wait: watch::Receiver<u64>)
    requires
        call_ensures(<TestWakeReg as WakeRegistration>::arm, (registration,), wait),
    ensures
        observed_by(wait) == registration.channel(),
{
}

/// Positions compare as the numbers they stand for.
pub proof fn positions_compare_as_numbers(
    a: TestAllPos,
    b: TestAllPos,
    x: u64,
    y: u64,
    r: bool,
)
    requires
        call_ensures(TestAllPos::as_u64, (a,), x),
        call_ensures(TestAllPos::as_u64, (b,), y),
        call_ensures(<TestAllPos as AllPosition>::precedes, (a, b), r),
    ensures
        r <==> x < y,
        x > 0,
{
}

} // verus!
