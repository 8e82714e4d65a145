//! The mathematical model of an event store: one log of every stream's events.

use crate::envelope::EventView;
use crate::version::{head_at, Version};
use vstd::prelude::*;

verus! {

/// One row of the log: an event, the stream it belongs to and its `$all` position.
#[verifier::ext_equal]
pub struct LogEntry {
    pub position: int,
    pub key: Seq<u8>,
    pub event: EventView,
}

/// An event together with the stream it belongs to.
pub type Row = (Seq<u8>, EventView);

/// The log without its positions.
pub open spec fn rows(log: Seq<LogEntry>) -> Seq<Row> {
    Seq::new(log.len(), |i: int| (log[i].key, log[i].event))
}

/// One stream's events as rows.
pub open spec fn rows_for(key: Seq<u8>, events: Seq<EventView>) -> Seq<Row> {
    Seq::new(events.len(), |i: int| (key, events[i]))
}

/// The events among `rows` that belong to the stream `key`, in order.
pub open spec fn routed(rows: Seq<Row>, key: Seq<u8>) -> Seq<EventView>
    decreases rows.len(),
{
    if rows.len() == 0 {
        Seq::empty()
    } else {
        let rest = routed(rows.drop_last(), key);
        if rows.last().0 == key {
            rest.push(rows.last().1)
        } else {
            rest
        }
    }
}

/// One stream of the log.
pub open spec fn stream_of(log: Seq<LogEntry>, key: Seq<u8>) -> Seq<EventView> {
    routed(rows(log), key)
}

/// The head of one stream of the log; `None` for a fresh stream.
pub open spec fn head_of(log: Seq<LogEntry>, key: Seq<u8>) -> Option<Version> {
    head_at(stream_of(log, key).len())
}

/// The versions are `base + 1`, `base + 2` and so on: no gap, duplicate or swap.
pub open spec fn dense(events: Seq<EventView>, base: nat) -> bool {
    forall|i: int| 0 <= i < events.len() ==> (#[trigger] events[i]).version == base + i + 1
}

/// The positions strictly increase.
pub open spec fn ordered(log: Seq<LogEntry>) -> bool {
    forall|i: int, j: int| 0 <= i < j < log.len() ==> log[i].position < log[j].position
}

/// What holds of every store's log: positions strictly increase, and each stream's versions
/// count up from 1.
pub open spec fn log_ok(log: Seq<LogEntry>) -> bool {
    &&& ordered(log)
    &&& forall|key: Seq<u8>|
        dense(#[trigger] stream_of(log, key), 0) && stream_of(log, key).len() <= u64::MAX
}

/// `after` is `before` with `added` appended at new positions.
pub open spec fn extends(before: Seq<LogEntry>, after: Seq<LogEntry>, added: Seq<Row>) -> bool {
    &&& before.len() <= after.len()
    &&& after.take(before.len() as int) == before
    &&& rows(after) == rows(before) + added
}

/// The versions of a sequence of events.
pub open spec fn event_versions(events: Seq<EventView>) -> Seq<Option<nat>> {
    Seq::new(events.len(), |i: int| Some(events[i].version))
}

/// How many of the versions, from the first on, count up from `base + 1`.
pub open spec fn leading_run(versions: Seq<Option<nat>>, base: nat) -> nat
    decreases versions.len(),
{
    if versions.len() > 0 && versions[0] == Some(base + 1) {
        1 + leading_run(versions.skip(1), base + 1)
    } else {
        0
    }
}

/// Whether a store at `log` takes `events` onto the stream `key` from a caller who expects the
/// head `expected`.
pub open spec fn accepts(
    log: Seq<LogEntry>,
    key: Seq<u8>,
    expected: Option<Version>,
    events: Seq<EventView>,
) -> bool {
    &&& expected == head_of(log, key)
    &&& dense(events, stream_of(log, key).len())
}

/// Whether the batch is out of step only where the next version would pass `u64::MAX`.
pub open spec fn overflows(base: nat, events: Seq<EventView>) -> bool {
    let run = leading_run(event_versions(events), base);
    run < events.len() && base + run + 1 > u64::MAX
}

/// Which events an inclusive read from version `from` yields.
pub open spec fn from_version(from: nat) -> spec_fn(EventView) -> bool {
    |event: EventView| event.version >= from
}

/// One stream of the log from version `from` on, `from` included.
pub open spec fn stream_from(log: Seq<LogEntry>, key: Seq<u8>, from: nat) -> Seq<EventView> {
    stream_of(log, key).filter(from_version(from))
}

/// Which rows an exclusive read behind `from` yields.
pub open spec fn behind(from: Option<int>) -> spec_fn(LogEntry) -> bool {
    |entry: LogEntry| from is None || entry.position > from->0
}

/// The log strictly behind `from`, all of it for `None`.
pub open spec fn all_behind(log: Seq<LogEntry>, from: Option<int>) -> Seq<LogEntry> {
    log.filter(behind(from))
}

pub proof fn routed_of_sum(a: Seq<Row>, b: Seq<Row>, key: Seq<u8>)
    ensures
        routed(a + b, key) == routed(a, key) + routed(b, key),
    decreases b.len(),
{
    if b.len() == 0 {
        assert(a + b =~= a);
        assert(routed(a, key) + routed(b, key) =~= routed(a, key));
    } else {
        routed_of_sum(a, b.drop_last(), key);
        assert((a + b).drop_last() =~= a + b.drop_last());
        assert((a + b).last() == b.last());
        assert(routed(a + b, key) =~= routed(a, key) + routed(b, key));
    }
}

pub proof fn routed_of_stream(key: Seq<u8>, events: Seq<EventView>, other: Seq<u8>)
    ensures
        routed(rows_for(key, events), other) == (if other == key {
            events
        } else {
            Seq::empty()
        }),
    decreases events.len(),
{
    let all = rows_for(key, events);
    if events.len() == 0 {
        assert(routed(all, other) =~= Seq::<EventView>::empty());
        assert(events =~= Seq::empty());
    } else {
        routed_of_stream(key, events.drop_last(), other);
        assert(all.drop_last() =~= rows_for(key, events.drop_last()));
        assert(events.drop_last().push(events.last()) =~= events);
    }
}

/// Appended rows go to the streams they belong to.
pub proof fn stream_of_grown(
    before: Seq<LogEntry>,
    after: Seq<LogEntry>,
    added: Seq<Row>,
    key: Seq<u8>,
)
    requires
        extends(before, after, added),
    ensures
        stream_of(after, key) == stream_of(before, key) + routed(added, key),
{
    routed_of_sum(rows(before), added, key);
}

/// Two appends in a row are one append of both.
pub proof fn extends_twice(
    first: Seq<LogEntry>,
    second: Seq<LogEntry>,
    third: Seq<LogEntry>,
    a: Seq<Row>,
    b: Seq<Row>,
)
    requires
        extends(first, second, a),
        extends(second, third, b),
    ensures
        extends(first, third, a + b),
{
    assert(third.take(first.len() as int) =~= second.take(first.len() as int));
    assert(rows(third) =~= rows(first) + (a + b));
}

/// An append to `key` adds its events to that stream and leaves every other stream alone.
pub proof fn stream_of_extended(
    before: Seq<LogEntry>,
    after: Seq<LogEntry>,
    key: Seq<u8>,
    events: Seq<EventView>,
    other: Seq<u8>,
)
    requires
        extends(before, after, rows_for(key, events)),
    ensures
        stream_of(after, other) == (if other == key {
            stream_of(before, key) + events
        } else {
            stream_of(before, other)
        }),
{
    routed_of_sum(rows(before), rows_for(key, events), other);
    routed_of_stream(key, events, other);
    assert(stream_of(before, other) + Seq::<EventView>::empty() =~= stream_of(before, other));
}

pub proof fn leading_run_bounds(versions: Seq<Option<nat>>, base: nat)
    ensures
        leading_run(versions, base) <= versions.len(),
        forall|i: int|
            0 <= i < leading_run(versions, base) ==> (#[trigger] versions[i]) == Some(
                (base + i + 1) as nat,
            ),
        leading_run(versions, base) < versions.len() ==> versions[leading_run(
            versions,
            base,
        ) as int] != Some(base + leading_run(versions, base) + 1),
    decreases versions.len(),
{
    if versions.len() > 0 && versions[0] == Some(base + 1) {
        leading_run_bounds(versions.skip(1), base + 1);
        let run = leading_run(versions, base);
        assert forall|i: int| 0 <= i < run implies (#[trigger] versions[i]) == Some(
            (base + i + 1) as nat,
        ) by {
            if i > 0 {
                assert(versions.skip(1)[i - 1] == versions[i]);
            }
        }
        if run < versions.len() {
            assert(versions.skip(1)[run - 1] == versions[run as int]);
        }
    }
}

/// The leading run is the one length up to which the versions count up.
pub proof fn leading_run_is(versions: Seq<Option<nat>>, base: nat, run: nat)
    requires
        run <= versions.len(),
        forall|i: int|
            0 <= i < run ==> (#[trigger] versions[i]) == Some((base + i + 1) as nat),
        run < versions.len() ==> versions[run as int] != Some(base + run + 1),
    ensures
        leading_run(versions, base) == run,
{
    leading_run_bounds(versions, base);
    let found = leading_run(versions, base);
    if found < run {
        assert(versions[found as int] == Some((base + found + 1) as nat));
    }
    if run < found {
        assert(versions[run as int] == Some((base + run + 1) as nat));
    }
}

/// A batch is dense exactly when its leading run is the whole of it.
pub proof fn dense_is_whole_run(events: Seq<EventView>, base: nat)
    ensures
        dense(events, base) <==> leading_run(event_versions(events), base) == events.len(),
{
    let versions = event_versions(events);
    leading_run_bounds(versions, base);
    let run = leading_run(versions, base);
    if dense(events, base) {
        if run < events.len() {
            assert(events[run as int].version == base + run + 1);
        }
    }
    if run == events.len() {
        assert forall|i: int| 0 <= i < events.len() implies (#[trigger] events[i]).version == base
            + i + 1 by {
            assert(versions[i] == Some((base + i + 1) as nat));
        }
    }
}

/// In a stream whose versions count up from 1, the events from version `from` on are those behind
/// the first `from - 1`.
pub proof fn dense_from_version(events: Seq<EventView>, from: nat)
    requires
        dense(events, 0),
        from >= 1,
    ensures
        events.filter(from_version(from)) == (if from - 1 <= events.len() {
            events.skip(from - 1)
        } else {
            Seq::empty()
        }),
    decreases events.len(),
{
    reveal(Seq::filter);
    let keep = from_version(from);
    if events.len() == 0 {
        assert(events.filter(keep) =~= Seq::empty());
        if from == 1 {
            assert(events.skip(0) =~= Seq::empty());
        }
    } else {
        let rest = events.drop_last();
        dense_from_version(rest, from);
        assert(events.last().version == events.len());
        assert(rest.push(events.last()) =~= events);
        if from <= events.len() {
            assert(events.skip(from - 1) =~= rest.skip(from - 1).push(events.last()));
        } else if from == events.len() + 1 {
            assert(rest.filter(keep) =~= Seq::empty());
            assert(events.skip(from - 1) =~= Seq::empty());
        }
    }
}

/// How many rows of the log are at or before `from`; none for `None`.
pub open spec fn count_upto(log: Seq<LogEntry>, from: Option<int>) -> nat
    decreases log.len(),
{
    if log.len() == 0 {
        0
    } else {
        count_upto(log.drop_last(), from) + if from is Some && log.last().position <= from->0 {
            1nat
        } else {
            0nat
        }
    }
}

/// In an ordered log, the rows behind `from` are those behind the ones at or before it.
pub proof fn ordered_behind(log: Seq<LogEntry>, from: Option<int>)
    requires
        ordered(log),
    ensures
        count_upto(log, from) <= log.len(),
        forall|i: int|
            0 <= i < log.len() ==> (i < count_upto(log, from) <==> from is Some && (
            #[trigger] log[i]).position <= from->0),
        all_behind(log, from) == log.skip(count_upto(log, from) as int),
    decreases log.len(),
{
    reveal(Seq::filter);
    let keep = behind(from);
    if log.len() == 0 {
        assert(log.skip(0) =~= log.filter(keep));
    } else {
        let rest = log.drop_last();
        ordered_behind(rest, from);
        let n = count_upto(rest, from);
        assert forall|i: int| 0 <= i < log.len() implies (i < count_upto(log, from) <==> from is Some
            && (#[trigger] log[i]).position <= from->0) by {
            if i < rest.len() {
                assert(log[i] == rest[i]);
                assert(rest[i].position < log[log.len() - 1].position);
            } else if n < rest.len() {
                assert(!(from is Some && rest[n as int].position <= from->0));
                assert(rest[n as int] == log[n as int]);
                assert(log[n as int].position < log[log.len() - 1].position);
            }
        }
        if keep(log.last()) {
            assert(log.skip(n as int) =~= rest.skip(n as int).push(log.last()));
        } else {
            if n < rest.len() {
                assert(!(from is Some && rest[n as int].position <= from->0));
                assert(rest[n as int] == log[n as int]);
                assert(log[n as int].position < log[log.len() - 1].position);
            }
            assert(log.skip(log.len() as int) =~= rest.skip(n as int));
        }
    }
}

/// A read that resumes behind the `n`-th row of another read yields the rest of it.
pub proof fn resumed_behind(log: Seq<LogEntry>, from: Option<int>, n: int)
    requires
        ordered(log),
        0 < n <= all_behind(log, from).len(),
    ensures
        all_behind(log, Some(all_behind(log, from)[n - 1].position)) == all_behind(log, from).skip(
            n,
        ),
{
    ordered_behind(log, from);
    let found = all_behind(log, from);
    let c = count_upto(log, from) as int;
    let mark = found[n - 1].position;
    assert(found[n - 1] == log[c + n - 1]);
    ordered_behind(log, Some(mark));
    let d = count_upto(log, Some(mark)) as int;
    assert(c + n - 1 < d);
    if c + n < log.len() {
        assert(log[c + n - 1].position < log[c + n].position);
        assert(!(c + n < d));
    }
    assert(d == c + n);
    assert(log.skip(d) =~= found.skip(n));
}

} // verus!
