//! Laws of appends and reads.

use crate::envelope::EventView;
use crate::error::AppendError;
use crate::log::{
    accepts, all_behind, count_upto, dense, dense_from_version, dense_is_whole_run, event_versions,
    extends, from_version, head_of, leading_run, leading_run_is, log_ok, ordered, ordered_behind,
    overflows, resumed_behind, rows, rows_for, stream_from, stream_of, stream_of_extended,
    stream_of_grown, LogEntry, Row,
};
use crate::store::{append_reply, AllPosition};
use crate::version::{group_version, head_at, version_at, Version};
use vstd::prelude::*;

verus! {

broadcast use group_version;

/// What an append wrote, a read gives back: the stream reads as before up to the old head, and
/// behind it as the batch.
pub proof fn append_reads_back<P: AllPosition, E>(
    before: Seq<LogEntry>,
    after: Seq<LogEntry>,
    key: Seq<u8>,
    expected: Option<Version>,
    events: Seq<EventView>,
    position: P,
)
    requires
        log_ok(before),
        log_ok(after),
        append_reply::<P, E>(before, after, key, expected, events, Ok(position)),
    ensures
        stream_from(after, key, 1) == stream_from(before, key, 1) + events,
        stream_from(after, key, stream_of(before, key).len() + 1) == events,
        head_of(after, key) == head_at(stream_of(before, key).len() + events.len()),
{
    stream_of_extended(before, after, key, events, key);
    assert(dense(stream_of(before, key), 0));
    assert(dense(stream_of(after, key), 0));
    reads_of_grown(stream_of(before, key), events);
}

proof fn reads_of_grown(stream: Seq<EventView>, events: Seq<EventView>)
    requires
        dense(stream, 0),
        dense(stream + events, 0),
    ensures
        (stream + events).filter(from_version(1)) == stream.filter(from_version(1)) + events,
        (stream + events).filter(from_version(stream.len() + 1)) == events,
{
    let grown = stream + events;
    dense_from_version(stream, 1);
    dense_from_version(grown, 1);
    dense_from_version(grown, stream.len() + 1);
    assert(stream.skip(0) =~= stream);
    assert(grown.skip(0) =~= grown);
    split_behind(stream, events);
}

proof fn split_behind<T>(a: Seq<T>, b: Seq<T>)
    ensures
        (a + b).skip(a.len() as int) == b,
{
    assert((a + b).skip(a.len() as int) =~= b);
}

/// An append to one stream leaves every other stream as it was.
pub proof fn append_leaves_other_streams<P: AllPosition, E>(
    before: Seq<LogEntry>,
    after: Seq<LogEntry>,
    key: Seq<u8>,
    expected: Option<Version>,
    events: Seq<EventView>,
    reply: Result<P, AppendError<E>>,
    other: Seq<u8>,
    from: nat,
)
    requires
        append_reply(before, after, key, expected, events, reply),
        other != key,
    ensures
        stream_from(after, other, from) == stream_from(before, other, from),
        head_of(after, other) == head_of(before, other),
{
    match reply {
        Ok(_) => {
            stream_of_extended(before, after, key, events, other);
        },
        _ => {},
    }
}

/// A refused append changes nothing: every read answers as before.
pub proof fn refused_append_changes_nothing<P: AllPosition, E>(
    before: Seq<LogEntry>,
    after: Seq<LogEntry>,
    key: Seq<u8>,
    expected: Option<Version>,
    events: Seq<EventView>,
    e: AppendError<E>,
    stream: Seq<u8>,
    version: nat,
    position: Option<int>,
)
    requires
        append_reply::<P, E>(before, after, key, expected, events, Err(e)),
    ensures
        stream_from(after, stream, version) == stream_from(before, stream, version),
        all_behind(after, position) == all_behind(before, position),
{
}

/// The position that an append answers is that of its last event, and nothing stands behind it: a
/// reader that has reached it has seen the whole batch.
pub proof fn append_answers_the_last_position<P: AllPosition, E>(
    before: Seq<LogEntry>,
    after: Seq<LogEntry>,
    key: Seq<u8>,
    expected: Option<Version>,
    events: Seq<EventView>,
    position: P,
)
    requires
        log_ok(after),
        events.len() > 0,
        append_reply::<P, E>(before, after, key, expected, events, Ok(position)),
    ensures
        after.last().position == position.ordinal(),
        after.last().key == key,
        after.last().event == events.last(),
        all_behind(after, Some(position.ordinal())).len() == 0,
        forall|i: int|
            before.len() <= i < after.len() ==> (#[trigger] after[i]).position
                <= position.ordinal(),
{
    let last = after.len() - 1;
    assert(rows(after).len() == after.len());
    assert(rows(after)[last] == (rows(before) + rows_for(key, events))[last]);
    ordered_behind(after, Some(position.ordinal()));
    assert(last < count_upto(after, Some(position.ordinal())));
    assert(all_behind(after, Some(position.ordinal())) =~= Seq::empty());
    assert forall|i: int| before.len() <= i < after.len() implies (#[trigger] after[i]).position
        <= position.ordinal() by {
        if i < last {
            assert(after[i].position < after[last].position);
        }
    }
}

/// Behind the positions of the log before it, an append adds exactly its batch, in order.
pub proof fn append_adds_behind<P: AllPosition, E>(
    before: Seq<LogEntry>,
    after: Seq<LogEntry>,
    key: Seq<u8>,
    expected: Option<Version>,
    events: Seq<EventView>,
    position: P,
)
    requires
        log_ok(after),
        before.len() > 0,
        append_reply::<P, E>(before, after, key, expected, events, Ok(position)),
    ensures
        rows(all_behind(after, Some(before.last().position))) == rows_for(key, events),
{
    let mark = before.last().position;
    let n = before.len() as int;
    assert(after.take(n)[n - 1] == after[n - 1]);
    assert(after[n - 1] == before[n - 1]);
    ordered_behind(after, Some(mark));
    let c = count_upto(after, Some(mark)) as int;
    assert(n - 1 < c);
    assert(rows(after).len() == after.len());
    if n < after.len() {
        assert(after[n - 1].position < after[n].position);
        assert(!(n < c));
    }
    assert(c == n);
    assert(rows(after.skip(n)) =~= rows_for(key, events)) by {
        assert forall|i: int| 0 <= i < rows(after.skip(n)).len() implies (
        #[trigger] rows(after.skip(n))[i]) == rows_for(key, events)[i] by {
            assert(rows(after)[n + i] == (rows(before) + rows_for(key, events))[n + i]);
        }
    }
}

/// Later appends answer later positions, whatever streams they go to and whatever is appended
/// between them.
pub proof fn later_appends_answer_later_positions<P: AllPosition, E>(
    first_before: Seq<LogEntry>,
    first_after: Seq<LogEntry>,
    first_key: Seq<u8>,
    first_expected: Option<Version>,
    first_events: Seq<EventView>,
    first: P,
    between: Seq<Row>,
    second_before: Seq<LogEntry>,
    second_after: Seq<LogEntry>,
    second_key: Seq<u8>,
    second_expected: Option<Version>,
    second_events: Seq<EventView>,
    second: P,
)
    requires
        append_reply::<P, E>(
            first_before,
            first_after,
            first_key,
            first_expected,
            first_events,
            Ok(first),
        ),
        extends(first_after, second_before, between),
        append_reply::<P, E>(
            second_before,
            second_after,
            second_key,
            second_expected,
            second_events,
            Ok(second),
        ),
        second_events.len() > 0,
        log_ok(second_after),
    ensures
        first.ordinal() < second.ordinal(),
{
    let i = first_after.len() - 1;
    assert(second_before.take(first_after.len() as int)[i] == second_before[i]);
    assert(second_after.take(second_before.len() as int)[i] == second_after[i]);
    assert(rows(second_after).len() == second_after.len());
    assert(rows(second_before).len() == second_before.len());
    assert(i < second_after.len() - 1);
    assert(second_after[i].position < second_after[second_after.len() - 1].position);
}

/// Of two appends with the same expectation, the second is refused once the first has landed,
/// whatever is appended between them.
pub proof fn same_expectation_lands_once<P: AllPosition, E>(
    before: Seq<LogEntry>,
    after: Seq<LogEntry>,
    key: Seq<u8>,
    expected: Option<Version>,
    events: Seq<EventView>,
    position: P,
    between: Seq<Row>,
    later: Seq<LogEntry>,
    others: Seq<EventView>,
)
    requires
        append_reply::<P, E>(before, after, key, expected, events, Ok(position)),
        events.len() > 0,
        extends(after, later, between),
        log_ok(later),
    ensures
        !accepts(later, key, expected, others),
{
    stream_of_extended(before, after, key, events, key);
    stream_of_grown(after, later, between, key);
    let n = stream_of(before, key).len();
    let m = stream_of(later, key).len();
    assert(m <= u64::MAX) by {
        assert(dense(stream_of(later, key), 0));
    }
    assert(n < m);
    if n > 0 {
        assert(version_at(n)@ == n);
    }
    assert(version_at(m)@ == m);
}

/// A conflict names the head that a retry needs: a batch that continues from there is taken, as
/// long as nothing else is appended to the stream.
pub proof fn conflict_names_the_head_to_retry_from<P: AllPosition, E>(
    before: Seq<LogEntry>,
    after: Seq<LogEntry>,
    key: Seq<u8>,
    expected: Option<Version>,
    events: Seq<EventView>,
    e: AppendError<E>,
    retry: Seq<EventView>,
)
    requires
        append_reply::<P, E>(before, after, key, expected, events, Err(e)),
        e is Conflict,
        dense(retry, stream_of(after, key).len()),
    ensures
        e matches AppendError::Conflict { actual, .. } && accepts(after, key, actual, retry),
{
}

/// A read of one stream takes its bound along: from version `from` on it yields everything but the
/// first `from - 1` events.
pub proof fn stream_read_is_inclusive(log: Seq<LogEntry>, key: Seq<u8>, from: nat)
    requires
        log_ok(log),
        1 <= from,
    ensures
        stream_from(log, key, from) == (if from - 1 <= stream_of(log, key).len() {
            stream_of(log, key).skip(from - 1)
        } else {
            Seq::empty()
        }),
        forall|i: int|
            0 <= i < stream_from(log, key, from).len() ==> (#[trigger] stream_from(
                log,
                key,
                from,
            )[i]).version == from + i,
{
    assert(dense(stream_of(log, key), 0));
    dense_from_version(stream_of(log, key), from);
}

/// A read of all streams leaves its bound out, and keeps the order: what it yields behind a
/// position stands behind it, at increasing positions.
pub proof fn all_read_is_exclusive(log: Seq<LogEntry>, from: Option<int>)
    requires
        log_ok(log),
    ensures
        ordered(all_behind(log, from)),
        forall|i: int|
            0 <= i < all_behind(log, from).len() ==> from is None || (#[trigger] all_behind(
                log,
                from,
            )[i]).position > from->0,
        from is None ==> all_behind(log, from) == log,
{
    ordered_behind(log, from);
    let c = count_upto(log, from) as int;
    let found = all_behind(log, from);
    assert forall|i: int| 0 <= i < found.len() implies from is None || (
    #[trigger] found[i]).position > from->0 by {
        assert(found[i] == log[c + i]);
    }
    if from is None {
        if c > 0 {
            assert(log[0] == log[0]);
        }
        assert(log.skip(0) =~= log);
    }
}

/// A read that stops after `n` rows and resumes behind the last of them misses nothing and repeats
/// nothing.
pub proof fn resumed_read_reconstructs(log: Seq<LogEntry>, from: Option<int>, n: int)
    requires
        log_ok(log),
        0 < n <= all_behind(log, from).len(),
    ensures
        ({
            let page = all_behind(log, from).take(n);
            page + all_behind(log, Some(page.last().position)) == all_behind(log, from)
        }),
{
    let found = all_behind(log, from);
    resumed_behind(log, from, n);
    assert(found.take(n).last() == found[n - 1]);
    assert(found.take(n) + found.skip(n) =~= found);
}

/// The validation of a batch decides whether a store takes it: the caller expects the head that the
/// stream has, and the whole batch counts up from there.
pub proof fn validation_decides_acceptance(
    log: Seq<LogEntry>,
    key: Seq<u8>,
    expected: Option<Version>,
    events: Seq<EventView>,
)
    ensures
        accepts(log, key, expected, events) <==> {
            let current = stream_of(log, key).len();
            &&& expected == head_at(current)
            &&& leading_run(event_versions(events), current) == events.len()
        },
{
    dense_is_whole_run(events, stream_of(log, key).len());
}

/// A stream at the last version there is takes nothing more, and what it refuses is an overflow and
/// no conflict.
pub proof fn full_stream_overflows(events: Seq<EventView>)
    requires
        events.len() > 0,
        events[0].version <= u64::MAX,
    ensures
        overflows(u64::MAX as nat, events),
        !dense(events, u64::MAX as nat),
{
    let versions = event_versions(events);
    leading_run_is(versions, u64::MAX as nat, 0);
    if dense(events, u64::MAX as nat) {
        assert(events[0].version == u64::MAX + 1);
    }
}

} // verus!
