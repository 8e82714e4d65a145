//! Laws of subscriptions.

use crate::codec::OwningCodec;
use crate::decoded::{
    events_of, item_decoded, phase_dropped, step_decoded, DecodeStreamError, RawItem,
};
use crate::envelope::{EventView, PersistedEnvelope};
use crate::log::{
    all_behind, count_upto, dense, extends, log_ok, ordered, ordered_behind, stream_of,
    stream_of_grown, LogEntry, Row,
};
use crate::octets::optional_octets;
use crate::step::Step;
use crate::subscription::{
    action_of, chunk_of, handed_out, left_of, owed, scanned, CursorView, Phase, CATCHUP_CHUNK,
};
use vstd::prelude::*;

verus! {

/// The boundary comes at most once: a scan hands it out only if it was not handed out before, and
/// from then on it counts as handed out.
pub proof fn boundary_comes_once<P, T>(c: CursorView<P>, found: Seq<(P, T)>)
    ensures
        handed_out(c, found).contains(Step::CaughtUp) ==> !c.announced && scanned(
            c,
            found,
        ).announced,
        c.announced ==> scanned(c, found).announced,
{
    let steps = handed_out(c, found);
    if steps.contains(Step::CaughtUp) {
        let i = choose|i: int| 0 <= i < steps.len() && steps[i] == Step::<(P, T)>::CaughtUp;
        if found.len() > 0 {
            assert(steps[i] == Step::Event(chunk_of(found)[i]));
        }
    }
}

/// No lost wake: the loop comes to wait only by a scan that found nothing once a wait was armed.
pub proof fn waits_only_behind_an_armed_scan<P, T>(c: CursorView<P>, found: Seq<(P, T)>)
    requires
        action_of(c) is Scan,
        action_of(scanned(c, found)) is Wait,
    ensures
        c.phase == Phase::Confirming,
        found.len() == 0,
{
}

/// A scan moves the cursor behind the last row that it handed out, and nowhere else.
pub proof fn cursor_stands_behind_what_was_handed_out<P, T>(c: CursorView<P>, found: Seq<(P, T)>)
    ensures
        found.len() == 0 ==> scanned(c, found).position == c.position,
        found.len() > 0 ==> {
            let steps = handed_out(c, found);
            &&& 0 < steps.len() <= CATCHUP_CHUNK
            &&& steps.last() matches Step::Event(row) && scanned(c, found).position == Some(row.0)
            &&& steps.len() == found.len() || steps.len() == CATCHUP_CHUNK
        },
{
}

/// No gap and no duplicate: what a subscription yields in one run and, once the store has grown,
/// in the next, is what one run over the grown store yields.
pub proof fn runs_join_without_seam(
    before: Seq<LogEntry>,
    after: Seq<LogEntry>,
    added: Seq<Row>,
    key: Seq<u8>,
    start: nat,
)
    requires
        extends(before, after, added),
    ensures
        ({
            let old_stream = stream_of(before, key);
            let new_stream = stream_of(after, key);
            let first = left_of(old_stream, start);
            let reached = if first.len() > 0 {
                old_stream.len()
            } else {
                start
            };
            first + left_of(new_stream, reached) == left_of(new_stream, start)
        }),
{
    stream_of_grown(before, after, added, key);
    let old_stream = stream_of(before, key);
    let new_stream = stream_of(after, key);
    let first = left_of(old_stream, start);
    if first.len() > 0 {
        assert(first + new_stream.skip(old_stream.len() as int) =~= new_stream.skip(start as int));
    } else {
        assert(first =~= Seq::empty());
        assert(first + left_of(new_stream, start) =~= left_of(new_stream, start));
    }
}

/// The order of a log is also that of what was in it before it grew.
proof fn ordered_before(before: Seq<LogEntry>, after: Seq<LogEntry>, added: Seq<Row>)
    requires
        ordered(after),
        extends(before, after, added),
    ensures
        ordered(before),
{
    assert(after.take(before.len() as int) == before);
    assert forall|i: int, j: int| 0 <= i < j < before.len() implies before[i].position
        < before[j].position by {
        assert(before[i] == after[i]);
        assert(before[j] == after[j]);
    }
}

/// The same for all streams: no gap and no duplicate between two runs over a growing log. A run
/// that yields nothing leaves the next one where it started.
pub proof fn all_runs_join_without_seam(
    before: Seq<LogEntry>,
    after: Seq<LogEntry>,
    added: Seq<Row>,
    start: Option<int>,
)
    requires
        ordered(after),
        extends(before, after, added),
    ensures
        ({
            let first = all_behind(before, start);
            first + all_behind(after, all_reached(first, start)) == all_behind(after, start)
        }),
{
    let n = before.len() as int;
    assert(after.take(n) == before);
    ordered_before(before, after, added);
    ordered_behind(before, start);
    ordered_behind(after, start);
    let first = all_behind(before, start);
    if first.len() == 0 {
        assert(first + all_behind(after, start) =~= all_behind(after, start));
    } else {
        let c = count_upto(before, start) as int;
        let d = count_upto(after, start) as int;
        assert(c < n);
        assert(before[c] == after[c]);
        assert(d <= c) by {
            if c < d {
                assert(start is Some && after[c].position <= start->0);
                assert(c < count_upto(before, start));
            }
        }
        assert(c <= d) by {
            if d < c {
                assert(before[d] == after[d]);
                assert(start is Some && before[d].position <= start->0);
            }
        }
        assert(first.last() == before[n - 1]);
        assert(before[n - 1] == after[n - 1]);
        let mark = first.last().position;
        ordered_behind(after, Some(mark));
        let e = count_upto(after, Some(mark)) as int;
        assert(n - 1 < e);
        if n < after.len() {
            assert(after[n - 1].position < after[n].position);
            assert(!(n < e));
        }
        assert(e == n);
        assert(first + after.skip(n) =~= after.skip(c));
    }
}

/// A log is what it was, with further rows behind it.
pub open spec fn grew(before: Seq<LogEntry>, after: Seq<LogEntry>) -> bool {
    exists|added: Seq<Row>| #[trigger] extends(before, after, added)
}

/// The log grows from one run to the next, and never changes what it holds.
pub open spec fn growing(logs: Seq<Seq<LogEntry>>) -> bool {
    forall|i: int| 0 <= i < logs.len() - 1 ==> #[trigger] grew(logs[i], logs[i + 1])
}

/// Where a subscription to one stream stands behind a run that yielded `events`.
pub open spec fn reached(events: Seq<EventView>, start: nat) -> nat {
    if events.len() > 0 {
        events.last().version
    } else {
        start
    }
}

/// Where a subscription to all streams stands behind a run that yielded `rows`.
pub open spec fn all_reached(rows: Seq<LogEntry>, start: Option<int>) -> Option<int> {
    if rows.len() > 0 {
        Some(rows.last().position)
    } else {
        start
    }
}

/// What a subscription to one stream yields in its first `n` runs, run `i` over `logs[i]`, and
/// where it stands then. Each run starts where the one before it ended; the boundary is marked
/// behind the first run's events.
pub open spec fn stream_runs(
    logs: Seq<Seq<LogEntry>>,
    key: Seq<u8>,
    start: nat,
    n: nat,
) -> (Seq<Option<EventView>>, nat)
    decreases n,
{
    if n == 0 {
        (Seq::empty(), start)
    } else {
        let (before, at) = stream_runs(logs, key, start, (n - 1) as nat);
        let events = left_of(stream_of(logs[n - 1], key), at);
        (before + owed(events, n > 1), reached(events, at))
    }
}

/// The same of a subscription to all streams.
pub open spec fn all_runs(logs: Seq<Seq<LogEntry>>, start: Option<int>, n: nat) -> (
    Seq<Option<LogEntry>>,
    Option<int>,
)
    decreases n,
{
    if n == 0 {
        (Seq::empty(), start)
    } else {
        let (before, at) = all_runs(logs, start, (n - 1) as nat);
        let rows = all_behind(logs[n - 1], at);
        (before + owed(rows, n > 1), all_reached(rows, at))
    }
}

/// The items, with one boundary behind the first `k` of them.
pub open spec fn with_boundary<T>(items: Seq<T>, k: nat) -> Seq<Option<T>> {
    owed(items.take(k as int), false) + owed(items.skip(k as int), true)
}

/// One stream, any number of runs over a growing log: the events come once each, in order and
/// without a gap, up to the last event of the last run's log, and the boundary comes once, behind
/// the events that the first run found.
pub proof fn any_runs_join_without_seam(
    logs: Seq<Seq<LogEntry>>,
    key: Seq<u8>,
    start: nat,
    n: nat,
)
    requires
        0 < n <= logs.len(),
        growing(logs),
        forall|i: int| 0 <= i < logs.len() ==> log_ok(#[trigger] logs[i]),
    ensures
        ({
            let events = left_of(stream_of(logs[n - 1], key), start);
            let backlog = left_of(stream_of(logs[0], key), start).len();
            &&& backlog <= events.len()
            &&& stream_runs(logs, key, start, n) == (
                with_boundary(events, backlog),
                reached(events, start),
            )
        }),
    decreases n,
{
    let stream = stream_of(logs[n - 1], key);
    assert(dense(stream, 0));
    let first = left_of(stream_of(logs[0], key), start);
    if n == 1 {
        reveal_with_fuel(stream_runs, 2);
        assert(with_boundary(first, first.len()) =~= owed(first, false)) by {
            assert(first.take(first.len() as int) =~= first);
            assert(owed(first.skip(first.len() as int), true) =~= Seq::empty());
        }
        assert(Seq::<Option<EventView>>::empty() + owed(first, false) =~= owed(first, false));
    } else {
        any_runs_join_without_seam(logs, key, start, (n - 1) as nat);
        let earlier = stream_of(logs[n - 2], key);
        assert(dense(earlier, 0));
        assert(grew(logs[n - 2], logs[n - 2 + 1]));
        let added = choose|added: Seq<Row>| #[trigger] extends(logs[n - 2], logs[n - 1], added);
        stream_of_grown(logs[n - 2], logs[n - 1], added, key);
        let had = left_of(earlier, start);
        let at = reached(had, start);
        let more = left_of(stream, at);
        let events = left_of(stream, start);
        if had.len() > 0 {
            assert(had.last() == earlier[earlier.len() - 1]);
            assert(at == earlier.len());
        }
        assert(had + more =~= events);
        let backlog = first.len();
        assert(with_boundary(events, backlog) =~= with_boundary(had, backlog) + owed(more, true))
            by {
            assert(events.take(backlog as int) =~= had.take(backlog as int));
        }
        if more.len() > 0 {
            assert(more.last() == events.last());
        } else {
            assert(events =~= had);
        }
    }
}

/// All streams, any number of runs over a growing log: the rows come once each, in order and
/// without a gap, up to the last row of the last run's log, and the boundary comes once, behind
/// the rows that the first run found.
pub proof fn any_all_runs_join_without_seam(
    logs: Seq<Seq<LogEntry>>,
    start: Option<int>,
    n: nat,
)
    requires
        0 < n <= logs.len(),
        growing(logs),
        forall|i: int| 0 <= i < logs.len() ==> log_ok(#[trigger] logs[i]),
    ensures
        ({
            let rows = all_behind(logs[n - 1], start);
            let backlog = all_behind(logs[0], start).len();
            &&& backlog <= rows.len()
            &&& all_runs(logs, start, n) == (
                with_boundary(rows, backlog),
                all_reached(rows, start),
            )
        }),
    decreases n,
{
    let first = all_behind(logs[0], start);
    let log = logs[n - 1];
    assert(log_ok(log));
    if n == 1 {
        reveal_with_fuel(all_runs, 2);
        assert(with_boundary(first, first.len()) =~= owed(first, false)) by {
            assert(first.take(first.len() as int) =~= first);
            assert(owed(first.skip(first.len() as int), true) =~= Seq::empty());
        }
        assert(Seq::<Option<LogEntry>>::empty() + owed(first, false) =~= owed(first, false));
    } else {
        any_all_runs_join_without_seam(logs, start, (n - 1) as nat);
        let earlier = logs[n - 2];
        assert(grew(logs[n - 2], logs[n - 2 + 1]));
        let added = choose|added: Seq<Row>| #[trigger] extends(logs[n - 2], logs[n - 1], added);
        all_runs_join_without_seam(earlier, log, added, start);
        let had = all_behind(earlier, start);
        let at = all_reached(had, start);
        let more = all_behind(log, at);
        let rows = all_behind(log, start);
        assert(had + more == rows);
        let backlog = first.len();
        assert(with_boundary(rows, backlog) =~= with_boundary(had, backlog) + owed(more, true))
            by {
            assert(rows.take(backlog as int) =~= had.take(backlog as int));
        }
        if more.len() > 0 {
            assert(more.last() == rows.last());
        } else {
            assert(rows =~= had);
        }
    }
}

/// The boundary stands behind the backlog, once, and only where it was not marked before.
pub proof fn boundary_stands_behind_the_backlog<T>(events: Seq<T>, announced: bool)
    ensures
        owed(events, announced).len() == events.len() + (if announced {
            0int
        } else {
            1int
        }),
        forall|i: int| 0 <= i < events.len() ==> (#[trigger] owed(events, announced)[i]) == Some(
            events[i],
        ),
        !announced ==> owed(events, announced).last() is None,
{
}

/// Dropping the phase keeps events and errors in order, run by run.
pub proof fn dropping_the_phase_keeps_the_order<I, R>(
    a: Seq<Result<Step<I>, R>>,
    b: Seq<Result<Step<I>, R>>,
)
    ensures
        events_of(a + b) == events_of(a) + events_of(b),
    decreases b.len(),
{
    if b.len() == 0 {
        assert(a + b =~= a);
        assert(events_of(a) + events_of(b) =~= events_of(a));
    } else {
        dropping_the_phase_keeps_the_order(a, b.drop_last());
        assert((a + b).drop_last() =~= a + b.drop_last());
        assert((a + b).last() == b.last());
        assert(events_of(a + b) =~= events_of(a) + events_of(b));
    }
}

/// Where no item is the boundary, dropping the phase drops nothing: a decode error or a read error
/// is never swallowed.
pub proof fn dropping_the_phase_drops_only_boundaries<I, R>(items: Seq<Result<Step<I>, R>>)
    requires
        forall|i: int|
            0 <= i < items.len() ==> !((#[trigger] items[i]) matches Ok(Step::CaughtUp)),
    ensures
        events_of(items).len() == items.len(),
        forall|i: int|
            0 <= i < items.len() ==> phase_dropped(#[trigger] items[i]) == Some(
                events_of(items)[i],
            ),
    decreases items.len(),
{
    if items.len() > 0 {
        let rest = items.drop_last();
        assert forall|i: int| 0 <= i < rest.len() implies !((#[trigger] rest[i]) matches Ok(
            Step::CaughtUp,
        )) by {
            assert(rest[i] == items[i]);
        }
        dropping_the_phase_drops_only_boundaries(rest);
        let last = items.last();
        assert(items[items.len() - 1] == last);
        assert forall|i: int| 0 <= i < items.len() implies phase_dropped(#[trigger] items[i])
            == Some(events_of(items)[i]) by {
            if i < rest.len() {
                assert(rest[i] == items[i]);
            }
        }
    }
}

/// Decoding and dropping the phase commute: of a run of items that was decoded with the phase kept,
/// what is left without the phase is what decoding the bare items may come to, item by item.
pub proof fn decoding_commutes_with_dropping_the_phase<T, C: OwningCodec<T>, I: RawItem<T>, R>(
    codec: &C,
    items: Seq<Result<Step<I>, R>>,
    decoded: Seq<Result<Step<I::Typed>, DecodeStreamError<R, C::Error>>>,
)
    requires
        decoded.len() == items.len(),
        forall|i: int|
            0 <= i < items.len() ==> step_decoded(codec, items[i], #[trigger] decoded[i]),
    ensures
        events_of(decoded).len() == events_of(items).len(),
        forall|i: int|
            0 <= i < events_of(items).len() ==> item_decoded(
                codec,
                events_of(items)[i],
                #[trigger] events_of(decoded)[i],
            ),
    decreases items.len(),
{
    if items.len() > 0 {
        let rest = items.drop_last();
        let done = decoded.drop_last();
        assert forall|i: int| 0 <= i < rest.len() implies step_decoded(
            codec,
            rest[i],
            #[trigger] done[i],
        ) by {
            assert(done[i] == decoded[i]);
        }
        decoding_commutes_with_dropping_the_phase(codec, rest, done);
        assert(step_decoded(codec, items.last(), decoded[items.len() - 1]));
    }
}

/// The same of a codec that decodes one envelope to one result only: both orders give the same
/// events with the same versions and metadata, and the same errors, at the same places.
pub proof fn both_orders_decode_alike<T, C: OwningCodec<T>, I: RawItem<T>, R>(
    codec: &C,
    items: Seq<Result<Step<I>, R>>,
    decoded: Seq<Result<Step<I::Typed>, DecodeStreamError<R, C::Error>>>,
    bare: Seq<Result<I::Typed, DecodeStreamError<R, C::Error>>>,
)
    requires
        forall|env: PersistedEnvelope, a: Result<T, C::Error>, b: Result<T, C::Error>| #[trigger]
            call_ensures(C::decode, (codec, &env), a) && #[trigger] call_ensures(
                C::decode,
                (codec, &env),
                b,
            ) ==> a == b,
        decoded.len() == items.len(),
        forall|i: int|
            0 <= i < items.len() ==> step_decoded(codec, items[i], #[trigger] decoded[i]),
        bare.len() == events_of(items).len(),
        forall|i: int|
            0 <= i < bare.len() ==> item_decoded(codec, events_of(items)[i], #[trigger] bare[i]),
    ensures
        events_of(decoded).len() == bare.len(),
        forall|i: int|
            0 <= i < bare.len() ==> decoded_alike::<T, I, R, C::Error>(
                events_of(decoded)[i],
                #[trigger] bare[i],
            ),
{
    decoding_commutes_with_dropping_the_phase(codec, items, decoded);
    assert forall|i: int| 0 <= i < bare.len() implies decoded_alike::<T, I, R, C::Error>(
        events_of(decoded)[i],
        #[trigger] bare[i],
    ) by {
        assert(item_decoded(codec, events_of(items)[i], events_of(decoded)[i]));
    }
}

/// Two decoded items hold the same event with the same version and metadata, or the same error.
pub open spec fn decoded_alike<T, I: RawItem<T>, R, D>(
    a: Result<I::Typed, DecodeStreamError<R, D>>,
    b: Result<I::Typed, DecodeStreamError<R, D>>,
) -> bool {
    match (a, b) {
        (Ok(x), Ok(y)) => {
            &&& I::content(x).event == I::content(y).event
            &&& I::content(x).version@ == I::content(y).version@
            &&& optional_octets(I::content(x).metadata) == optional_octets(I::content(y).metadata)
        },
        (Err(x), Err(y)) => x == y,
        _ => false,
    }
}

} // verus!
