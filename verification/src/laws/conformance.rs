//! Laws of the conformance checks.

use crate::conformance::ask::{
    event_run, name_octets, plain_run, run_at, turned, unread, AskView, PagesView, WriteRowsView,
};
use crate::conformance::reply::{AllRowView, ReplyView};
use crate::conformance::row::plain_row;
use crate::conformance::script::{
    counted, octet_row, passes_if_every_answer_fits, verdict_of, StageView, VerdictView,
};
use crate::conformance::sequence::{
    all_from_is_exclusive, all_global_order_across_streams, all_multi_resume_cycles,
    alternating_payloads, append_conflict_is_surfaced, append_then_read_round_trips, global_order,
    large_stream_completes, mixed_rows, read_stream_from_is_inclusive,
    versions_strictly_monotonic_and_fused,
};
use crate::envelope::EventView;
use crate::log::{
    accepts, all_behind, count_upto, dense, dense_from_version, head_of, log_ok, ordered,
    ordered_behind, resumed_behind, routed, rows, rows_for, stream_from, stream_of,
    stream_of_extended, LogEntry, Row,
};
use crate::store::{append_reply, optional_ordinal, AllPosition};
use crate::version::{group_version, head_at, version_at};
use vstd::prelude::*;
use vstd::utf8::*;

verus! {

broadcast use group_version;

/// The rows of an answer are these entries of the log.
pub open spec fn shows<P: AllPosition>(
    rows: Seq<AllRowView<P>>,
    entries: Seq<LogEntry>,
) -> bool {
    &&& rows.len() == entries.len()
    &&& forall|i: int|
        0 <= i < rows.len() ==> {
            &&& (#[trigger] rows[i]).position.ordinal() == entries[i].position
            &&& rows[i].key == entries[i].key
            &&& rows[i].payload == entries[i].event.payload
        }
}

/// The first of the entries, at most `limit` of them.
pub open spec fn page_of(entries: Seq<LogEntry>, limit: nat) -> Seq<LogEntry> {
    if entries.len() <= limit {
        entries
    } else {
        entries.take(limit as int)
    }
}

/// A read in cycles behind the first `cycles.len()` of them.
pub open spec fn turned_by<P>(cycles: Seq<Seq<AllRowView<P>>>) -> PagesView<P>
    decreases cycles.len(),
{
    if cycles.len() == 0 {
        unread()
    } else {
        turned(turned_by(cycles.drop_last()), cycles.last())
    }
}

/// Each cycle yields what the log holds behind the one before it, at most `limit` rows.
pub open spec fn paged<P: AllPosition>(
    log: Seq<LogEntry>,
    limit: nat,
    cycles: Seq<Seq<AllRowView<P>>>,
) -> bool
    decreases cycles.len(),
{
    cycles.len() > 0 ==> {
        let so_far = turned_by(cycles.drop_last());
        &&& paged(log, limit, cycles.drop_last())
        &&& !so_far.done
        &&& shows(
            cycles.last(),
            page_of(all_behind(log, optional_ordinal(so_far.behind)), limit),
        )
    }
}

/// A read in cycles gives what a read at once gives: no gap, duplicate or skip across the seams.
/// It is over behind at most one cycle more than there are rows.
pub proof fn cycles_give_the_whole_read<P: AllPosition>(
    log: Seq<LogEntry>,
    limit: nat,
    cycles: Seq<Seq<AllRowView<P>>>,
)
    requires
        ordered(log),
        limit > 0,
        paged(log, limit, cycles),
    ensures
        turned_by(cycles).done ==> shows(turned_by(cycles).rows, all_behind(log, None)),
        cycles.len() > log.len() ==> turned_by(cycles).done,
{
    let whole = all_behind(log, None);
    ordered_behind(log, None);
    let k = cycles_upto(log, limit, cycles);
    assert(whole.take(whole.len() as int) =~= whole);
}

/// How far a read in cycles went: `k` rows of the whole read.
spec fn went<P: AllPosition>(log: Seq<LogEntry>, pages: PagesView<P>, k: int) -> bool {
    let whole = all_behind(log, None);
    &&& 0 <= k <= whole.len()
    &&& shows(pages.rows, whole.take(k))
    &&& optional_ordinal(pages.behind) == (if k == 0 {
        None
    } else {
        Some(whole[k - 1].position)
    })
    &&& all_behind(log, optional_ordinal(pages.behind)) == whole.skip(k)
    &&& pages.done ==> k == whole.len()
}

/// One more cycle takes the read its rows further, or ends it.
proof fn went_further<P: AllPosition>(
    log: Seq<LogEntry>,
    limit: nat,
    pages: PagesView<P>,
    cycle: Seq<AllRowView<P>>,
    k: int,
)
    requires
        ordered(log),
        limit > 0,
        went(log, pages, k),
        !pages.done,
        shows(cycle, page_of(all_behind(log, None).skip(k), limit)),
    ensures
        went(log, turned(pages, cycle), k + cycle.len()),
{
    let whole = all_behind(log, None);
    let page = page_of(whole.skip(k), limit);
    if cycle.len() > 0 {
        let m = k + cycle.len();
        assert(cycle.last() == cycle[cycle.len() - 1]);
        assert(page[cycle.len() - 1] == whole[m - 1]);
        resumed_behind(log, None, m);
        let read = turned(pages, cycle).rows;
        assert forall|i: int| 0 <= i < read.len() implies {
            &&& (#[trigger] read[i]).position.ordinal() == whole.take(m)[i].position
            &&& read[i].key == whole.take(m)[i].key
            &&& read[i].payload == whole.take(m)[i].event.payload
        } by {
            if i < k {
                assert(read[i] == pages.rows[i]);
                assert(whole.take(k)[i] == whole[i]);
            } else {
                assert(read[i] == cycle[i - k]);
                assert(page[i - k] == whole[i]);
            }
        }
    } else {
        assert(whole.skip(k).len() == 0);
    }
}

proof fn cycles_upto<P: AllPosition>(
    log: Seq<LogEntry>,
    limit: nat,
    cycles: Seq<Seq<AllRowView<P>>>,
) -> (k: int)
    requires
        ordered(log),
        limit > 0,
        paged(log, limit, cycles),
    ensures
        went(log, turned_by(cycles), k),
        !turned_by(cycles).done ==> k >= cycles.len(),
    decreases cycles.len(),
{
    let whole = all_behind(log, None);
    if cycles.len() == 0 {
        assert(whole.skip(0) =~= whole);
        assert(whole.take(0) =~= Seq::empty());
        0
    } else {
        let fewer = cycles.drop_last();
        let k = cycles_upto(log, limit, fewer);
        went_further(log, limit, turned_by(fewer), cycles.last(), k);
        k + cycles.last().len()
    }
}

/// A store at `before` that keeps the append and read contracts, and does not fail, may answer
/// `reply` and be at `after` then. Reads leave the store as it is.
pub open spec fn answers<P: AllPosition>(
    before: Seq<LogEntry>,
    after: Seq<LogEntry>,
    ask: AskView,
    position: Option<P>,
    reply: ReplyView<P>,
) -> bool {
    match (ask, reply) {
        (AskView::Append(run), ReplyView::Landed(p)) => append_reply::<P, ()>(
            before,
            after,
            run.key,
            run.expected,
            run.rows,
            Ok(p),
        ),
        (AskView::Append(run), ReplyView::Conflict(actual)) => {
            &&& !accepts(before, run.key, run.expected, run.rows)
            &&& actual == head_of(before, run.key)
            &&& after == before
        },
        (AskView::ReadStream(key, from, polls), ReplyView::Rows(rows, ended)) => {
            &&& rows == stream_from(before, key, from@)
            &&& ended == Seq::new(polls as nat, |i: int| true)
            &&& after == before
        },
        (AskView::ReadAll(_), ReplyView::AllRows(rows)) => {
            &&& shows(rows, all_behind(before, optional_ordinal(position)))
            &&& after == before
        },
        (AskView::ReadPages(limit), ReplyView::AllRows(rows)) => {
            &&& exists|cycles: Seq<Seq<AllRowView<P>>>|
                {
                    &&& #[trigger] paged(before, limit as nat, cycles)
                    &&& turned_by(cycles).done
                    &&& turned_by(cycles).rows == rows
                }
            &&& after == before
        },
        _ => false,
    }
}

/// A fresh store that keeps the append and read contracts gave these answers to the questions of a
/// script. `logs[i]` is the log at question `i`.
pub open spec fn answered<P: AllPosition>(
    stages: Seq<StageView>,
    logs: Seq<Seq<LogEntry>>,
    seen: Seq<ReplyView<P>>,
) -> bool {
    &&& logs.len() == seen.len() + 1
    &&& logs[0] == Seq::<LogEntry>::empty()
    &&& forall|i: int| 0 <= i < logs.len() ==> log_ok(#[trigger] logs[i])
    &&& forall|i: int|
        0 <= i < seen.len() ==> #[trigger] answers(
            logs[i],
            logs[i + 1],
            stages[i].ask,
            stages[i].ask.mark().place(seen, i, Seq::empty()),
            seen[i],
        )
}

/// Answer `i` is one that the store may give.
proof fn answer_at<P: AllPosition>(
    stages: Seq<StageView>,
    logs: Seq<Seq<LogEntry>>,
    seen: Seq<ReplyView<P>>,
    i: int,
)
    requires
        answered(stages, logs, seen),
        0 <= i < seen.len(),
    ensures
        answers(
            logs[i],
            logs[i + 1],
            stages[i].ask,
            stages[i].ask.mark().place(seen, i, Seq::empty()),
            seen[i],
        ),
        log_ok(logs[i]),
{
}

/// An append that the store takes lands.
proof fn lands<P: AllPosition>(
    before: Seq<LogEntry>,
    after: Seq<LogEntry>,
    run: WriteRowsView,
    position: Option<P>,
    reply: ReplyView<P>,
)
    requires
        answers(before, after, AskView::Append(run), position, reply),
        accepts(before, run.key, run.expected, run.rows),
    ensures
        reply is Landed,
        rows(after) == rows(before) + rows_for(run.key, run.rows),
        stream_of(after, run.key) == stream_of(before, run.key) + run.rows,
{
    stream_of_extended(before, after, run.key, run.rows, run.key);
}

/// A stream read yields the stream from its bound on.
proof fn reads_from<P: AllPosition>(
    log: Seq<LogEntry>,
    after: Seq<LogEntry>,
    key: Seq<u8>,
    from: nat,
    polls: usize,
    position: Option<P>,
    reply: ReplyView<P>,
)
    requires
        log_ok(log),
        1 <= from <= stream_of(log, key).len() + 1,
        from <= u64::MAX,
        answers(log, after, AskView::ReadStream(key, version_at(from), polls), position, reply),
    ensures
        reply == ReplyView::<P>::Rows(
            stream_of(log, key).skip(from - 1),
            Seq::new(polls as nat, |i: int| true),
        ),
{
    assert(dense(stream_of(log, key), 0));
    assert(version_at(from)@ == from);
    dense_from_version(stream_of(log, key), from);
}

/// A fresh store takes a run from version 1 on, and then reads as that run.
proof fn fresh_run_reads_back<P: AllPosition>(
    stages: Seq<StageView>,
    logs: Seq<Seq<LogEntry>>,
    seen: Seq<ReplyView<P>>,
    key: Seq<u8>,
    events: Seq<EventView>,
    from: nat,
    polls: usize,
)
    requires
        answered(stages, logs, seen),
        seen.len() == 2,
        stages[0].ask == AskView::Append(run_at(key, 0, events)),
        stages[1].ask == AskView::ReadStream(key, version_at(from), polls),
        dense(events, 0),
        1 <= from <= events.len(),
        from <= u64::MAX,
    ensures
        seen[0] is Landed,
        seen[1] == ReplyView::<P>::Rows(
            events.skip(from - 1),
            Seq::new(polls as nat, |i: int| true),
        ),
{
    answer_at(stages, logs, seen, 0);
    answer_at(stages, logs, seen, 1);
    assert(rows(logs[0]) =~= Seq::empty());
    assert(stream_of(logs[0], key) =~= Seq::empty());
    lands(
        logs[0],
        logs[0int + 1],
        run_at(key, 0, events),
        stages[0].ask.mark().place(seen, 0, Seq::empty()),
        seen[0],
    );
    assert(stream_of(logs[1], key) =~= events);
    reads_from(
        logs[1],
        logs[1int + 1],
        key,
        from,
        polls,
        stages[1].ask.mark().place(seen, 1, Seq::empty()),
        seen[1],
    );
}

/// A store that keeps the contracts passes the checks that append to a fresh stream and read it
/// back: rows of mixed shapes, versions and the end of a read, a long stream, a read from the
/// middle.
pub proof fn sound_store_passes_reading_back<P: AllPosition>(
    stages: Seq<StageView>,
    logs: Seq<Seq<LogEntry>>,
    seen: Seq<ReplyView<P>>,
)
    requires
        stages == append_then_read_round_trips() || stages
            == versions_strictly_monotonic_and_fused() || stages == large_stream_completes()
            || stages == read_stream_from_is_inclusive(),
        seen.len() == stages.len(),
        answered(stages, logs, seen),
    ensures
        verdict_of(stages, seen, Seq::empty()) == VerdictView::<P>::Pass,
{
    if stages == append_then_read_round_trips() {
        let events = mixed_rows();
        fresh_run_reads_back(stages, logs, seen, name_octets("round-trip"), events, 1, 0);
        assert(events.skip(0) =~= events);
    } else if stages == versions_strictly_monotonic_and_fused() {
        let events = plain_run(1, 64, Seq::empty());
        fresh_run_reads_back(stages, logs, seen, name_octets("monotonic"), events, 1, 8);
    } else if stages == large_stream_completes() {
        let events = plain_run(1, 1500, Seq::empty());
        fresh_run_reads_back(stages, logs, seen, name_octets("large"), events, 1, 0);
    } else {
        let events = plain_run(1, 5, Seq::empty());
        fresh_run_reads_back(stages, logs, seen, name_octets("inclusive"), events, 3, 0);
    }
    assert(stages[0].want.fits(seen, 0, Seq::empty()));
    assert(stages[1].want.fits(seen, 1, Seq::empty()));
    passes_if_every_answer_fits(stages, seen, Seq::empty());
}

/// The events go one by one to streams that each of them continues.
spec fn in_step(events: Seq<Row>) -> bool {
    forall|i: int|
        0 <= i < events.len() ==> (#[trigger] events[i]).1.version == routed(
            events.take(i),
            events[i].0,
        ).len() + 1 && events[i].1 == plain_row(events[i].1.version, "E"@, events[i].1.payload)
}

/// The first stages of a script append these events, one by one.
spec fn appends(stages: Seq<StageView>, events: Seq<Row>) -> bool {
    &&& events.len() <= stages.len()
    &&& forall|i: int|
        0 <= i < events.len() ==> (#[trigger] stages[i]).ask == AskView::Append(
            event_run(events[i].0, events[i].1.version, events[i].1.payload),
        )
}

/// Events that go to streams which they continue all land, in order.
proof fn appended_upto<P: AllPosition>(
    stages: Seq<StageView>,
    events: Seq<Row>,
    logs: Seq<Seq<LogEntry>>,
    seen: Seq<ReplyView<P>>,
    n: int,
)
    requires
        answered(stages, logs, seen),
        appends(stages, events),
        in_step(events),
        0 <= n <= events.len() <= seen.len(),
    ensures
        rows(logs[n]) == events.take(n),
        forall|i: int| 0 <= i < n ==> #[trigger] seen[i] is Landed,
    decreases n,
{
    if n == 0 {
        assert(rows(logs[0]) =~= events.take(0));
    } else {
        let i = n - 1;
        appended_upto(stages, events, logs, seen, i);
        answer_at(stages, logs, seen, i);
        let (key, event) = events[i];
        let run = event_run(key, event.version, event.payload);
        assert(stages[i].ask == AskView::Append(run));
        assert(run.rows =~= seq![event]);
        assert(dense(run.rows, stream_of(logs[i], key).len()));
        let position = stages[i].ask.mark().place(seen, i, Seq::empty());
        lands(logs[i], logs[i + 1], run, position, seen[i]);
        assert(events.take(n) =~= events.take(i) + rows_for(key, run.rows));
    }
}

/// A log that holds these rows reads as these rows.
proof fn whole_log_reads(log: Seq<LogEntry>, events: Seq<Row>)
    requires
        log_ok(log),
        rows(log) == events,
    ensures
        all_behind(log, None) == log,
        log.len() == events.len(),
        forall|i: int|
            0 <= i < log.len() ==> (#[trigger] log[i]).key == events[i].0 && log[i].event
                == events[i].1,
{
    ordered_behind(log, None);
    assert(count_upto(log, None) == 0) by {
        if count_upto(log, None) > 0 {
            assert(log[0] == log[0]);
        }
    }
    assert(log.skip(0) =~= log);
    assert(rows(log).len() == log.len());
    assert forall|i: int| 0 <= i < log.len() implies (#[trigger] log[i]).key == events[i].0
        && log[i].event == events[i].1 by {
        assert(rows(log)[i] == events[i]);
    }
}

/// The `i`-th of the events that go to two streams in turn.
spec fn turn(i: int) -> Row {
    let version = (i / 2 + 1) as nat;
    if i % 2 == 0 {
        (name_octets("a"), plain_row(version, "E"@, counted("a", version)))
    } else {
        (name_octets("b"), plain_row(version, "E"@, counted("b", version)))
    }
}

/// The first `n` of the events that go to two streams in turn.
spec fn turns(n: nat) -> Seq<Row> {
    Seq::new(n, |i: int| turn(i))
}

proof fn names_differ()
    ensures
        name_octets("a") != name_octets("b"),
{
    reveal_strlit("a");
    reveal_strlit("b");
    encode_utf8_decode_utf8("a"@);
    encode_utf8_decode_utf8("b"@);
    assert("a"@[0] != "b"@[0]);
}

/// Each of the two streams has every other event.
proof fn streams_of_turns(n: nat)
    ensures
        routed(turns(n), name_octets("a")).len() == (n + 1) / 2,
        routed(turns(n), name_octets("b")).len() == n / 2,
    decreases n,
{
    names_differ();
    if n > 0 {
        streams_of_turns((n - 1) as nat);
        assert(turns(n).drop_last() =~= turns((n - 1) as nat));
        assert(turns(n).last() == turn(n - 1));
    }
}

/// A store that keeps the contracts passes: whatever answers a fresh store gives that keeps the
/// append and read contracts and does not fail, the check that reads in cycles has nothing to say
/// against it.
pub proof fn sound_store_passes_multi_resume_cycles<P: AllPosition>(
    logs: Seq<Seq<LogEntry>>,
    seen: Seq<ReplyView<P>>,
)
    requires
        seen.len() == all_multi_resume_cycles().len(),
        answered(all_multi_resume_cycles(), logs, seen),
    ensures
        verdict_of(all_multi_resume_cycles(), seen, Seq::empty()) == VerdictView::<P>::Pass,
{
    let stages = all_multi_resume_cycles();
    let events = turns(10);
    assert(in_step(events)) by {
        assert forall|i: int| 0 <= i < events.len() implies (#[trigger] events[i]).1.version
            == routed(events.take(i), events[i].0).len() + 1 && events[i].1 == plain_row(
            events[i].1.version,
            "E"@,
            events[i].1.payload,
        ) by {
            streams_of_turns(i as nat);
            assert(events.take(i) =~= turns(i as nat));
        }
    }
    appended_upto(stages, events, logs, seen, 10);
    assert(events.take(10) =~= events);
    let log = logs[10];
    answer_at(stages, logs, seen, 10);
    answer_at(stages, logs, seen, 11);
    whole_log_reads(log, events);
    let payloads = alternating_payloads();
    assert(payloads =~= Seq::new(10, |i: int| turn(i).1.payload));
    let cycles = choose|cycles: Seq<Seq<AllRowView<P>>>|
        {
            &&& #[trigger] paged(log, 3, cycles)
            &&& turned_by(cycles).done
            &&& turned_by(cycles).rows == seen[11]->AllRows_0
        };
    cycles_give_the_whole_read(log, 3, cycles);
    assert forall|i: int| 0 <= i < stages.len() implies (#[trigger] stages[i]).want.fits(
        seen,
        i,
        Seq::empty(),
    ) by {
        if i < 10 {
            assert(seen[i] is Landed);
        }
    }
    passes_if_every_answer_fits(stages, seen, Seq::empty());
}

/// A store that keeps the contracts passes the check of the order across streams.
pub proof fn sound_store_passes_global_order<P: AllPosition>(
    logs: Seq<Seq<LogEntry>>,
    seen: Seq<ReplyView<P>>,
)
    requires
        seen.len() == all_global_order_across_streams().len(),
        answered(all_global_order_across_streams(), logs, seen),
    ensures
        verdict_of(all_global_order_across_streams(), seen, Seq::empty()) == VerdictView::<
            P,
        >::Pass,
{
    let stages = all_global_order_across_streams();
    let (a, b) = (name_octets("a"), name_octets("b"));
    let events: Seq<Row> = seq![
        (a, plain_row(1, "E"@, counted("a", 1))),
        (a, plain_row(2, "E"@, counted("a", 2))),
        (b, plain_row(1, "E"@, counted("b", 1))),
        (a, plain_row(3, "E"@, counted("a", 3))),
        (a, plain_row(4, "E"@, counted("a", 4))),
    ];
    names_differ();
    assert(in_step(events)) by {
        reveal_with_fuel(routed, 6);
    }
    appended_upto(stages, events, logs, seen, 5);
    assert(events.take(5) =~= events);
    answer_at(stages, logs, seen, 5);
    whole_log_reads(logs[5], events);
    assert(global_order() =~= Seq::new(5, |i: int| events[i].1.payload));
    assert forall|i: int| 0 <= i < stages.len() implies (#[trigger] stages[i]).want.fits(
        seen,
        i,
        Seq::empty(),
    ) by {
        if i < 5 {
            assert(seen[i] is Landed);
        }
    }
    passes_if_every_answer_fits(stages, seen, Seq::empty());
}

/// A store that keeps the contracts passes the check of a stale expectation: the second append is
/// refused as a conflict that names the head, and the stream reads as before.
pub proof fn sound_store_passes_conflict<P: AllPosition>(
    logs: Seq<Seq<LogEntry>>,
    seen: Seq<ReplyView<P>>,
)
    requires
        seen.len() == append_conflict_is_surfaced().len(),
        answered(append_conflict_is_surfaced(), logs, seen),
    ensures
        verdict_of(append_conflict_is_surfaced(), seen, Seq::empty()) == VerdictView::<P>::Pass,
{
    let stages = append_conflict_is_surfaced();
    let taken = seq![octet_row(1, 1), octet_row(2, 2)];
    let late = seq![octet_row(1, 9)];
    second_claim_is_refused(stages, logs, seen, name_octets("conflict"), taken, late);
    assert(taken[0].payload == seq![1u8]);
    assert(taken[1].payload == seq![2u8]);
    assert(stages[2].want.fits(seen, 2, Seq::empty()));
    assert(stages[1].want.fits(seen, 1, Seq::empty()));
    assert(stages[0].want.fits(seen, 0, Seq::empty()));
    passes_if_every_answer_fits(stages, seen, Seq::empty());
}

/// Of two runs that both take a stream for fresh the second is refused, and the stream reads as the
/// first.
proof fn second_claim_is_refused<P: AllPosition>(
    stages: Seq<StageView>,
    logs: Seq<Seq<LogEntry>>,
    seen: Seq<ReplyView<P>>,
    key: Seq<u8>,
    taken: Seq<EventView>,
    late: Seq<EventView>,
)
    requires
        answered(stages, logs, seen),
        seen.len() == 3,
        stages[0].ask == AskView::Append(run_at(key, 0, taken)),
        stages[1].ask == AskView::Append(run_at(key, 0, late)),
        stages[2].ask == AskView::ReadStream(key, version_at(1), 0),
        dense(taken, 0),
        0 < taken.len() <= u64::MAX,
    ensures
        seen[0] is Landed,
        seen[1] == ReplyView::<P>::Conflict(head_at(taken.len())),
        seen[2] == ReplyView::<P>::Rows(taken, Seq::new(0, |i: int| true)),
{
    answer_at(stages, logs, seen, 0);
    answer_at(stages, logs, seen, 1);
    answer_at(stages, logs, seen, 2);
    assert(rows(logs[0]) =~= Seq::empty());
    assert(stream_of(logs[0], key) =~= Seq::empty());
    let start = stages[0].ask.mark().place(seen, 0, Seq::empty());
    lands(logs[0], logs[0int + 1], run_at(key, 0, taken), start, seen[0]);
    assert(stream_of(logs[1], key) =~= taken);
    assert(!accepts(logs[1], key, head_at(0), late));
    let at = stages[2].ask.mark().place(seen, 2, Seq::empty());
    reads_from(logs[2], logs[2int + 1], key, 1, 0, at, seen[2]);
    assert(taken.skip(0) =~= taken);
}

/// A store that keeps the contracts passes the check that a read of all streams leaves its bound
/// out.
pub proof fn sound_store_passes_exclusive_bound<P: AllPosition>(
    logs: Seq<Seq<LogEntry>>,
    seen: Seq<ReplyView<P>>,
)
    requires
        seen.len() == all_from_is_exclusive().len(),
        answered(all_from_is_exclusive(), logs, seen),
    ensures
        verdict_of(all_from_is_exclusive(), seen, Seq::empty()) == VerdictView::<P>::Pass,
{
    let stages = all_from_is_exclusive();
    let a = name_octets("a");
    let events: Seq<Row> = seq![
        (a, plain_row(1, "E"@, counted("a", 1))),
        (a, plain_row(2, "E"@, counted("a", 2))),
        (a, plain_row(3, "E"@, counted("a", 3))),
    ];
    assert(in_step(events)) by {
        reveal_with_fuel(routed, 4);
    }
    appended_upto(stages, events, logs, seen, 3);
    assert(events.take(3) =~= events);
    answer_at(stages, logs, seen, 3);
    answer_at(stages, logs, seen, 4);
    let log = logs[3];
    whole_log_reads(log, events);
    resumed_behind(log, None, 1);
    let all = seen[3]->AllRows_0;
    assert(all[0].position.ordinal() == log[0].position);
    let rest = seen[4]->AllRows_0;
    assert(shows(rest, log.skip(1)));
    assert(rest[0].position.ordinal() == log[1].position);
    assert(rest[1].payload == log[2].event.payload);
    assert forall|i: int| 0 <= i < stages.len() implies (#[trigger] stages[i]).want.fits(
        seen,
        i,
        Seq::empty(),
    ) by {
        if i < 3 {
            assert(seen[i] is Landed);
        }
    }
    passes_if_every_answer_fits(stages, seen, Seq::empty());
}

} // verus!
