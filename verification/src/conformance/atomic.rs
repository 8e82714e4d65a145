//! Several runs in one transaction: all of them land, or none does.

use crate::conformance::ask::{
    name_octets, named, run_at, run_views, Ask, AskView, Mark, WriteRows, WriteRowsView,
};
use crate::conformance::reply::{reply_views, Reply};
use crate::conformance::script::{
    and_run, no_runs, octet_row, one_row, row_of_octet, two_rows, verdict_of, Script, Stage,
    StageView, Verdict,
};
use crate::conformance::want::{AllWant, AllWantView, RowsWant, RowsWantView, Want, WantView};
use crate::store::AllPosition;
use crate::version::{group_version, Version};
use vstd::prelude::*;

verus! {

broadcast use group_version;

/// Runs for two fresh streams and one that holds an event.
pub open spec fn three_runs() -> Seq<WriteRowsView> {
    seq![
        run_at(name_octets("fresh-a"), 0, seq![octet_row(1, 1)]),
        run_at(name_octets("fresh-b"), 0, seq![octet_row(1, 2), octet_row(2, 3)]),
        run_at(name_octets("existing"), 1, seq![octet_row(2, 4)]),
    ]
}

/// Three runs land together.
pub open spec fn atomic_multi_stream_commits_all() -> Seq<StageView> {
    seq![
        StageView::fresh(name_octets("existing"), seq![octet_row(1, 0)]),
        StageView { ask: AskView::AtomicAppend(three_runs()), want: WantView::Committed },
        StageView::reads(name_octets("fresh-a"), 1, RowsWantView::Count(1)),
        StageView::reads(name_octets("fresh-b"), 1, RowsWantView::Count(2)),
        StageView::reads(name_octets("existing"), 1, RowsWantView::Count(2)),
        StageView::reads_all(Mark::Start, AllWantView::Count(5), true),
    ]
}

/// Runs for two fresh streams and one that holds an event land together, and all streams hold
/// their events at increasing positions.
pub fn check_atomic_multi_stream_commits_all<P: AllPosition>(seen: &[Reply<P>]) -> (r: Verdict<P>)
    ensures
        r@ == verdict_of(atomic_multi_stream_commits_all(), reply_views(seen@), Seq::empty()),
{
    let runs: Vec<WriteRows> = and_run(
        no_runs(),
        WriteRows {
            key: named("fresh-a"),
            expected: None,
            rows: one_row(row_of_octet(1, 1)),
        },
    );
    let runs: Vec<WriteRows> = and_run(
        runs,
        WriteRows {
            key: named("fresh-b"),
            expected: None,
            rows: two_rows(row_of_octet(1, 2), row_of_octet(2, 3)),
        },
    );
    let runs: Vec<WriteRows> = and_run(
        runs,
        WriteRows {
            key: named("existing"),
            expected: Version::new(1),
            rows: one_row(row_of_octet(2, 4)),
        },
    );
    assert(run_views(runs@) =~= three_runs());
    let script: Script = Script::new().with(
        Stage::fresh(named("existing"), one_row(row_of_octet(1, 0))),
    ).with(Stage { ask: Ask::AtomicAppend(runs), want: Want::Committed }).with(
        Stage::reads(named("fresh-a"), 1, RowsWant::Count(1)),
    ).with(Stage::reads(named("fresh-b"), 1, RowsWant::Count(2))).with(
        Stage::reads(named("existing"), 1, RowsWant::Count(2)),
    ).with(Stage::reads_all(Mark::Start, AllWant::Count(5), true));
    assert(script@ =~= atomic_multi_stream_commits_all());
    script.judge(seen)
}

/// A run for a fresh stream, and one that takes a stream with an event for fresh.
pub open spec fn conflicting_runs() -> Seq<WriteRowsView> {
    seq![
        run_at(name_octets("fresh-a"), 0, seq![octet_row(1, 1)]),
        run_at(name_octets("existing"), 0, seq![octet_row(1, 9)]),
    ]
}

/// One conflict refuses all runs.
pub open spec fn atomic_conflict_aborts_all() -> Seq<StageView> {
    seq![
        StageView::fresh(name_octets("existing"), seq![octet_row(1, 0)]),
        StageView::reads_all(Mark::Start, AllWantView::Any, false),
        StageView {
            ask: AskView::AtomicAppend(conflicting_runs()),
            want: WantView::AtomicConflictAt(1, 1),
        },
        StageView::reads(name_octets("fresh-a"), 1, RowsWantView::Count(0)),
        StageView::reads_all(Mark::Start, AllWantView::CountOf(1), false),
    ]
}

/// A conflict of one run refuses the whole transaction: the answer names the run and the head that
/// its stream has, and nothing lands on any stream.
pub fn check_atomic_conflict_aborts_all<P: AllPosition>(seen: &[Reply<P>]) -> (r: Verdict<P>)
    ensures
        r@ == verdict_of(atomic_conflict_aborts_all(), reply_views(seen@), Seq::empty()),
{
    let runs: Vec<WriteRows> = and_run(
        no_runs(),
        WriteRows {
            key: named("fresh-a"),
            expected: None,
            rows: one_row(row_of_octet(1, 1)),
        },
    );
    let runs: Vec<WriteRows> = and_run(
        runs,
        WriteRows {
            key: named("existing"),
            expected: None,
            rows: one_row(row_of_octet(1, 9)),
        },
    );
    assert(run_views(runs@) =~= conflicting_runs());
    let script: Script = Script::new().with(
        Stage::fresh(named("existing"), one_row(row_of_octet(1, 0))),
    ).with(Stage::reads_all(Mark::Start, AllWant::Any, false)).with(
        Stage {
            ask: Ask::AtomicAppend(runs),
            want: Want::AtomicConflictAt { index: 1, head: 1 },
        },
    ).with(Stage::reads(named("fresh-a"), 1, RowsWant::Count(0))).with(
        Stage::reads_all(Mark::Start, AllWant::CountOf { answer: 1 }, false),
    );
    assert(script@ =~= atomic_conflict_aborts_all());
    script.judge(seen)
}

/// A transaction without runs.
pub open spec fn atomic_empty_batch_is_noop() -> Seq<StageView> {
    seq![
        StageView {
            ask: AskView::AtomicAppend(Seq::empty()),
            want: WantView::Committed,
        },
        StageView::reads_all(Mark::Start, AllWantView::Count(0), false),
    ]
}

/// A transaction without runs lands and writes nothing.
pub fn check_atomic_empty_batch_is_noop<P: AllPosition>(seen: &[Reply<P>]) -> (r: Verdict<P>)
    ensures
        r@ == verdict_of(atomic_empty_batch_is_noop(), reply_views(seen@), Seq::empty()),
{
    let script: Script = Script::new().with(
        Stage { ask: Ask::AtomicAppend(no_runs()), want: Want::Committed },
    ).with(Stage::reads_all(Mark::Start, AllWant::Count(0), false));
    assert(script@ =~= atomic_empty_batch_is_noop());
    script.judge(seen)
}

} // verus!
