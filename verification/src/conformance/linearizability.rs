//! Writers that overlap, and subscribers that wait for them.

use crate::conformance::ask::{
    event_run, event_run_at, name_octets, named, plain_rows, plain_run, run_at, run_views,
    task_views, Ask, AskView, Mark, Until, WriteRows, WriteRowsView,
};
use crate::conformance::reply::{reply_views, Reply};
use crate::conformance::script::{
    counted, counted_octets, octet_row, octets_of, one_row, row_of_octet, verdict_of, Script, Stage,
    StageView, Verdict,
};
use crate::conformance::sequence::{tick, ticked};
use crate::conformance::want::{
    octet_views, AllWant, AllWantView, RowsWant, RowsWantView, StepsWant, StepsWantView, Want,
    WantView,
};
use crate::store::AllPosition;
use crate::stream_key::StreamKey;
use vstd::prelude::*;

verus! {

/// How many tasks take part in a race.
pub const WRITERS: usize = 8;

/// How many events each task appends to its own stream.
pub const PER_STREAM: u64 = 5;

/// How many events the stream of the boundary race holds at first.
pub const BACKLOG: u64 = 100;

/// How many events are appended while the subscription catches up.
pub const LIVE: u64 = 100;

/// Tasks that all start the same stream, each with its number as payload.
pub open spec fn same_stream_tasks() -> Seq<Seq<WriteRowsView>> {
    Seq::new(
        WRITERS as nat,
        |i: int| seq![run_at(name_octets("race"), 0, seq![octet_row(1, i as u8)])],
    )
}

/// Tasks that all start the same stream, each with its number as payload.
fn racing_tasks() -> (r: Vec<Vec<WriteRows>>)
    ensures
        task_views(r@) == same_stream_tasks(),
{
    let mut tasks: Vec<Vec<WriteRows>> = Vec::new();
    let mut i: usize = 0;
    while i < WRITERS
        invariant
            0 <= i <= WRITERS,
            tasks@.len() == i,
            forall|j: int|
                0 <= j < i ==> run_views((#[trigger] tasks@[j])@) == same_stream_tasks()[j],
        decreases WRITERS - i,
    {
        let mut runs: Vec<WriteRows> = Vec::new();
        runs.push(
            WriteRows {
                key: named("race"),
                expected: None,
                rows: one_row(row_of_octet(1, i as u8)),
            },
        );
        assert(run_views(runs@) =~= same_stream_tasks()[i as int]);
        tasks.push(runs);
        i = i + 1;
    }
    assert(task_views(tasks@) =~= same_stream_tasks());
    tasks
}

/// One of several writers wins.
pub open spec fn concurrent_same_stream_single_winner() -> Seq<StageView> {
    seq![
        StageView {
            ask: AskView::Race(same_stream_tasks()),
            want: WantView::OneWinner(WRITERS as nat),
        },
        StageView::reads(name_octets("race"), 1, RowsWantView::WinnerOf(0)),
    ]
}

/// Tasks that start the same stream at once: one wins, all others are refused as conflicts, and the
/// stream holds the winner's event alone.
pub fn check_concurrent_same_stream_single_winner<P: AllPosition>(seen: &[Reply<P>]) -> (r: Verdict<
    P,
>)
    ensures
        r@ == verdict_of(concurrent_same_stream_single_winner(), reply_views(seen@), Seq::empty()),
{
    let script: Script = Script::new().with(
        Stage { ask: Ask::Race(racing_tasks()), want: Want::OneWinner { tasks: WRITERS } },
    ).with(Stage::reads(named("race"), 1, RowsWant::WinnerOf { answer: 0 }));
    assert(script@ =~= concurrent_same_stream_single_winner());
    script.judge(seen)
}

/// The payload of an event of a task's own stream.
pub open spec fn own_payload(task: nat, version: nat) -> Seq<u8> {
    counted("s", task) + counted("v", version)
}

/// The runs of a task on its own stream.
pub open spec fn own_runs(task: nat) -> Seq<WriteRowsView> {
    Seq::new(
        PER_STREAM as nat,
        |i: int|
            event_run(counted("s", task), (1 + i) as nat, own_payload(task, (1 + i) as nat)),
    )
}

/// The payloads of a task's own stream.
pub open spec fn own_payloads(task: nat) -> Seq<Seq<u8>> {
    Seq::new(PER_STREAM as nat, |i: int| own_payload(task, (1 + i) as nat))
}

/// Tasks that each write a stream of their own.
pub open spec fn own_stream_tasks() -> Seq<Seq<WriteRowsView>> {
    Seq::new(WRITERS as nat, |i: int| own_runs(i as nat))
}

/// The payload of an event of a task's own stream.
fn label(task: u64, version: u64) -> (r: Vec<u8>)
    ensures
        r@ == own_payload(task as nat, version as nat),
{
    let mut out: Vec<u8> = counted_octets("s", task);
    let mut end: Vec<u8> = counted_octets("v", version);
    out.append(&mut end);
    out
}

/// The stream of a task.
fn own_stream(task: u64) -> (r: StreamKey)
    ensures
        r@ == counted("s", task as nat),
{
    StreamKey::from_slice(counted_octets("s", task).as_slice())
}

/// The runs of a task on its own stream.
fn runs_of(task: u64) -> (r: Vec<WriteRows>)
    ensures
        run_views(r@) == own_runs(task as nat),
{
    let mut runs: Vec<WriteRows> = Vec::new();
    let mut v: u64 = 0;
    while v < PER_STREAM
        invariant
            0 <= v <= PER_STREAM,
            runs@.len() == v,
            forall|j: int| 0 <= j < v ==> (#[trigger] runs@[j])@ == own_runs(task as nat)[j],
        decreases PER_STREAM - v,
    {
        runs.push(event_run_at(own_stream(task), v + 1, label(task, v + 1)));
        v = v + 1;
    }
    assert(run_views(runs@) =~= own_runs(task as nat));
    runs
}

/// The payloads of a task's own stream.
fn payloads_of(task: u64) -> (r: Vec<Vec<u8>>)
    ensures
        octet_views(r@) == own_payloads(task as nat),
{
    let mut all: Vec<Vec<u8>> = Vec::new();
    let mut v: u64 = 0;
    while v < PER_STREAM
        invariant
            0 <= v <= PER_STREAM,
            all@.len() == v,
            forall|j: int| 0 <= j < v ==> (#[trigger] all@[j])@ == own_payloads(task as nat)[j],
        decreases PER_STREAM - v,
    {
        all.push(label(task, v + 1));
        v = v + 1;
    }
    assert(octet_views(all@) =~= own_payloads(task as nat));
    all
}

/// Tasks that each write a stream of their own.
fn separate_tasks() -> (r: Vec<Vec<WriteRows>>)
    ensures
        task_views(r@) == own_stream_tasks(),
{
    let mut tasks: Vec<Vec<WriteRows>> = Vec::new();
    let mut i: usize = 0;
    while i < WRITERS
        invariant
            0 <= i <= WRITERS,
            tasks@.len() == i,
            forall|j: int| 0 <= j < i ==> run_views((#[trigger] tasks@[j])@) == own_runs(j as nat),
        decreases WRITERS - i,
    {
        tasks.push(runs_of(i as u64));
        i = i + 1;
    }
    assert(task_views(tasks@) =~= own_stream_tasks());
    tasks
}

/// The reads of the tasks' own streams.
pub open spec fn own_reads() -> Seq<StageView> {
    Seq::new(
        WRITERS as nat,
        |i: int|
            StageView::reads(
                counted("s", i as nat),
                1,
                RowsWantView::Payloads(own_payloads(i as nat)),
            ),
    )
}

/// Writers of different streams all land.
pub open spec fn concurrent_distinct_streams_all_land() -> Seq<StageView> {
    seq![
        StageView {
            ask: AskView::Race(own_stream_tasks()),
            want: WantView::AllWin(WRITERS as nat),
        },
        StageView::reads_all(
            Mark::Start,
            AllWantView::Count((WRITERS * PER_STREAM) as nat),
            true,
        ),
    ] + own_reads()
}

/// Tasks that each write a stream of their own at once all land: all streams hold every event at
/// increasing positions, and each stream its own events in order.
pub fn check_concurrent_distinct_streams_all_land<P: AllPosition>(seen: &[Reply<P>]) -> (r: Verdict<
    P,
>)
    ensures
        r@ == verdict_of(concurrent_distinct_streams_all_land(), reply_views(seen@), Seq::empty()),
{
    let mut script: Script = Script::new().with(
        Stage { ask: Ask::Race(separate_tasks()), want: Want::AllWin { tasks: WRITERS } },
    ).with(Stage::reads_all(Mark::Start, AllWant::Count(WRITERS * PER_STREAM as usize), true));
    let ghost start = script@;
    assert(script@ =~= start + own_reads().take(0));
    let mut i: usize = 0;
    while i < WRITERS
        invariant
            0 <= i <= WRITERS,
            script@ == start + own_reads().take(i as int),
        decreases WRITERS - i,
    {
        let stage: Stage = Stage::reads(
            own_stream(i as u64),
            1,
            RowsWant::Payloads(payloads_of(i as u64)),
        );
        assert(stage@ == own_reads()[i as int]);
        script = script.with(stage);
        assert(script@ =~= start + own_reads().take(i + 1));
        i = i + 1;
    }
    assert(script@ =~= concurrent_distinct_streams_all_land());
    script.judge(seen)
}

/// A subscriber that waits is woken.
pub open spec fn wake_after_idle() -> Seq<StageView> {
    seq![
        ticked("wake-idle", 1),
        StageView::subscribes(0, name_octets("wake-idle"), 0),
        StageView::catches_up(0, StepsWantView::EndsCaughtUp),
        StageView {
            ask: AskView::Background(
                100,
                seq![event_run(name_octets("wake-idle"), 2, counted("p", 2))],
            ),
            want: WantView::Done,
        },
        StageView::steps(0, StepsWantView::Event(2)),
        StageView { ask: AskView::Join, want: WantView::Done },
    ]
}

/// A subscriber that waits behind the boundary is woken by an append of another task.
pub fn check_wake_after_idle<P: AllPosition>(seen: &[Reply<P>]) -> (r: Verdict<P>)
    ensures
        r@ == verdict_of(wake_after_idle(), reply_views(seen@), Seq::empty()),
{
    let mut runs: Vec<WriteRows> = Vec::new();
    runs.push(event_run_at(named("wake-idle"), 2, counted_octets("p", 2)));
    assert(run_views(runs@) =~= seq![event_run(name_octets("wake-idle"), 2, counted("p", 2))]);
    let script: Script = Script::new().with(tick("wake-idle", 1)).with(
        Stage::subscribes(0, named("wake-idle"), 0),
    ).with(Stage::catches_up(0, StepsWant::EndsCaughtUp)).with(
        Stage { ask: Ask::Background { delay_ms: 100, runs }, want: Want::Done },
    ).with(Stage::steps(0, StepsWant::Event { version: 2 })).with(
        Stage { ask: Ask::Join, want: Want::Done },
    );
    assert(script@ =~= wake_after_idle());
    script.judge(seen)
}

/// The runs that race the catch-up.
pub open spec fn live_runs() -> Seq<WriteRowsView> {
    Seq::new(
        LIVE as nat,
        |i: int|
            event_run(
                name_octets("boundary-race"),
                (BACKLOG + 1 + i) as nat,
                name_octets("live"),
            ),
    )
}

/// The runs that race the catch-up.
fn later_runs() -> (r: Vec<WriteRows>)
    ensures
        run_views(r@) == live_runs(),
{
    let mut runs: Vec<WriteRows> = Vec::new();
    let mut i: u64 = 0;
    while i < LIVE
        invariant
            0 <= i <= LIVE,
            runs@.len() == i,
            forall|j: int| 0 <= j < i ==> (#[trigger] runs@[j])@ == live_runs()[j],
        decreases LIVE - i,
    {
        runs.push(event_run_at(named("boundary-race"), BACKLOG + 1 + i, octets_of("live")));
        i = i + 1;
    }
    assert(run_views(runs@) =~= live_runs());
    runs
}

/// Appends race the boundary.
pub open spec fn caught_up_boundary_race() -> Seq<StageView> {
    seq![
        StageView::fresh(
            name_octets("boundary-race"),
            plain_run(1, BACKLOG as nat, Seq::empty()),
        ),
        StageView::subscribes(0, name_octets("boundary-race"), 0),
        StageView { ask: AskView::Background(0, live_runs()), want: WantView::Done },
        StageView {
            ask: AskView::Steps(0, Until::EventsAndCaughtUp(200)),
            want: WantView::Steps(StepsWantView::OneBoundary((BACKLOG + LIVE) as nat)),
        },
        StageView { ask: AskView::Join, want: WantView::Done },
    ]
}

/// Appends that race the boundary of a subscription are neither lost nor doubled, and the boundary
/// comes once.
pub fn check_caught_up_boundary_race<P: AllPosition>(seen: &[Reply<P>]) -> (r: Verdict<P>)
    ensures
        r@ == verdict_of(caught_up_boundary_race(), reply_views(seen@), Seq::empty()),
{
    let script: Script = Script::new().with(
        Stage::fresh(named("boundary-race"), plain_rows(BACKLOG)),
    ).with(Stage::subscribes(0, named("boundary-race"), 0)).with(
        Stage { ask: Ask::Background { delay_ms: 0, runs: later_runs() }, want: Want::Done },
    ).with(
        Stage {
            ask: Ask::Steps { slot: 0, until: Until::EventsAndCaughtUp(200) },
            want: Want::Steps(StepsWant::OneBoundary { count: BACKLOG + LIVE }),
        },
    ).with(Stage { ask: Ask::Join, want: Want::Done });
    assert(script@ =~= caught_up_boundary_race());
    script.judge(seen)
}

} // verus!
