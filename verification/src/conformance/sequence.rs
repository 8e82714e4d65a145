//! Protocols of several steps on one store: round trips, conflicts and retries, the order of all
//! streams and how to resume in it, and subscriptions from the backlog to live events.

use crate::conformance::ask::{
    name_octets, named, plain_rows, plain_run, run_at, Ask, AskView, Mark, WriteRows,
};
use crate::conformance::reply::{reply_views, Reply};
use crate::conformance::row::{plain_row, row_views, ConformanceRow};
use crate::conformance::script::{
    and_octets, and_row, counted, counted_octets, no_octets, no_rows, octet_row, octets_of,
    one_octet, one_row, one_two_three, ramp, ramp_octets, repeated, repeated_octets, row_of_octet,
    three_octets, three_rows, two_octets, two_rows, verdict_of, version_of, Script, Stage,
    StageView, Verdict,
};
use crate::conformance::want::{
    appended_views, octet_views, AllWant, AllWantView, Appended, RowsWant, RowsWantView, StepsWant,
    StepsWantView, Want, WantView,
};
use crate::envelope::EventView;
use crate::store::AllPosition;
use crate::version::{group_version, version_at, Version};
use vstd::prelude::*;

verus! {

broadcast use group_version;

/// An absent stream is empty.
pub open spec fn empty_read_yields_none() -> Seq<StageView> {
    seq![StageView::reads(name_octets("missing"), 1, RowsWantView::Count(0))]
}

/// A stream that was never written reads back empty, and that is no error.
pub fn check_empty_read_yields_none<P: AllPosition>(seen: &[Reply<P>]) -> (r: Verdict<P>)
    ensures
        r@ == verdict_of(empty_read_yields_none(), reply_views(seen@), Seq::empty()),
{
    Script::new().with(
        Stage::reads(named("missing"), 1, RowsWant::Count(0)),
    ).judge(seen)
}

/// Rows of mixed shapes.
pub open spec fn mixed_rows() -> Seq<EventView> {
    seq![
        plain_row(1, "Created"@, Seq::empty()),
        EventView { schema_version: 7, ..plain_row(2, "user.signed_up"@, seq![0u8]) },
        EventView {
            metadata: Some(seq![1u8, 2u8, 3u8]),
            ..plain_row(3, "ÉvénementUTF8"@, repeated(0, 64))
        },
        EventView {
            schema_version: 0xffff_ffff,
            ..plain_row(4, "with spaces 123"@, repeated(0xff, 64))
        },
        plain_row(5, "E"@, ramp(256, 256)),
        plain_row(6, "E"@, ramp(4096, 256)),
    ]
}

/// Rows of mixed shapes: types with dots, spaces and letters beyond ASCII, schema versions up to
/// the largest, payloads from nothing to 4 KiB, with and without metadata.
fn mixed() -> (r: Vec<ConformanceRow>)
    ensures
        row_views(r@) == mixed_rows(),
{
    let rows: Vec<ConformanceRow> = no_rows();
    let rows: Vec<ConformanceRow> = and_row(rows, ConformanceRow::new(1, "Created", Vec::new()));
    let rows: Vec<ConformanceRow> = and_row(
        rows,
        ConformanceRow::new(2, "user.signed_up", one_octet(0)).with_schema_version(7),
    );
    let rows: Vec<ConformanceRow> = and_row(
        rows,
        ConformanceRow::new(3, "ÉvénementUTF8", repeated_octets(0, 64)).with_metadata(
            one_two_three(),
        ),
    );
    let rows: Vec<ConformanceRow> = and_row(
        rows,
        ConformanceRow::new(4, "with spaces 123", repeated_octets(0xff, 64)).with_schema_version(
            0xffff_ffff,
        ),
    );
    let rows: Vec<ConformanceRow> = and_row(
        rows,
        ConformanceRow::new(5, "E", ramp_octets(256, 256)),
    );
    and_row(rows, ConformanceRow::new(6, "E", ramp_octets(4096, 256)))
}

/// What was appended reads back.
pub open spec fn append_then_read_round_trips() -> Seq<StageView> {
    seq![
        StageView::fresh(name_octets("round-trip"), mixed_rows()),
        StageView::reads(name_octets("round-trip"), 1, RowsWantView::Exact(mixed_rows())),
    ]
}

/// Rows of mixed shapes read back byte for byte in the order of their append.
pub fn check_append_then_read_round_trips<P: AllPosition>(seen: &[Reply<P>]) -> (r: Verdict<P>)
    ensures
        r@ == verdict_of(append_then_read_round_trips(), reply_views(seen@), Seq::empty()),
{
    let script: Script = Script::new().with(Stage::fresh(named("round-trip"), mixed())).with(
        Stage::reads(named("round-trip"), 1, RowsWant::Exact(mixed())),
    );
    assert(script@ =~= append_then_read_round_trips());
    script.judge(seen)
}

/// Versions come in order, and the end stays the end.
pub open spec fn versions_strictly_monotonic_and_fused() -> Seq<StageView> {
    seq![
        StageView::fresh(name_octets("monotonic"), plain_run(1, 64, Seq::empty())),
        StageView {
            ask: AskView::ReadStream(name_octets("monotonic"), version_at(1), 8),
            want: WantView::Rows(RowsWantView::Versions(1, 64), 8),
        },
    ]
}

/// 64 events read back with versions 1 to 64, and behind them the read stays at its end.
pub fn check_versions_strictly_monotonic_and_fused<P: AllPosition>(seen: &[Reply<P>]) -> (r: Verdict<
    P,
>)
    ensures
        r@ == verdict_of(versions_strictly_monotonic_and_fused(), reply_views(seen@), Seq::empty()),
{
    let script: Script = Script::new().with(Stage::fresh(named("monotonic"), plain_rows(64))).with(
        Stage {
            ask: Ask::ReadStream { key: named("monotonic"), from: version_of(1), polls: 8 },
            want: Want::Rows { want: RowsWant::Versions { first: 1, count: 64 }, polls: 8 },
        },
    );
    assert(script@ =~= versions_strictly_monotonic_and_fused());
    script.judge(seen)
}

/// A large stream reads back whole.
pub open spec fn large_stream_completes() -> Seq<StageView> {
    seq![
        StageView::fresh(name_octets("large"), plain_run(1, 1500, Seq::empty())),
        StageView::reads(name_octets("large"), 1, RowsWantView::Versions(1, 1500)),
    ]
}

/// A stream of 1500 events reads back with versions 1 to 1500, with no gap and no duplicate.
pub fn check_large_stream_completes<P: AllPosition>(seen: &[Reply<P>]) -> (r: Verdict<P>)
    ensures
        r@ == verdict_of(large_stream_completes(), reply_views(seen@), Seq::empty()),
{
    let script: Script = Script::new().with(Stage::fresh(named("large"), plain_rows(1500))).with(
        Stage::reads(named("large"), 1, RowsWant::Versions { first: 1, count: 1500 }),
    );
    assert(script@ =~= large_stream_completes());
    script.judge(seen)
}

/// A stream read takes its bound along.
pub open spec fn read_stream_from_is_inclusive() -> Seq<StageView> {
    seq![
        StageView::fresh(name_octets("inclusive"), plain_run(1, 5, Seq::empty())),
        StageView::reads(name_octets("inclusive"), 3, RowsWantView::Versions(3, 3)),
    ]
}

/// A read from version 3 of 5 yields 3, 4 and 5.
pub fn check_read_stream_from_is_inclusive<P: AllPosition>(seen: &[Reply<P>]) -> (r: Verdict<P>)
    ensures
        r@ == verdict_of(read_stream_from_is_inclusive(), reply_views(seen@), Seq::empty()),
{
    let script: Script = Script::new().with(Stage::fresh(named("inclusive"), plain_rows(5))).with(
        Stage::reads(named("inclusive"), 3, RowsWant::Versions { first: 3, count: 3 }),
    );
    assert(script@ =~= read_stream_from_is_inclusive());
    script.judge(seen)
}

/// A stale expectation is a conflict.
pub open spec fn append_conflict_is_surfaced() -> Seq<StageView> {
    seq![
        StageView::fresh(name_octets("conflict"), seq![octet_row(1, 1), octet_row(2, 2)]),
        StageView::claims_fresh(
            name_octets("conflict"),
            seq![octet_row(1, 9)],
            WantView::ConflictAt(2),
        ),
        StageView::reads(
            name_octets("conflict"),
            1,
            RowsWantView::Payloads(seq![seq![1u8], seq![2u8]]),
        ),
    ]
}

/// An append that takes a stream of two events for fresh is refused as a conflict that names the
/// head, 2, and leaves the stream as it was.
pub fn check_append_conflict_is_surfaced<P: AllPosition>(seen: &[Reply<P>]) -> (r: Verdict<P>)
    ensures
        r@ == verdict_of(append_conflict_is_surfaced(), reply_views(seen@), Seq::empty()),
{
    let rows: Vec<ConformanceRow> = two_rows(row_of_octet(1, 1), row_of_octet(2, 2));
    let payloads: Vec<Vec<u8>> = two_octets(one_octet(1), one_octet(2));
    let script: Script = Script::new().with(Stage::fresh(named("conflict"), rows)).with(
        Stage::claims_fresh(
            named("conflict"),
            one_row(row_of_octet(1, 9)),
            Want::ConflictAt { head: 2 },
        ),
    ).with(Stage::reads(named("conflict"), 1, RowsWant::Payloads(payloads)));
    assert(script@ =~= append_conflict_is_surfaced());
    script.judge(seen)
}

/// A conflict, then a retry.
pub open spec fn append_retry_after_conflict_succeeds() -> Seq<StageView> {
    seq![
        StageView::fresh(name_octets("retry"), seq![octet_row(1, 1)]),
        StageView::claims_fresh(name_octets("retry"), seq![octet_row(1, 9)], WantView::Refused),
        StageView {
            ask: AskView::Append(run_at(name_octets("retry"), 1, seq![octet_row(2, 2)])),
            want: WantView::Landed,
        },
        StageView::reads(name_octets("retry"), 1, RowsWantView::Versions(1, 2)),
    ]
}

/// Behind a refused append, one with the right expectation lands and adds one event.
pub fn check_append_retry_after_conflict_succeeds<P: AllPosition>(seen: &[Reply<P>]) -> (r: Verdict<
    P,
>)
    ensures
        r@ == verdict_of(append_retry_after_conflict_succeeds(), reply_views(seen@), Seq::empty()),
{
    let retry: WriteRows = WriteRows {
        key: named("retry"),
        expected: Version::new(1),
        rows: one_row(row_of_octet(2, 2)),
    };
    let script: Script = Script::new().with(
        Stage::fresh(named("retry"), one_row(row_of_octet(1, 1))),
    ).with(
        Stage::claims_fresh(named("retry"), one_row(row_of_octet(1, 9)), Want::Refused),
    ).with(Stage { ask: Ask::Append(retry), want: Want::Landed }).with(
        Stage::reads(named("retry"), 1, RowsWant::Versions { first: 1, count: 2 }),
    );
    assert(script@ =~= append_retry_after_conflict_succeeds());
    script.judge(seen)
}

/// An empty store has no rows.
pub open spec fn all_empty_store_yields_none() -> Seq<StageView> {
    seq![StageView::reads_all(Mark::Start, AllWantView::Count(0), false)]
}

/// All streams of an empty store read as nothing.
pub fn check_all_empty_store_yields_none<P: AllPosition>(seen: &[Reply<P>]) -> (r: Verdict<P>)
    ensures
        r@ == verdict_of(all_empty_store_yields_none(), reply_views(seen@), Seq::empty()),
{
    let script: Script = Script::new().with(
        Stage::reads_all(Mark::Start, AllWant::Count(0), false),
    );
    assert(script@ =~= all_empty_store_yields_none());
    script.judge(seen)
}

/// The stage that appends an event whose payload is the stream's name and the version.
pub open spec fn labelled(name: &str, version: nat) -> StageView {
    StageView::event(name_octets(name), version, counted(name, version))
}

/// Appends an event whose payload is the stream's name and the version.
fn label(name: &str, version: u64) -> (r: Stage)
    ensures
        r@ == labelled(name, version as nat),
{
    Stage::event(named(name), version, counted_octets(name, version))
}

/// The payloads of events on two streams.
pub open spec fn global_order() -> Seq<Seq<u8>> {
    seq![counted("a", 1), counted("a", 2), counted("b", 1), counted("a", 3), counted("a", 4)]
}

/// Events of two streams come in the order of their appends.
pub open spec fn all_global_order_across_streams() -> Seq<StageView> {
    seq![
        labelled("a", 1),
        labelled("a", 2),
        labelled("b", 1),
        labelled("a", 3),
        labelled("a", 4),
        StageView::reads_all(
            Mark::Start,
            AllWantView::Payloads(global_order()),
            true,
        ),
    ]
}

/// All streams read as every event in the order of the appends, at increasing positions.
pub fn check_all_global_order_across_streams<P: AllPosition>(seen: &[Reply<P>]) -> (r: Verdict<P>)
    ensures
        r@ == verdict_of(all_global_order_across_streams(), reply_views(seen@), Seq::empty()),
{
    let payloads: Vec<Vec<u8>> = and_octets(no_octets(), counted_octets("a", 1));
    let payloads: Vec<Vec<u8>> = and_octets(payloads, counted_octets("a", 2));
    let payloads: Vec<Vec<u8>> = and_octets(payloads, counted_octets("b", 1));
    let payloads: Vec<Vec<u8>> = and_octets(payloads, counted_octets("a", 3));
    let payloads: Vec<Vec<u8>> = and_octets(payloads, counted_octets("a", 4));
    assert(octet_views(payloads@) =~= global_order());
    let script: Script = Script::new().with(label("a", 1)).with(label("a", 2)).with(
        label("b", 1),
    ).with(label("a", 3)).with(label("a", 4)).with(
        Stage::reads_all(Mark::Start, AllWant::Payloads(payloads), true),
    );
    assert(script@ =~= all_global_order_across_streams());
    script.judge(seen)
}

/// An append answers the position of its event.
pub open spec fn append_returns_assigned_all_position() -> Seq<StageView> {
    seq![
        labelled("a", 1),
        StageView { want: WantView::LandedBehind(0), ..labelled("a", 2) },
        StageView { want: WantView::LandedBehind(1), ..labelled("b", 1) },
        StageView::reads_all(
            Mark::Start,
            AllWantView::At(
                seq![(0, counted("a", 1)), (1, counted("a", 2)), (2, counted("b", 1))],
            ),
            false,
        ),
    ]
}

/// Successive appends answer increasing positions, on one stream and across streams, and each
/// position is that of the append's event among all streams.
pub fn check_append_returns_assigned_all_position<P: AllPosition>(seen: &[Reply<P>]) -> (r: Verdict<
    P,
>)
    ensures
        r@ == verdict_of(append_returns_assigned_all_position(), reply_views(seen@), Seq::empty()),
{
    let mut all: Vec<Appended> = Vec::new();
    all.push(Appended { answer: 0, payload: counted_octets("a", 1) });
    all.push(Appended { answer: 1, payload: counted_octets("a", 2) });
    all.push(Appended { answer: 2, payload: counted_octets("b", 1) });
    assert(appended_views(all@) =~= seq![
        (0, counted("a", 1)),
        (1, counted("a", 2)),
        (2, counted("b", 1)),
    ]);
    let second: Stage = label("a", 2);
    let third: Stage = label("b", 1);
    let script: Script = Script::new().with(label("a", 1)).with(
        Stage { ask: second.ask, want: Want::LandedBehind { answer: 0 } },
    ).with(Stage { ask: third.ask, want: Want::LandedBehind { answer: 1 } }).with(
        Stage::reads_all(Mark::Start, AllWant::At(all), false),
    );
    assert(script@ =~= append_returns_assigned_all_position());
    script.judge(seen)
}

/// An append of several events answers the position of the last.
pub open spec fn multi_event_append_returns_last_position() -> Seq<StageView> {
    seq![
        StageView::fresh(
            name_octets("multi"),
            seq![
                plain_row(1, "E"@, name_octets("v1")),
                plain_row(2, "E"@, name_octets("v2")),
                plain_row(3, "E"@, name_octets("v3")),
            ],
        ),
        StageView::reads_all(Mark::Start, AllWantView::LastAt(0, name_octets("v3")), false),
    ]
}

/// An append of three events answers the position of the third, not of the first.
pub fn check_multi_event_append_returns_last_position<P: AllPosition>(seen: &[Reply<P>]) -> (r:
    Verdict<P>)
    ensures
        r@ == verdict_of(
            multi_event_append_returns_last_position(),
            reply_views(seen@),
            Seq::empty(),
        ),
{
    let rows: Vec<ConformanceRow> = three_rows(
        ConformanceRow::new(1, "E", octets_of("v1")),
        ConformanceRow::new(2, "E", octets_of("v2")),
        ConformanceRow::new(3, "E", octets_of("v3")),
    );
    let script: Script = Script::new().with(Stage::fresh(named("multi"), rows)).with(
        Stage::reads_all(
            Mark::Start,
            AllWant::LastAt { answer: 0, payload: octets_of("v3") },
            false,
        ),
    );
    assert(script@ =~= multi_event_append_returns_last_position());
    script.judge(seen)
}

/// Rows of all streams carry their stream.
pub open spec fn all_items_carry_their_stream_key() -> Seq<StageView> {
    seq![
        StageView::event(name_octets("alpha"), 1, name_octets("a1")),
        StageView::event(name_octets("beta"), 1, name_octets("b1")),
        StageView::event(name_octets("alpha"), 2, name_octets("a2")),
        StageView::reads_all(
            Mark::Start,
            AllWantView::Attributed(
                seq![name_octets("alpha"), name_octets("beta"), name_octets("alpha")],
                seq![name_octets("a1"), name_octets("b1"), name_octets("a2")],
            ),
            false,
        ),
    ]
}

/// Each row of all streams carries the stream that it was appended to.
pub fn check_all_items_carry_their_stream_key<P: AllPosition>(seen: &[Reply<P>]) -> (r: Verdict<P>)
    ensures
        r@ == verdict_of(all_items_carry_their_stream_key(), reply_views(seen@), Seq::empty()),
{
    let keys: Vec<Vec<u8>> = three_octets(
        octets_of("alpha"),
        octets_of("beta"),
        octets_of("alpha"),
    );
    let payloads: Vec<Vec<u8>> = three_octets(
        octets_of("a1"),
        octets_of("b1"),
        octets_of("a2"),
    );
    let script: Script = Script::new().with(
        Stage::event(named("alpha"), 1, octets_of("a1")),
    ).with(Stage::event(named("beta"), 1, octets_of("b1"))).with(
        Stage::event(named("alpha"), 2, octets_of("a2")),
    ).with(Stage::reads_all(Mark::Start, AllWant::Attributed { keys, payloads }, false));
    assert(script@ =~= all_items_carry_their_stream_key());
    script.judge(seen)
}

/// A read of all streams leaves its bound out.
pub open spec fn all_from_is_exclusive() -> Seq<StageView> {
    seq![
        labelled("a", 1),
        labelled("a", 2),
        labelled("a", 3),
        StageView::reads_all(Mark::Start, AllWantView::Count(3), false),
        StageView::resumes_all(
            Mark::Row { answer: 3, row: 0 },
            AllWantView::Payloads(seq![counted("a", 2), counted("a", 3)]),
        ),
    ]
}

/// A read behind the first of three positions yields the second and the third event.
pub fn check_all_from_is_exclusive<P: AllPosition>(seen: &[Reply<P>]) -> (r: Verdict<P>)
    ensures
        r@ == verdict_of(all_from_is_exclusive(), reply_views(seen@), Seq::empty()),
{
    let payloads: Vec<Vec<u8>> = two_octets(counted_octets("a", 2), counted_octets("a", 3));
    let script: Script = Script::new().with(label("a", 1)).with(label("a", 2)).with(
        label("a", 3),
    ).with(Stage::reads_all(Mark::Start, AllWant::Count(3), false)).with(
        Stage::resumes_all(Mark::Row { answer: 3, row: 0 }, AllWant::Payloads(payloads)),
    );
    assert(script@ =~= all_from_is_exclusive());
    script.judge(seen)
}

/// The payloads of ten events that go to two streams in turn.
pub open spec fn alternating_payloads() -> Seq<Seq<u8>> {
    seq![
        counted("a", 1),
        counted("b", 1),
        counted("a", 2),
        counted("b", 2),
        counted("a", 3),
        counted("b", 3),
        counted("a", 4),
        counted("b", 4),
        counted("a", 5),
        counted("b", 5),
    ]
}

/// The payloads of ten events that go to two streams in turn.
fn alternating() -> (r: Vec<Vec<u8>>)
    ensures
        octet_views(r@) == alternating_payloads(),
{
    let all: Vec<Vec<u8>> = and_octets(no_octets(), counted_octets("a", 1));
    let all: Vec<Vec<u8>> = and_octets(all, counted_octets("b", 1));
    let all: Vec<Vec<u8>> = and_octets(all, counted_octets("a", 2));
    let all: Vec<Vec<u8>> = and_octets(all, counted_octets("b", 2));
    let all: Vec<Vec<u8>> = and_octets(all, counted_octets("a", 3));
    let all: Vec<Vec<u8>> = and_octets(all, counted_octets("b", 3));
    let all: Vec<Vec<u8>> = and_octets(all, counted_octets("a", 4));
    let all: Vec<Vec<u8>> = and_octets(all, counted_octets("b", 4));
    let all: Vec<Vec<u8>> = and_octets(all, counted_octets("a", 5));
    let all: Vec<Vec<u8>> = and_octets(all, counted_octets("b", 5));
    assert(octet_views(all@) =~= alternating_payloads());
    all
}

/// A read in cycles gives what a read at once gives.
pub open spec fn all_multi_resume_cycles() -> Seq<StageView> {
    seq![
        labelled("a", 1),
        labelled("b", 1),
        labelled("a", 2),
        labelled("b", 2),
        labelled("a", 3),
        labelled("b", 3),
        labelled("a", 4),
        labelled("b", 4),
        labelled("a", 5),
        labelled("b", 5),
        StageView::reads_all(Mark::Start, AllWantView::Payloads(alternating_payloads()), false),
        StageView {
            ask: AskView::ReadPages(3),
            want: WantView::All(AllWantView::Payloads(alternating_payloads()), true, Mark::Start),
        },
    ]
}

/// Ten events on two streams in turn: a read of all streams that resumes every three rows gives
/// what a read at once gives, without gap, duplicate or skip.
pub fn check_all_multi_resume_cycles<P: AllPosition>(seen: &[Reply<P>]) -> (r: Verdict<P>)
    ensures
        r@ == verdict_of(all_multi_resume_cycles(), reply_views(seen@), Seq::empty()),
{
    let script: Script = Script::new().with(label("a", 1)).with(label("b", 1)).with(
        label("a", 2),
    ).with(label("b", 2)).with(label("a", 3)).with(label("b", 3)).with(label("a", 4)).with(
        label("b", 4),
    ).with(label("a", 5)).with(label("b", 5)).with(
        Stage::reads_all(Mark::Start, AllWant::Payloads(alternating()), false),
    ).with(
        Stage {
            ask: Ask::ReadPages { limit: 3 },
            want: Want::All {
                rows: AllWant::Payloads(alternating()),
                in_order: true,
                behind: Mark::Start,
            },
        },
    );
    assert(script@ =~= all_multi_resume_cycles());
    script.judge(seen)
}

/// Behind the last position there is nothing yet.
pub open spec fn all_boundary_then_new_append() -> Seq<StageView> {
    seq![
        labelled("a", 1),
        labelled("b", 1),
        StageView::reads_all(Mark::Start, AllWantView::Count(2), false),
        StageView::reads_all(Mark::Last { answer: 2 }, AllWantView::Count(0), false),
        labelled("a", 2),
        StageView::resumes_all(
            Mark::Last { answer: 2 },
            AllWantView::Payloads(seq![counted("a", 2)]),
        ),
    ]
}

/// A read behind the last position is empty; behind a later append it yields the new event alone.
pub fn check_all_boundary_then_new_append<P: AllPosition>(seen: &[Reply<P>]) -> (r: Verdict<P>)
    ensures
        r@ == verdict_of(all_boundary_then_new_append(), reply_views(seen@), Seq::empty()),
{
    let payloads: Vec<Vec<u8>> = and_octets(no_octets(), counted_octets("a", 2));
    let script: Script = Script::new().with(label("a", 1)).with(label("b", 1)).with(
        Stage::reads_all(Mark::Start, AllWant::Count(2), false),
    ).with(Stage::reads_all(Mark::Last { answer: 2 }, AllWant::Count(0), false)).with(
        label("a", 2),
    ).with(Stage::resumes_all(Mark::Last { answer: 2 }, AllWant::Payloads(payloads)));
    assert(script@ =~= all_boundary_then_new_append());
    script.judge(seen)
}

/// The two kinds of bounds on one store.
pub open spec fn read_stream_inclusive_read_all_exclusive_coexist() -> Seq<StageView> {
    seq![
        labelled("a", 1),
        labelled("a", 2),
        labelled("a", 3),
        StageView::reads(name_octets("a"), 2, RowsWantView::Versions(2, 2)),
        StageView::reads_all(Mark::Start, AllWantView::Count(3), false),
        StageView::reads_all(
            Mark::Row { answer: 4, row: 1 },
            AllWantView::Payloads(seq![counted("a", 3)]),
            false,
        ),
    ]
}

/// A stream read takes its bound along, and a read of all streams leaves it out, on one store.
pub fn check_read_stream_inclusive_read_all_exclusive_coexist<P: AllPosition>(
    seen: &[Reply<P>],
) -> (r: Verdict<P>)
    ensures
        r@ == verdict_of(
            read_stream_inclusive_read_all_exclusive_coexist(),
            reply_views(seen@),
            Seq::empty(),
        ),
{
    let payloads: Vec<Vec<u8>> = and_octets(no_octets(), counted_octets("a", 3));
    let script: Script = Script::new().with(label("a", 1)).with(label("a", 2)).with(
        label("a", 3),
    ).with(Stage::reads(named("a"), 2, RowsWant::Versions { first: 2, count: 2 })).with(
        Stage::reads_all(Mark::Start, AllWant::Count(3), false),
    ).with(
        Stage::reads_all(Mark::Row { answer: 4, row: 1 }, AllWant::Payloads(payloads), false),
    );
    assert(script@ =~= read_stream_inclusive_read_all_exclusive_coexist());
    script.judge(seen)
}

/// The stage that appends an event whose payload is `p` and the version.
pub open spec fn ticked(name: &str, version: nat) -> StageView {
    StageView::event(name_octets(name), version, counted("p", version))
}

/// Appends an event whose payload is `p` and the version.
pub fn tick(name: &str, version: u64) -> (r: Stage)
    ensures
        r@ == ticked(name, version as nat),
{
    Stage::event(named(name), version, counted_octets("p", version))
}

/// Backlog, boundary, live events.
pub open spec fn subscription_backlog_then_caught_up_then_live() -> Seq<StageView> {
    seq![
        ticked("sub-proto", 1),
        ticked("sub-proto", 2),
        ticked("sub-proto", 3),
        StageView::subscribes(0, name_octets("sub-proto"), 0),
        StageView::steps(0, StepsWantView::Event(1)),
        StageView::steps(0, StepsWantView::Event(2)),
        StageView::steps(0, StepsWantView::Event(3)),
        StageView::steps(0, StepsWantView::CaughtUp),
        ticked("sub-proto", 4),
        StageView::steps(0, StepsWantView::Event(4)),
    ]
}

/// A subscription yields the backlog in order, then the boundary once, then what is appended
/// later.
pub fn check_subscription_backlog_then_caught_up_then_live<P: AllPosition>(seen: &[Reply<P>]) -> (r:
    Verdict<P>)
    ensures
        r@ == verdict_of(
            subscription_backlog_then_caught_up_then_live(),
            reply_views(seen@),
            Seq::empty(),
        ),
{
    let script: Script = Script::new().with(tick("sub-proto", 1)).with(tick("sub-proto", 2)).with(
        tick("sub-proto", 3),
    ).with(Stage::subscribes(0, named("sub-proto"), 0)).with(
        Stage::steps(0, StepsWant::Event { version: 1 }),
    ).with(Stage::steps(0, StepsWant::Event { version: 2 })).with(
        Stage::steps(0, StepsWant::Event { version: 3 }),
    ).with(Stage::steps(0, StepsWant::CaughtUp)).with(tick("sub-proto", 4)).with(
        Stage::steps(0, StepsWant::Event { version: 4 }),
    );
    assert(script@ =~= subscription_backlog_then_caught_up_then_live());
    script.judge(seen)
}

/// A subscription resumes behind its version.
pub open spec fn subscription_resume_strict_after() -> Seq<StageView> {
    seq![
        StageView::event(name_octets("sub-resume"), 1, name_octets("p")),
        StageView::event(name_octets("sub-resume"), 2, name_octets("p")),
        StageView::event(name_octets("sub-resume"), 3, name_octets("p")),
        StageView::event(name_octets("sub-resume"), 4, name_octets("p")),
        StageView::event(name_octets("sub-resume"), 5, name_octets("p")),
        StageView::subscribes(0, name_octets("sub-resume"), 3),
        StageView::steps(0, StepsWantView::Event(4)),
    ]
}

/// A subscription behind version 3 yields version 4 first.
pub fn check_subscription_resume_strict_after<P: AllPosition>(seen: &[Reply<P>]) -> (r: Verdict<P>)
    ensures
        r@ == verdict_of(subscription_resume_strict_after(), reply_views(seen@), Seq::empty()),
{
    let script: Script = Script::new().with(
        Stage::event(named("sub-resume"), 1, octets_of("p")),
    ).with(Stage::event(named("sub-resume"), 2, octets_of("p"))).with(
        Stage::event(named("sub-resume"), 3, octets_of("p")),
    ).with(Stage::event(named("sub-resume"), 4, octets_of("p"))).with(
        Stage::event(named("sub-resume"), 5, octets_of("p")),
    ).with(Stage::subscribes(0, named("sub-resume"), 3)).with(
        Stage::steps(0, StepsWant::Event { version: 4 }),
    );
    assert(script@ =~= subscription_resume_strict_after());
    script.judge(seen)
}

/// Backlog, boundary and live events of all streams.
pub open spec fn subscription_all_backlog_then_caught_up_then_live() -> Seq<StageView> {
    seq![
        labelled("a", 1),
        labelled("b", 1),
        labelled("a", 2),
        StageView { ask: AskView::SubscribeAll(0), want: WantView::Done },
        StageView::catches_up(
            0,
            StepsWantView::AllBacklog(
                seq![name_octets("a"), name_octets("b"), name_octets("a")],
                seq![counted("a", 1), counted("b", 1), counted("a", 2)],
            ),
        ),
        labelled("b", 2),
        StageView::steps(0, StepsWantView::AllLive(name_octets("b"), counted("b", 2), 4)),
    ]
}

/// A subscription to all streams yields the backlog of all streams in the order of positions,
/// then the boundary once, then what is appended later, at a later position; each event carries
/// its stream.
pub fn check_subscription_all_backlog_then_caught_up_then_live<P: AllPosition>(
    seen: &[Reply<P>],
) -> (r: Verdict<P>)
    ensures
        r@ == verdict_of(
            subscription_all_backlog_then_caught_up_then_live(),
            reply_views(seen@),
            Seq::empty(),
        ),
{
    let keys: Vec<Vec<u8>> = three_octets(octets_of("a"), octets_of("b"), octets_of("a"));
    let payloads: Vec<Vec<u8>> = three_octets(
        counted_octets("a", 1),
        counted_octets("b", 1),
        counted_octets("a", 2),
    );
    let script: Script = Script::new().with(label("a", 1)).with(label("b", 1)).with(
        label("a", 2),
    ).with(Stage { ask: Ask::SubscribeAll { slot: 0 }, want: Want::Done }).with(
        Stage::catches_up(0, StepsWant::AllBacklog { keys, payloads }),
    ).with(label("b", 2)).with(
        Stage::steps(
            0,
            StepsWant::AllLive {
                key: octets_of("b"),
                payload: counted_octets("b", 2),
                answer: 4,
            },
        ),
    );
    assert(script@ =~= subscription_all_backlog_then_caught_up_then_live());
    script.judge(seen)
}

/// A subscription to a stream that comes later.
pub open spec fn subscription_absent_stream_waits_then_delivers() -> Seq<StageView> {
    seq![
        StageView::subscribes(0, name_octets("ghost"), 0),
        StageView::steps(0, StepsWantView::CaughtUp),
        StageView::event(name_octets("ghost"), 1, name_octets("first")),
        StageView::steps(0, StepsWantView::EventWith(1, name_octets("first"))),
    ]
}

/// A subscription to a stream that does not exist yet yields the boundary, then the stream's first
/// event.
pub fn check_subscription_absent_stream_waits_then_delivers<P: AllPosition>(
    seen: &[Reply<P>],
) -> (r: Verdict<P>)
    ensures
        r@ == verdict_of(
            subscription_absent_stream_waits_then_delivers(),
            reply_views(seen@),
            Seq::empty(),
        ),
{
    let script: Script = Script::new().with(Stage::subscribes(0, named("ghost"), 0)).with(
        Stage::steps(0, StepsWant::CaughtUp),
    ).with(Stage::event(named("ghost"), 1, octets_of("first"))).with(
        Stage::steps(0, StepsWant::EventWith { version: 1, payload: octets_of("first") }),
    );
    assert(script@ =~= subscription_absent_stream_waits_then_delivers());
    script.judge(seen)
}

/// Two subscriptions to one stream.
pub open spec fn two_subscribers_same_stream_both_receive() -> Seq<StageView> {
    seq![
        ticked("fanout", 1),
        StageView::subscribes(0, name_octets("fanout"), 0),
        StageView::subscribes(1, name_octets("fanout"), 0),
        StageView::steps(0, StepsWantView::Event(1)),
        StageView::steps(0, StepsWantView::CaughtUp),
        StageView::steps(1, StepsWantView::Event(1)),
        StageView::steps(1, StepsWantView::CaughtUp),
        ticked("fanout", 2),
        StageView::steps(0, StepsWantView::Event(2)),
        StageView::steps(1, StepsWantView::Event(2)),
    ]
}

/// Two subscriptions to one stream each yield the whole stream.
pub fn check_two_subscribers_same_stream_both_receive<P: AllPosition>(seen: &[Reply<P>]) -> (r:
    Verdict<P>)
    ensures
        r@ == verdict_of(
            two_subscribers_same_stream_both_receive(),
            reply_views(seen@),
            Seq::empty(),
        ),
{
    let script: Script = Script::new().with(tick("fanout", 1)).with(
        Stage::subscribes(0, named("fanout"), 0),
    ).with(Stage::subscribes(1, named("fanout"), 0)).with(
        Stage::steps(0, StepsWant::Event { version: 1 }),
    ).with(Stage::steps(0, StepsWant::CaughtUp)).with(
        Stage::steps(1, StepsWant::Event { version: 1 }),
    ).with(Stage::steps(1, StepsWant::CaughtUp)).with(tick("fanout", 2)).with(
        Stage::steps(0, StepsWant::Event { version: 2 }),
    ).with(Stage::steps(1, StepsWant::Event { version: 2 }));
    assert(script@ =~= two_subscribers_same_stream_both_receive());
    script.judge(seen)
}

/// A backlog of several chunks.
pub open spec fn subscription_large_backlog_crosses_chunk_seam() -> Seq<StageView> {
    seq![
        StageView::fresh(name_octets("sub-chunk"), plain_run(1, 2500, Seq::empty())),
        StageView::subscribes(0, name_octets("sub-chunk"), 0),
        StageView::catches_up(0, StepsWantView::Backlog(1, 2500)),
    ]
}

/// A subscription yields a backlog of 2500 events, more than two chunks of a catch-up, without gap
/// or duplicate, and then the boundary.
pub fn check_subscription_large_backlog_crosses_chunk_seam<P: AllPosition>(seen: &[Reply<P>]) -> (r:
    Verdict<P>)
    ensures
        r@ == verdict_of(
            subscription_large_backlog_crosses_chunk_seam(),
            reply_views(seen@),
            Seq::empty(),
        ),
{
    let script: Script = Script::new().with(Stage::fresh(named("sub-chunk"), plain_rows(2500))).with(
        Stage::subscribes(0, named("sub-chunk"), 0),
    ).with(Stage::catches_up(0, StepsWant::Backlog { first: 1, count: 2500 }));
    assert(script@ =~= subscription_large_backlog_crosses_chunk_seam());
    script.judge(seen)
}

/// A subscription behind a version that is not there yet.
pub open spec fn subscription_beyond_head_filters_below_bound() -> Seq<StageView> {
    seq![
        ticked("beyond-head", 1),
        ticked("beyond-head", 2),
        StageView::subscribes(0, name_octets("beyond-head"), 5),
        StageView::steps(0, StepsWantView::CaughtUp),
        ticked("beyond-head", 3),
        ticked("beyond-head", 4),
        ticked("beyond-head", 5),
        ticked("beyond-head", 6),
        StageView::steps(0, StepsWantView::Event(6)),
    ]
}

/// A subscription behind version 5 of a stream with two events yields the boundary, and of what is
/// appended later nothing up to version 5.
pub fn check_subscription_beyond_head_filters_below_bound<P: AllPosition>(seen: &[Reply<P>]) -> (r:
    Verdict<P>)
    ensures
        r@ == verdict_of(
            subscription_beyond_head_filters_below_bound(),
            reply_views(seen@),
            Seq::empty(),
        ),
{
    let script: Script = Script::new().with(tick("beyond-head", 1)).with(
        tick("beyond-head", 2),
    ).with(Stage::subscribes(0, named("beyond-head"), 5)).with(
        Stage::steps(0, StepsWant::CaughtUp),
    ).with(tick("beyond-head", 3)).with(tick("beyond-head", 4)).with(tick("beyond-head", 5)).with(
        tick("beyond-head", 6),
    ).with(Stage::steps(0, StepsWant::Event { version: 6 }));
    assert(script@ =~= subscription_beyond_head_filters_below_bound());
    script.judge(seen)
}

} // verus!
