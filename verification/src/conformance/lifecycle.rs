//! What has to survive when a persistent store is closed and opened again.

use crate::conformance::ask::{name_octets, named, Mark};
use crate::conformance::reply::{reply_views, Reply};
use crate::conformance::row::{plain_row, row_views, ConformanceRow};
use crate::conformance::script::{
    and_octets, no_octets, octet_row, octets_of, one_octet, one_row, row_of_octet, two_rows,
    verdict_of, Script, Stage, StageView, Verdict,
};
use crate::conformance::sequence::{tick, ticked};
use crate::conformance::want::{
    AllWant, AllWantView, RowsWant, RowsWantView, StepsWant, StepsWantView, Want, WantView,
};
use crate::envelope::EventView;
use crate::store::AllPosition;
use vstd::prelude::*;

verus! {

/// Two rows of different shapes.
pub open spec fn kept_rows() -> Seq<EventView> {
    seq![
        EventView { metadata: Some(seq![7u8]), ..plain_row(1, "Created"@, seq![1u8]) },
        EventView { schema_version: 3, ..plain_row(2, "Updated"@, seq![2u8]) },
    ]
}

/// Events survive.
pub open spec fn reopen_preserves_events() -> Seq<StageView> {
    seq![
        StageView::fresh(name_octets("persist"), kept_rows()),
        StageView::reads(name_octets("persist"), 1, RowsWantView::Any),
        StageView::reopens(),
        StageView::reads(name_octets("persist"), 1, RowsWantView::SameAs(1)),
    ]
}

/// What was read before the store was closed reads back the same, byte for byte.
pub fn check_reopen_preserves_events<P: AllPosition>(seen: &[Reply<P>]) -> (r: Verdict<P>)
    ensures
        r@ == verdict_of(reopen_preserves_events(), reply_views(seen@), Seq::empty()),
{
    let rows: Vec<ConformanceRow> = two_rows(
        ConformanceRow::new(1, "Created", one_octet(1)).with_metadata(one_octet(7)),
        ConformanceRow::new(2, "Updated", one_octet(2)).with_schema_version(3),
    );
    assert(row_views(rows@) =~= kept_rows());
    let script: Script = Script::new().with(Stage::fresh(named("persist"), rows)).with(
        Stage::reads(named("persist"), 1, RowsWant::Any),
    ).with(Stage::reopens()).with(
        Stage::reads(named("persist"), 1, RowsWant::SameAs { answer: 1 }),
    );
    assert(script@ =~= reopen_preserves_events());
    script.judge(seen)
}

/// Positions go on.
pub open spec fn reopen_preserves_position_watermark() -> Seq<StageView> {
    seq![
        StageView::event(name_octets("a"), 1, name_octets("a1")),
        StageView::event(name_octets("b"), 1, name_octets("b1")),
        StageView::reads_all(Mark::Start, AllWantView::NotEmpty, false),
        StageView::reopens(),
        StageView::event(name_octets("a"), 2, name_octets("a2")),
        StageView::resumes_all(
            Mark::Last { answer: 2 },
            AllWantView::Payloads(seq![name_octets("a2")]),
        ),
    ]
}

/// An append after the store was opened again lands behind every earlier position.
pub fn check_reopen_preserves_position_watermark<P: AllPosition>(seen: &[Reply<P>]) -> (r: Verdict<
    P,
>)
    ensures
        r@ == verdict_of(reopen_preserves_position_watermark(), reply_views(seen@), Seq::empty()),
{
    let script: Script = Script::new().with(Stage::event(named("a"), 1, octets_of("a1"))).with(
        Stage::event(named("b"), 1, octets_of("b1")),
    ).with(Stage::reads_all(Mark::Start, AllWant::NotEmpty, false)).with(Stage::reopens()).with(
        Stage::event(named("a"), 2, octets_of("a2")),
    ).with(
        Stage::resumes_all(
            Mark::Last { answer: 2 },
            AllWant::Payloads(and_octets(no_octets(), octets_of("a2"))),
        ),
    );
    assert(script@ =~= reopen_preserves_position_watermark());
    script.judge(seen)
}

/// Heads survive.
pub open spec fn reopen_conflict_state_intact() -> Seq<StageView> {
    seq![
        ticked("head", 1),
        ticked("head", 2),
        StageView::reopens(),
        StageView::claims_fresh(name_octets("head"), seq![octet_row(1, 9)], WantView::Refused),
        ticked("head", 3),
        StageView::reads(name_octets("head"), 1, RowsWantView::Versions(1, 3)),
    ]
}

/// A stale expectation is still refused after the store was opened again, and the right one lands.
pub fn check_reopen_conflict_state_intact<P: AllPosition>(seen: &[Reply<P>]) -> (r: Verdict<P>)
    ensures
        r@ == verdict_of(reopen_conflict_state_intact(), reply_views(seen@), Seq::empty()),
{
    let script: Script = Script::new().with(tick("head", 1)).with(tick("head", 2)).with(
        Stage::reopens(),
    ).with(
        Stage::claims_fresh(named("head"), one_row(row_of_octet(1, 9)), Want::Refused),
    ).with(tick("head", 3)).with(
        Stage::reads(named("head"), 1, RowsWant::Versions { first: 1, count: 3 }),
    );
    assert(script@ =~= reopen_conflict_state_intact());
    script.judge(seen)
}

/// The backlog survives.
pub open spec fn reopen_subscription_catches_up() -> Seq<StageView> {
    seq![
        StageView::event(name_octets("reopen-sub"), 1, name_octets("p")),
        StageView::event(name_octets("reopen-sub"), 2, name_octets("p")),
        StageView::event(name_octets("reopen-sub"), 3, name_octets("p")),
        StageView::reopens(),
        StageView::subscribes(0, name_octets("reopen-sub"), 0),
        StageView::catches_up(0, StepsWantView::Backlog(1, 3)),
    ]
}

/// A subscription that starts after the store was opened again yields the whole backlog.
pub fn check_reopen_subscription_catches_up<P: AllPosition>(seen: &[Reply<P>]) -> (r: Verdict<P>)
    ensures
        r@ == verdict_of(reopen_subscription_catches_up(), reply_views(seen@), Seq::empty()),
{
    let script: Script = Script::new().with(
        Stage::event(named("reopen-sub"), 1, octets_of("p")),
    ).with(Stage::event(named("reopen-sub"), 2, octets_of("p"))).with(
        Stage::event(named("reopen-sub"), 3, octets_of("p")),
    ).with(Stage::reopens()).with(Stage::subscribes(0, named("reopen-sub"), 0)).with(
        Stage::catches_up(0, StepsWant::Backlog { first: 1, count: 3 }),
    );
    assert(script@ =~= reopen_subscription_catches_up());
    script.judge(seen)
}

} // verus!
