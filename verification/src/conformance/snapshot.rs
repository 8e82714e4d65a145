//! Snapshots: state and position are saved and found together, and another schema version makes a
//! snapshot stale.
//!
//! The caller gives two positions to save at, the first before the second.

use crate::conformance::ask::{Ask, AskView, Mark};
use crate::conformance::reply::{reply_views, Reply};
use crate::conformance::row::SubId;
use crate::conformance::script::{
    one_octet, one_two_three, verdict_of, Script, Stage, StageView, Verdict,
};
use crate::conformance::want::{Want, WantView};
use crate::store::AllPosition;
use crate::value::SchemaVersion;
use vstd::prelude::*;

verus! {

/// The stage that saves a snapshot under schema version 1.
pub open spec fn saves(id: &str, sample: usize, state: Seq<u8>) -> StageView {
    StageView {
        ask: AskView::Commit(id@, 1, Mark::Sample { index: sample }, state),
        want: WantView::Done,
    }
}

/// The stage that asks for a snapshot.
pub open spec fn asks(id: &str, schema: nat, want: WantView) -> StageView {
    StageView { ask: AskView::Hydrate(id@, schema), want }
}

/// A snapshot at a sample position, with a state.
pub open spec fn found(sample: usize, state: Seq<u8>) -> WantView {
    WantView::FoundAt(Mark::Sample { index: sample }, Some(state))
}

/// Saves a snapshot under schema version 1.
fn save(id: &str, sample: usize, state: Vec<u8>) -> (r: Stage)
    ensures
        r@ == saves(id, sample, state@),
{
    Stage {
        ask: Ask::Commit {
            id: SubId::new(id),
            schema: SchemaVersion::initial(),
            position: Mark::Sample { index: sample },
            state,
        },
        want: Want::Done,
    }
}

/// Asks for a snapshot.
fn ask(id: &str, schema: SchemaVersion, want: Want) -> (r: Stage)
    ensures
        r@ == asks(id, schema@, want@),
{
    Stage { ask: Ask::Hydrate { id: SubId::new(id), schema }, want }
}

/// The two sample positions.
fn pair<P: AllPosition>(p1: P, p2: P) -> (r: Vec<P>)
    ensures
        r@ == seq![p1, p2],
{
    let mut out: Vec<P> = Vec::new();
    out.push(p1);
    out.push(p2);
    assert(out@ =~= seq![p1, p2]);
    out
}

/// Nothing, then what was saved.
pub open spec fn snapshot_absent_then_commit_then_found() -> Seq<StageView> {
    seq![
        asks("snap", 1, WantView::Absent),
        saves("snap", 0, seq![1u8, 2u8, 3u8]),
        asks("snap", 1, found(0, seq![1u8, 2u8, 3u8])),
    ]
}

/// A fresh store has no snapshot; what is saved is found with its position and state.
pub fn check_snapshot_absent_then_commit_then_found<P: AllPosition>(
    seen: &[Reply<P>],
    p1: P,
    p2: P,
) -> (r: Verdict<P>)
    ensures
        r@ == verdict_of(
            snapshot_absent_then_commit_then_found(),
            reply_views(seen@),
            seq![p1, p2],
        ),
{
    let script: Script = Script::new().with(
        ask("snap", SchemaVersion::initial(), Want::Absent),
    ).with(save("snap", 0, one_two_three())).with(
        ask(
            "snap",
            SchemaVersion::initial(),
            Want::FoundAt { position: Mark::Sample { index: 0 }, state: Some(one_two_three()) },
        ),
    );
    assert(script@ =~= snapshot_absent_then_commit_then_found());
    script.judge_with(seen, pair(p1, p2).as_slice())
}

/// Another schema version.
pub open spec fn snapshot_stale_on_schema_change() -> Seq<StageView> {
    seq![
        saves("snap-stale", 0, seq![1u8]),
        asks("snap-stale", 2, WantView::StaleAt(1)),
    ]
}

/// Asked for under another schema version, a snapshot is stale, and the answer carries the schema
/// version that it was saved under.
pub fn check_snapshot_stale_on_schema_change<P: AllPosition>(seen: &[Reply<P>], p1: P, p2: P) -> (r:
    Verdict<P>)
    ensures
        r@ == verdict_of(
            snapshot_stale_on_schema_change(),
            reply_views(seen@),
            seq![p1, p2],
        ),
{
    let second: SchemaVersion = match SchemaVersion::from_u32(2) {
        Some(schema) => schema,
        None => SchemaVersion::initial(),
    };
    let script: Script = Script::new().with(save("snap-stale", 0, one_octet(1))).with(
        ask("snap-stale", second, Want::StaleAt { schema: SchemaVersion::initial() }),
    );
    assert(script@ =~= snapshot_stale_on_schema_change());
    script.judge_with(seen, pair(p1, p2).as_slice())
}

/// The latest snapshot.
pub open spec fn snapshot_overwrite_latest_wins() -> Seq<StageView> {
    seq![
        saves("snap-latest", 0, seq![1u8]),
        saves("snap-latest", 1, seq![2u8]),
        asks("snap-latest", 1, found(1, seq![2u8])),
    ]
}

/// A second snapshot takes the place of the first, position and state.
pub fn check_snapshot_overwrite_latest_wins<P: AllPosition>(seen: &[Reply<P>], p1: P, p2: P) -> (r:
    Verdict<P>)
    requires
        p1.ordinal() < p2.ordinal(),
    ensures
        r@ == verdict_of(snapshot_overwrite_latest_wins(), reply_views(seen@), seq![p1, p2]),
{
    let script: Script = Script::new().with(save("snap-latest", 0, one_octet(1))).with(
        save("snap-latest", 1, one_octet(2)),
    ).with(
        ask(
            "snap-latest",
            SchemaVersion::initial(),
            Want::FoundAt { position: Mark::Sample { index: 1 }, state: Some(one_octet(2)) },
        ),
    );
    assert(script@ =~= snapshot_overwrite_latest_wins());
    script.judge_with(seen, pair(p1, p2).as_slice())
}

/// A state of no bytes.
pub open spec fn snapshot_empty_state_round_trips() -> Seq<StageView> {
    seq![
        saves("snap-empty", 0, Seq::empty()),
        asks("snap-empty", 1, found(0, Seq::empty())),
    ]
}

/// A state of no bytes is a snapshot too.
pub fn check_snapshot_empty_state_round_trips<P: AllPosition>(seen: &[Reply<P>], p1: P, p2: P) -> (r:
    Verdict<P>)
    ensures
        r@ == verdict_of(snapshot_empty_state_round_trips(), reply_views(seen@), seq![p1, p2]),
{
    let script: Script = Script::new().with(save("snap-empty", 0, Vec::new())).with(
        ask(
            "snap-empty",
            SchemaVersion::initial(),
            Want::FoundAt { position: Mark::Sample { index: 0 }, state: Some(Vec::new()) },
        ),
    );
    assert(script@ =~= snapshot_empty_state_round_trips());
    script.judge_with(seen, pair(p1, p2).as_slice())
}

/// The smallest and the largest position.
pub open spec fn snapshot_extreme_positions_round_trip() -> Seq<StageView> {
    seq![
        saves("snap-extreme-min", 0, seq![1u8]),
        asks("snap-extreme-min", 1, WantView::FoundAt(Mark::Sample { index: 0 }, None)),
        saves("snap-extreme-max", 1, seq![1u8]),
        asks("snap-extreme-max", 1, WantView::FoundAt(Mark::Sample { index: 1 }, None)),
    ]
}

/// Snapshots at the smallest and at the largest position are found there.
pub fn check_snapshot_extreme_positions_round_trip<P: AllPosition>(
    seen: &[Reply<P>],
    pmin: P,
    pmax: P,
) -> (r: Verdict<P>)
    requires
        pmin.ordinal() < pmax.ordinal(),
    ensures
        r@ == verdict_of(
            snapshot_extreme_positions_round_trip(),
            reply_views(seen@),
            seq![pmin, pmax],
        ),
{
    let script: Script = Script::new().with(save("snap-extreme-min", 0, one_octet(1))).with(
        ask(
            "snap-extreme-min",
            SchemaVersion::initial(),
            Want::FoundAt { position: Mark::Sample { index: 0 }, state: None },
        ),
    ).with(save("snap-extreme-max", 1, one_octet(1))).with(
        ask(
            "snap-extreme-max",
            SchemaVersion::initial(),
            Want::FoundAt { position: Mark::Sample { index: 1 }, state: None },
        ),
    );
    assert(script@ =~= snapshot_extreme_positions_round_trip());
    script.judge_with(seen, pair(pmin, pmax).as_slice())
}

} // verus!
