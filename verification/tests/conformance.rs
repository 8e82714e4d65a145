//! The conformance checks, run against the in-memory stores and against stores that break the
//! contract in one way each.

use std::collections::VecDeque;

use bytes::Bytes;
use mnesis::conformance::ask::{
    append_event, append_rows, drain_all, drain_stream, Ask, Mark, Pages, Until, WriteRows,
};
use mnesis::conformance::atomic::{
    check_atomic_conflict_aborts_all, check_atomic_empty_batch_is_noop,
    check_atomic_multi_stream_commits_all,
};
use mnesis::conformance::boundary::{
    check_conflict_leaves_store_unchanged, check_large_payload_round_trips,
    check_max_length_event_type_round_trips, check_metadata_absent_vs_present_distinct,
    check_prefix_stream_ids_isolated, check_version_gap_batch_rejected,
    check_wrong_first_version_rejected,
};
use mnesis::conformance::lifecycle::{
    check_reopen_conflict_state_intact, check_reopen_preserves_events,
    check_reopen_preserves_position_watermark, check_reopen_subscription_catches_up,
};
use mnesis::conformance::linearizability::{
    check_caught_up_boundary_race, check_concurrent_distinct_streams_all_land,
    check_concurrent_same_stream_single_winner, check_wake_after_idle,
};
use mnesis::conformance::reply::{AllRow, Landing, Reply, StepSeen};
use mnesis::conformance::row::{
    assert_strictly_increasing, envelope_for, row_of, same_rows, ConformanceRow, SubId,
};
use mnesis::conformance::script::Verdict;
use mnesis::conformance::sequence::{
    check_all_boundary_then_new_append, check_all_empty_store_yields_none,
    check_all_from_is_exclusive, check_all_global_order_across_streams,
    check_all_items_carry_their_stream_key, check_all_multi_resume_cycles,
    check_append_conflict_is_surfaced, check_append_retry_after_conflict_succeeds,
    check_append_returns_assigned_all_position, check_append_then_read_round_trips,
    check_empty_read_yields_none, check_large_stream_completes,
    check_multi_event_append_returns_last_position, check_read_stream_from_is_inclusive,
    check_read_stream_inclusive_read_all_exclusive_coexist,
    check_subscription_absent_stream_waits_then_delivers,
    check_subscription_all_backlog_then_caught_up_then_live,
    check_subscription_backlog_then_caught_up_then_live,
    check_subscription_beyond_head_filters_below_bound,
    check_subscription_large_backlog_crosses_chunk_seam, check_subscription_resume_strict_after,
    check_two_subscribers_same_stream_both_receive, check_versions_strictly_monotonic_and_fused,
};
use mnesis::conformance::snapshot::{
    check_snapshot_absent_then_commit_then_found, check_snapshot_empty_state_round_trips,
    check_snapshot_extreme_positions_round_trip, check_snapshot_overwrite_latest_wins,
    check_snapshot_stale_on_schema_change,
};
use mnesis::envelope::{PendingBatch, PendingEnvelope};
use mnesis::error::AppendError;
use mnesis::id::Id;
use mnesis::import::{AtomicAppend, AtomicAppendError, PlannedAppend};
use mnesis::snapshots::TestSnapshots;
use mnesis::state::{Hydrated, SnapshotStore};
use mnesis::step::Step;
use mnesis::store::RawEventStore;
use mnesis::stream_key::StreamKey;
use mnesis::subscription::{catch_up, catch_up_all, LiveCursor};
use mnesis::test_support::{TestAllPos, TestStore};
use mnesis::value::{EventType, SchemaVersion};
use mnesis::version::Version;

// ── The driver ─────────────────────────────────────────────────────────────

/// One way to break the contract.
#[derive(Clone, Copy, Debug, PartialEq, Eq)]
enum Fault {
    Sound,
    DropsMetadata,
    ShortensPayloads,
    ReadsExclusively,
    ReadsAllInclusively,
    ReversesAll,
    MixesUpKeys,
    AnswersTheFirstPosition,
    AcceptsEverything,
    RefusesEverything,
    RevivesEndedReads,
    AnnouncesLate,
    AnnouncesTwice,
    LosesLiveEvents,
    ReplaysOnResume,
    ForgetsOnReopen,
    LandsHalfOfATransaction,
    ForgetsSchemas,
    KeepsTheOldestSnapshot,
}

struct Sub {
    key: Option<StreamKey>,
    stream: LiveCursor<Version>,
    all: LiveCursor<TestAllPos>,
    queue: VecDeque<StepSeen<TestAllPos>>,
    announced: bool,
}

struct Rig {
    fault: Fault,
    store: TestStore,
    snapshots: TestSnapshots<TestAllPos>,
    subs: Vec<Option<Sub>>,
    background: VecDeque<WriteRows>,
}

fn pending(rows: &[ConformanceRow]) -> Vec<PendingEnvelope> {
    rows.iter().map(envelope_for).collect()
}

impl Rig {
    fn new(fault: Fault) -> Self {
        Rig {
            fault,
            store: TestStore::new(),
            snapshots: TestSnapshots::new(),
            subs: Vec::new(),
            background: VecDeque::new(),
        }
    }

    fn append(&mut self, run: &WriteRows) -> Reply<TestAllPos> {
        if self.fault == Fault::RefusesEverything {
            return Reply::Conflict { actual: None };
        }
        let envs = pending(&run.rows);
        let Some(batch) = PendingBatch::new(&envs) else {
            return Reply::Failed;
        };
        match self.store.append(&run.key, run.expected, batch) {
            Ok(position) => {
                if self.fault == Fault::AnswersTheFirstPosition {
                    let rows = self.store.read_all(None).unwrap();
                    return Reply::Landed(rows[rows.len() - envs.len()].0);
                }
                Reply::Landed(position)
            }
            Err(AppendError::Conflict { actual, .. }) => {
                if self.fault == Fault::AcceptsEverything {
                    if let Some(row) = self.store.read_all(None).unwrap().last() {
                        return Reply::Landed(row.0);
                    }
                }
                Reply::Conflict { actual }
            }
            Err(_) => Reply::Failed,
        }
    }

    fn rows(&self, key: &StreamKey, from: Version) -> Vec<ConformanceRow> {
        let mut rows: Vec<ConformanceRow> = self
            .store
            .read_stream(key, from)
            .unwrap()
            .iter()
            .map(row_of)
            .collect();
        match self.fault {
            Fault::DropsMetadata => {
                for row in &mut rows {
                    row.metadata = None;
                }
            }
            Fault::ShortensPayloads => {
                for row in &mut rows {
                    row.payload.pop();
                }
            }
            Fault::ReadsExclusively => {
                if !rows.is_empty() {
                    rows.remove(0);
                }
            }
            _ => {}
        }
        rows
    }

    fn all(&self, after: Option<TestAllPos>) -> Vec<AllRow<TestAllPos>> {
        let mut rows: Vec<AllRow<TestAllPos>> = self
            .store
            .read_all(None)
            .unwrap()
            .into_iter()
            .filter(|row| match after {
                None => true,
                Some(p) if self.fault == Fault::ReadsAllInclusively => row.0 >= p,
                Some(p) => row.0 > p,
            })
            .map(|(position, key, env)| AllRow {
                position,
                key: key.as_bytes().to_vec(),
                payload: env.payload().to_vec(),
            })
            .collect();
        match self.fault {
            Fault::ReversesAll => rows.reverse(),
            Fault::MixesUpKeys => {
                for row in &mut rows {
                    row.key = b"somewhere-else".to_vec();
                }
            }
            _ => {}
        }
        rows
    }

    fn pump(&mut self, slot: usize) {
        let Some(Some(sub)) = self.subs.get_mut(slot) else {
            return;
        };
        let mut fresh: Vec<StepSeen<TestAllPos>> = Vec::new();
        match &sub.key {
            Some(key) => {
                for step in catch_up(&self.store, key, &mut sub.stream).steps {
                    fresh.push(match step {
                        Step::CaughtUp => StepSeen::CaughtUp,
                        Step::Event(env) => StepSeen::Event {
                            version: env.version().as_u64(),
                            payload: env.payload().to_vec(),
                        },
                    });
                }
            }
            None => {
                for step in catch_up_all(&self.store, &mut sub.all).steps {
                    fresh.push(match step {
                        Step::CaughtUp => StepSeen::CaughtUp,
                        Step::Event((position, key, env)) => StepSeen::AllEvent(AllRow {
                            position,
                            key: key.as_bytes().to_vec(),
                            payload: env.payload().to_vec(),
                        }),
                    });
                }
            }
        }
        let live = sub.announced;
        sub.announced = true;
        match self.fault {
            Fault::AnnouncesLate => fresh.retain(|s| !matches!(s, StepSeen::CaughtUp)),
            Fault::AnnouncesTwice if !fresh.is_empty() => fresh.push(StepSeen::CaughtUp),
            Fault::LosesLiveEvents if live => fresh.clear(),
            _ => {}
        }
        sub.queue.extend(fresh);
    }

    fn steps(&mut self, slot: usize, until: Until) -> Reply<TestAllPos> {
        let mut taken: Vec<StepSeen<TestAllPos>> = Vec::new();
        while !until.reached(&taken) {
            self.pump(slot);
            let Some(Some(sub)) = self.subs.get_mut(slot) else {
                return Reply::Failed;
            };
            if let Some(step) = sub.queue.pop_front() {
                taken.push(step);
            } else if let Some(run) = self.background.pop_front() {
                self.append(&run);
            } else {
                return Reply::Failed; // a real subscription would hang here
            }
        }
        Reply::Steps(taken)
    }

    fn subscribe(&mut self, slot: usize, key: Option<StreamKey>, behind: Option<Version>) {
        let from = if self.fault == Fault::ReplaysOnResume {
            None
        } else {
            behind
        };
        while self.subs.len() <= slot {
            self.subs.push(None);
        }
        self.subs[slot] = Some(Sub {
            key,
            stream: LiveCursor::new(from),
            all: LiveCursor::new(None),
            queue: VecDeque::new(),
            announced: false,
        });
    }

    fn atomic(&mut self, runs: &[WriteRows]) -> Reply<TestAllPos> {
        let writes: Vec<PlannedAppend> = runs
            .iter()
            .map(|run| {
                let mut envs = pending(&run.rows);
                PlannedAppend {
                    target: run.key.clone(),
                    expected_version: run.expected,
                    head: envs.remove(0),
                    tail: envs,
                }
            })
            .collect();
        let reply = match self.store.atomic_append_many(&writes) {
            Ok(_) => Reply::Committed,
            Err(AtomicAppendError::Conflict { index, actual }) => {
                Reply::AtomicConflict { index, actual }
            }
            Err(_) => Reply::Failed,
        };
        if self.fault == Fault::LandsHalfOfATransaction {
            if let (Reply::AtomicConflict { .. }, Some(run)) = (&reply, runs.first()) {
                self.append(run);
            }
        }
        reply
    }

    fn answer(&mut self, ask: Ask, position: Option<TestAllPos>) -> Reply<TestAllPos> {
        match ask {
            Ask::Append(run) => self.append(&run),
            Ask::ReadStream { key, from, polls } => Reply::Rows {
                rows: self.rows(&key, from),
                ended: vec![self.fault != Fault::RevivesEndedReads; polls],
            },
            Ask::ReadAll { after } => {
                assert_eq!(after == Mark::Start, position.is_none());
                Reply::AllRows(self.all(position))
            }
            Ask::ReadPages { limit } => {
                let mut pages: Pages<TestAllPos> = Pages::new();
                for _ in 0..100 {
                    let mut cycle = self.all(pages.behind());
                    cycle.truncate(limit);
                    pages.on_cycle(cycle);
                    if pages.is_done() {
                        return Reply::AllRows(pages.into_rows());
                    }
                }
                Reply::Failed
            }
            Ask::AtomicAppend(runs) => self.atomic(&runs),
            Ask::Subscribe { slot, key, behind } => {
                self.subscribe(slot, Some(key), behind);
                Reply::Done
            }
            Ask::SubscribeAll { slot } => {
                self.subscribe(slot, None, None);
                Reply::Done
            }
            Ask::Steps { slot, until } => self.steps(slot, until),
            Ask::Reopen => {
                if self.fault == Fault::ForgetsOnReopen {
                    self.store = TestStore::new();
                }
                self.subs.clear();
                Reply::Done
            }
            Ask::Race(tasks) => Reply::Raced(
                tasks
                    .iter()
                    .map(|runs| {
                        let mut landing = Landing::Landed;
                        for run in runs {
                            match self.append(run) {
                                Reply::Landed(_) => {}
                                Reply::Conflict { .. } => landing = Landing::Conflict,
                                _ => landing = Landing::Failed,
                            }
                        }
                        landing
                    })
                    .collect(),
            ),
            Ask::Background { runs, .. } => {
                self.background.extend(runs);
                Reply::Done
            }
            Ask::Join => {
                while let Some(run) = self.background.pop_front() {
                    self.append(&run);
                }
                Reply::Done
            }
            Ask::Hydrate { id, schema } => {
                Reply::Snapshot(self.snapshots.hydrate(id.to_label(), schema).unwrap())
            }
            Ask::Commit {
                id, schema, state, ..
            } => {
                let schema = if self.fault == Fault::ForgetsSchemas {
                    SchemaVersion::from_u32(9).unwrap()
                } else {
                    schema
                };
                let known = matches!(
                    self.snapshots.hydrate(id.to_label(), schema).unwrap(),
                    Hydrated::Found { .. }
                );
                if !(known && self.fault == Fault::KeepsTheOldestSnapshot) {
                    self.snapshots
                        .commit(
                            id.to_label(),
                            schema,
                            position.expect("a position to save"),
                            &state,
                        )
                        .unwrap();
                }
                Reply::Done
            }
        }
    }
}

/// Runs a check to its end: `None` for a pass, else the number of the answer that failed it.
fn run<F>(fault: Fault, check: F) -> Option<usize>
where
    F: Fn(&[Reply<TestAllPos>]) -> Verdict<TestAllPos>,
{
    let mut rig = Rig::new(fault);
    let mut seen: Vec<Reply<TestAllPos>> = Vec::new();
    loop {
        match check(&seen) {
            Verdict::Pass => return None,
            Verdict::Fail { at } => {
                assert_eq!(at + 1, seen.len(), "a bad answer fails at once");
                return Some(at);
            }
            Verdict::Ask { ask, position } => {
                let reply = rig.answer(ask, position);
                seen.push(reply);
            }
        }
    }
}

fn samples() -> (TestAllPos, TestAllPos) {
    let mut scratch = TestStore::new();
    let key = StreamKey::from_slice(b"s");
    let mut positions = Vec::new();
    for v in 1..=2 {
        let one = PendingEnvelope::new(
            Version::new(v).unwrap(),
            EventType::new("E").unwrap(),
            SchemaVersion::initial(),
            Bytes::new(),
            None,
        );
        positions.push(
            scratch
                .append(&key, Version::new(v - 1), PendingBatch::of(&one))
                .unwrap(),
        );
    }
    (positions[0], positions[1])
}

type SnapshotCheck =
    fn(&[Reply<TestAllPos>], TestAllPos, TestAllPos) -> Verdict<TestAllPos>;

fn run_snapshot(fault: Fault, check: SnapshotCheck) -> Option<usize> {
    let (p1, p2) = samples();
    run(fault, |seen| check(seen, p1, p2))
}

type Check = fn(&[Reply<TestAllPos>]) -> Verdict<TestAllPos>;

const CHECKS: [Check; 41] = [
    check_empty_read_yields_none,
    check_append_then_read_round_trips,
    check_versions_strictly_monotonic_and_fused,
    check_large_stream_completes,
    check_read_stream_from_is_inclusive,
    check_append_conflict_is_surfaced,
    check_append_retry_after_conflict_succeeds,
    check_all_empty_store_yields_none,
    check_all_global_order_across_streams,
    check_append_returns_assigned_all_position,
    check_multi_event_append_returns_last_position,
    check_all_items_carry_their_stream_key,
    check_all_from_is_exclusive,
    check_all_multi_resume_cycles,
    check_all_boundary_then_new_append,
    check_read_stream_inclusive_read_all_exclusive_coexist,
    check_subscription_backlog_then_caught_up_then_live,
    check_subscription_resume_strict_after,
    check_subscription_all_backlog_then_caught_up_then_live,
    check_subscription_absent_stream_waits_then_delivers,
    check_two_subscribers_same_stream_both_receive,
    check_subscription_large_backlog_crosses_chunk_seam,
    check_subscription_beyond_head_filters_below_bound,
    check_conflict_leaves_store_unchanged,
    check_version_gap_batch_rejected,
    check_wrong_first_version_rejected,
    check_metadata_absent_vs_present_distinct,
    check_max_length_event_type_round_trips,
    check_large_payload_round_trips,
    check_prefix_stream_ids_isolated,
    check_atomic_multi_stream_commits_all,
    check_atomic_conflict_aborts_all,
    check_atomic_empty_batch_is_noop,
    check_reopen_preserves_events,
    check_reopen_preserves_position_watermark,
    check_reopen_conflict_state_intact,
    check_reopen_subscription_catches_up,
    check_concurrent_same_stream_single_winner,
    check_concurrent_distinct_streams_all_land,
    check_wake_after_idle,
    check_caught_up_boundary_race,
];

const SNAPSHOT_CHECKS: [SnapshotCheck; 5] = [
    check_snapshot_absent_then_commit_then_found,
    check_snapshot_stale_on_schema_change,
    check_snapshot_overwrite_latest_wins,
    check_snapshot_empty_state_round_trips,
    check_snapshot_extreme_positions_round_trip,
];

// ── The in-memory stores keep the contract ─────────────────────────────────

#[test]
fn the_in_memory_store_passes_every_check() {
    for (i, check) in CHECKS.iter().enumerate() {
        assert_eq!(run(Fault::Sound, check), None, "check {i}");
    }
}

#[test]
fn the_in_memory_snapshots_pass_every_check() {
    for (i, check) in SNAPSHOT_CHECKS.iter().enumerate() {
        assert_eq!(run_snapshot(Fault::Sound, *check), None, "check {i}");
    }
}

// ── A broken store is caught ───────────────────────────────────────────────

fn caught(fault: Fault, check: Check) {
    assert!(run(fault, check).is_some(), "{fault:?} got through");
}

#[test]
fn changed_events_are_caught() {
    caught(Fault::DropsMetadata, check_append_then_read_round_trips);
    caught(
        Fault::DropsMetadata,
        check_metadata_absent_vs_present_distinct,
    );
    caught(Fault::ShortensPayloads, check_append_then_read_round_trips);
    caught(Fault::ShortensPayloads, check_large_payload_round_trips);
}

#[test]
fn wrong_read_bounds_are_caught() {
    caught(Fault::ReadsExclusively, check_read_stream_from_is_inclusive);
    caught(Fault::ReadsExclusively, check_append_then_read_round_trips);
    caught(
        Fault::ReadsExclusively,
        check_read_stream_inclusive_read_all_exclusive_coexist,
    );
    caught(Fault::ReadsExclusively, check_large_stream_completes);
    caught(
        Fault::ReadsExclusively,
        check_max_length_event_type_round_trips,
    );
    caught(Fault::ReadsExclusively, check_prefix_stream_ids_isolated);
    caught(Fault::ReadsAllInclusively, check_all_from_is_exclusive);
    caught(Fault::ReadsAllInclusively, check_all_multi_resume_cycles);
    caught(
        Fault::ReadsAllInclusively,
        check_all_boundary_then_new_append,
    );
    caught(
        Fault::ReadsAllInclusively,
        check_read_stream_inclusive_read_all_exclusive_coexist,
    );
}

#[test]
fn a_wrong_global_order_is_caught() {
    caught(Fault::ReversesAll, check_all_global_order_across_streams);
    caught(Fault::ReversesAll, check_all_multi_resume_cycles);
    caught(
        Fault::ReversesAll,
        check_multi_event_append_returns_last_position,
    );
    caught(Fault::MixesUpKeys, check_all_items_carry_their_stream_key);
}

#[test]
fn a_wrong_position_is_caught() {
    caught(
        Fault::AnswersTheFirstPosition,
        check_multi_event_append_returns_last_position,
    );
}

#[test]
fn accepted_conflicts_are_caught() {
    caught(Fault::AcceptsEverything, check_append_conflict_is_surfaced);
    caught(
        Fault::AcceptsEverything,
        check_append_retry_after_conflict_succeeds,
    );
    caught(
        Fault::AcceptsEverything,
        check_conflict_leaves_store_unchanged,
    );
    caught(
        Fault::AcceptsEverything,
        check_concurrent_same_stream_single_winner,
    );
    caught(
        Fault::AcceptsEverything,
        check_reopen_conflict_state_intact,
    );
}

#[test]
fn a_store_that_refuses_everything_is_caught() {
    caught(
        Fault::RefusesEverything,
        check_append_then_read_round_trips,
    );
    caught(
        Fault::RefusesEverything,
        check_append_returns_assigned_all_position,
    );
    caught(
        Fault::RefusesEverything,
        check_concurrent_distinct_streams_all_land,
    );
}

#[test]
fn a_read_that_comes_back_to_life_is_caught() {
    caught(
        Fault::RevivesEndedReads,
        check_versions_strictly_monotonic_and_fused,
    );
}

#[test]
fn a_wrong_boundary_is_caught() {
    for fault in [Fault::AnnouncesLate, Fault::AnnouncesTwice] {
        caught(fault, check_subscription_backlog_then_caught_up_then_live);
        caught(
            fault,
            check_subscription_all_backlog_then_caught_up_then_live,
        );
    }
    caught(
        Fault::AnnouncesLate,
        check_subscription_large_backlog_crosses_chunk_seam,
    );
    caught(Fault::AnnouncesLate, check_caught_up_boundary_race);
    caught(Fault::AnnouncesLate, check_wake_after_idle);
}

#[test]
fn lost_or_repeated_events_are_caught() {
    caught(
        Fault::LosesLiveEvents,
        check_subscription_backlog_then_caught_up_then_live,
    );
    caught(
        Fault::LosesLiveEvents,
        check_subscription_absent_stream_waits_then_delivers,
    );
    caught(
        Fault::LosesLiveEvents,
        check_two_subscribers_same_stream_both_receive,
    );
    caught(Fault::LosesLiveEvents, check_wake_after_idle);
    caught(
        Fault::ReplaysOnResume,
        check_subscription_resume_strict_after,
    );
    caught(
        Fault::ReplaysOnResume,
        check_subscription_beyond_head_filters_below_bound,
    );
}

#[test]
fn a_forgetful_store_is_caught() {
    caught(Fault::ForgetsOnReopen, check_reopen_preserves_events);
    caught(
        Fault::ForgetsOnReopen,
        check_reopen_preserves_position_watermark,
    );
    caught(Fault::ForgetsOnReopen, check_reopen_conflict_state_intact);
    caught(Fault::ForgetsOnReopen, check_reopen_subscription_catches_up);
}

#[test]
fn half_a_transaction_is_caught() {
    caught(
        Fault::LandsHalfOfATransaction,
        check_atomic_conflict_aborts_all,
    );
}

#[test]
fn broken_snapshots_are_caught() {
    assert!(run_snapshot(
        Fault::ForgetsSchemas,
        check_snapshot_absent_then_commit_then_found
    )
    .is_some());
    assert!(run_snapshot(Fault::ForgetsSchemas, check_snapshot_stale_on_schema_change).is_some());
    assert!(run_snapshot(
        Fault::KeepsTheOldestSnapshot,
        check_snapshot_overwrite_latest_wins
    )
    .is_some());
}

#[test]
fn a_store_that_fails_fails_every_check() {
    for (i, check) in CHECKS.iter().enumerate() {
        match check(&[Reply::Failed]) {
            Verdict::Fail { at } => assert_eq!(at, 0, "check {i}"),
            other => panic!("check {i} went on to {other:?}"),
        }
    }
}

#[test]
fn a_verdict_stands_whatever_comes_behind() {
    let failed: [Reply<TestAllPos>; 2] = [Reply::Failed, Reply::Done];
    assert!(matches!(
        check_empty_read_yields_none(&failed),
        Verdict::Fail { at: 0 }
    ));
    let passed: [Reply<TestAllPos>; 2] = [
        Reply::Rows {
            rows: vec![],
            ended: vec![],
        },
        Reply::Failed,
    ];
    assert!(matches!(
        check_empty_read_yields_none(&passed),
        Verdict::Pass
    ));
}

// ── Pieces ─────────────────────────────────────────────────────────────────

#[test]
fn rows_are_compared_field_by_field() {
    let row = || ConformanceRow::new(1, "E", vec![1, 2]);
    assert!(row().same(&row()));
    assert!(!row().same(&ConformanceRow::new(2, "E", vec![1, 2])));
    assert!(!row().same(&ConformanceRow::new(1, "F", vec![1, 2])));
    assert!(!row().same(&ConformanceRow::new(1, "E", vec![1])));
    assert!(!row().same(&row().with_schema_version(2)));
    assert!(!row().same(&row().with_metadata(vec![7])));
    assert!(row()
        .with_metadata(vec![7])
        .same(&row().with_metadata(vec![7])));
    assert!(same_rows(&[row()], &[row()]));
    assert!(!same_rows(&[row()], &[row(), row()]));
}

#[test]
fn a_row_survives_its_envelope() {
    let row = ConformanceRow::new(3, "Opened", vec![9])
        .with_schema_version(4)
        .with_metadata(vec![5]);
    let env = mnesis::envelope::persist(&envelope_for(&row));
    assert!(row_of(&env).same(&row));
}

#[test]
fn order_is_strict() {
    let (p1, p2) = samples();
    assert!(assert_strictly_increasing::<TestAllPos>(&[]));
    assert!(assert_strictly_increasing(&[(p1, vec![]), (p2, vec![])]));
    assert!(!assert_strictly_increasing(&[(p1, vec![]), (p1, vec![])]));
    assert!(!assert_strictly_increasing(&[(p2, vec![]), (p1, vec![])]));
}

#[test]
fn a_subscription_id_is_text_and_key() {
    let id = SubId::new("sub-1");
    assert_eq!(id.as_str(), "sub-1");
    assert_eq!(id.to_label(), "sub-1");
    assert_eq!(id.key().as_bytes(), b"sub-1");
}

#[test]
fn rows_are_appended_with_the_expectation_that_goes_with_them() {
    let key = || StreamKey::from_slice(b"s");
    match append_rows(key(), vec![ConformanceRow::new(1, "E", vec![1])]) {
        Some(Ask::Append(run)) => {
            assert_eq!(run.key, key());
            assert_eq!(run.expected, None, "a fresh stream");
            assert_eq!(run.rows.len(), 1);
        }
        other => panic!("expected an append, got {other:?}"),
    }
    match append_event(key(), 4, vec![7]) {
        Ask::Append(run) => {
            assert_eq!(run.expected, Version::new(3));
            assert_eq!(run.rows[0].version, 4);
            assert_eq!(run.rows[0].payload, vec![7]);
        }
        other => panic!("expected an append, got {other:?}"),
    }
    assert!(append_rows(key(), vec![]).is_none());
    assert!(matches!(
        drain_stream(key(), Version::initial()),
        Ask::ReadStream { polls: 0, .. }
    ));
    assert!(matches!(
        drain_all(Mark::Start),
        Ask::ReadAll { after: Mark::Start }
    ));
}

#[test]
fn enough_steps_are_enough() {
    let event = || StepSeen::<TestAllPos>::Event {
        version: 1,
        payload: vec![],
    };
    assert!(!Until::One.reached::<TestAllPos>(&[]));
    assert!(Until::One.reached(&[event()]));
    assert!(!Until::CaughtUp.reached(&[event()]));
    assert!(Until::CaughtUp.reached(&[event(), StepSeen::CaughtUp]));
    assert!(!Until::EventsAndCaughtUp(2).reached(&[event(), StepSeen::CaughtUp]));
    assert!(Until::EventsAndCaughtUp(2).reached(&[event(), StepSeen::CaughtUp, event()]));
}

#[test]
fn a_read_in_cycles_collects_every_row_and_ends_behind_an_empty_cycle() {
    let mut store = TestStore::new();
    for v in 1..=4u64 {
        let row = ConformanceRow::new(v, "E", vec![v as u8]);
        let env = envelope_for(&row);
        let expected = Version::new(v - 1);
        store
            .append(&StreamKey::from_slice(b"s"), expected, PendingBatch::of(&env))
            .expect("lands");
    }
    let mut pages: Pages<TestAllPos> = Pages::new();
    let mut cycles = Vec::new();
    while !pages.is_done() {
        let cycle: Vec<AllRow<TestAllPos>> = store
            .read_all(pages.behind())
            .expect("reads")
            .into_iter()
            .take(3)
            .map(|(position, key, env)| AllRow {
                position,
                key: key.as_bytes().to_vec(),
                payload: env.payload().to_vec(),
            })
            .collect();
        cycles.push(cycle.len());
        pages.on_cycle(cycle);
    }
    assert_eq!(cycles, vec![3, 1, 0]);
    let payloads: Vec<u8> = pages.into_rows().iter().map(|row| row.payload[0]).collect();
    assert_eq!(payloads, vec![1, 2, 3, 4]);
}
