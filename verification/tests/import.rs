//! Import: the plan of a section, and both ways to carry the plans out.

use bytes::Bytes;
use mnesis::envelope::{PendingBatch, PendingEnvelope, PersistedEnvelope};
use mnesis::error::AppendError;
use mnesis::import::{
    map_atomic_conflict, plan_section, AbortReason, AtomicAppend, AtomicAppendError, Atomicity,
    ChunkImport, EventImporter, Halt, ImportBlock, ImportError, PerStreamImport, PlanError,
    PlannedAppend, SectionPlan, SectionRun, StreamOutcome, StreamSection,
};
use mnesis::store::RawEventStore;
use mnesis::stream_key::StreamKey;
use mnesis::test_support::{TestAllPos, TestStore, TestStoreError};
use mnesis::value::{EventType, SchemaVersion};
use mnesis::version::Version;

fn v(n: u64) -> Version {
    Version::new(n).expect("test version must be nonzero")
}

fn persisted(version: u64, payload: &[u8]) -> PersistedEnvelope {
    PersistedEnvelope::new(
        v(version),
        EventType::new("E").expect("valid type"),
        SchemaVersion::initial(),
        Bytes::copy_from_slice(payload),
        None,
    )
}

fn pending(version: u64) -> PendingEnvelope {
    PendingEnvelope::from_persisted(&persisted(version, b"p"))
}

fn evt(version: u64) -> ImportBlock {
    ImportBlock::Event(persisted(version, b"p"))
}

fn section(origin: &str, blocks: Vec<ImportBlock>) -> StreamSection {
    StreamSection {
        origin: Bytes::copy_from_slice(origin.as_bytes()),
        blocks,
    }
}

fn run_of(s: &StreamSection) -> SectionRun {
    match plan_section(s).expect("plans") {
        SectionPlan::Run(run) => run,
        other => panic!("expected Run, got {other:?}"),
    }
}

fn sk(id: &str) -> StreamKey {
    StreamKey::from_slice(id.as_bytes())
}

fn same(origin: &[u8]) -> StreamKey {
    StreamKey::from_slice(origin)
}

fn versions(store: &TestStore, id: &str) -> Vec<u64> {
    store
        .read_stream(&sk(id), Version::initial())
        .expect("read")
        .iter()
        .map(|e| e.version().as_u64())
        .collect()
}

fn seeded(id: &str, upto: u64) -> TestStore {
    let mut store = TestStore::new();
    let envs: Vec<PendingEnvelope> = (1..=upto).map(pending).collect();
    if let Some(batch) = PendingBatch::new(&envs) {
        store.append(&sk(id), None, batch).expect("seed");
    }
    store
}

// ── The plan of one section ────────────────────────────────────────────────

#[test]
fn plan_empty_section_is_empty() {
    assert!(matches!(
        plan_section(&section("s", vec![])),
        Ok(SectionPlan::Empty)
    ));
}

#[test]
fn plan_first_block_corrupt_is_first_corrupt() {
    let s = section("s", vec![ImportBlock::Corrupt, evt(1)]);
    assert!(matches!(plan_section(&s), Ok(SectionPlan::FirstCorrupt)));
}

#[test]
fn plan_contiguous_run_from_one_is_complete() {
    let run = run_of(&section("s", vec![evt(1), evt(2), evt(3)]));
    assert_eq!(run.first, v(1));
    assert_eq!(run.expected_version, None); // first == 1: a fresh stream
    assert_eq!(run.last, v(3));
    assert_eq!(run.tail.len(), 2, "head + 2 tail == the 3-event run");
    assert!(matches!(run.halt, Halt::Complete));
}

#[test]
fn plan_run_from_midstream_sets_expected_to_first_minus_one() {
    let run = run_of(&section("s", vec![evt(3), evt(4)]));
    assert_eq!(run.first, v(3));
    assert_eq!(run.expected_version, Some(v(2)));
    assert_eq!(run.last, v(4));
    assert!(matches!(run.halt, Halt::Complete));
}

#[test]
fn plan_internal_gap_halts_with_got() {
    // v3,v4,v6: run [3,4], halt at the gap (got = 6).
    let run = run_of(&section("s", vec![evt(3), evt(4), evt(6)]));
    assert_eq!(run.last, v(4));
    assert_eq!(run.tail.len(), 1, "head + 1 tail == the 2-event run");
    assert!(matches!(run.halt, Halt::Gap { got } if got == v(6)));
}

#[test]
fn plan_internal_corrupt_halts_corrupt() {
    let run = run_of(&section(
        "s",
        vec![evt(1), evt(2), ImportBlock::Corrupt, evt(3)],
    ));
    assert_eq!(run.last, v(2));
    assert_eq!(run.tail.len(), 1, "head + 1 tail == the 2-event run");
    assert!(matches!(run.halt, Halt::Corrupt));
}

#[test]
fn plan_overflow_building_run_errors() {
    // last == u64::MAX with a following block has no next version.
    let s = section("s", vec![evt(u64::MAX), evt(1)]);
    assert!(matches!(plan_section(&s), Err(PlanError::VersionOverflow)));
}

#[test]
fn plan_run_ending_at_u64_max_with_no_successor_completes() {
    let run = run_of(&section("s", vec![evt(u64::MAX)]));
    assert_eq!(run.first, v(u64::MAX));
    assert_eq!(run.expected_version, Some(v(u64::MAX - 1)));
    assert!(run.tail.is_empty(), "a one-event run is head-only");
    assert_eq!(run.last, v(u64::MAX));
    assert!(matches!(run.halt, Halt::Complete));
}

#[test]
fn a_corrupt_block_behind_the_last_version_halts_the_run() {
    let s = section("s", vec![evt(u64::MAX), ImportBlock::Corrupt]);
    match plan_section(&s) {
        Ok(SectionPlan::Run(run)) => assert_eq!(run.halt, Halt::Corrupt),
        other => panic!("a corrupt block has no version to compare, got {other:?}"),
    }
}

// ── Stream by stream ───────────────────────────────────────────────────────

#[test]
fn per_stream_reports_each_section_in_order() {
    let mut store = seeded("behind", 1);
    let sections = [
        section("whole", vec![evt(1), evt(2)]),
        section("empty", vec![]),
        section("torn", vec![evt(1), ImportBlock::Corrupt, evt(2)]),
        section("gapped", vec![evt(1), evt(3)]),
        section("bad", vec![ImportBlock::Corrupt]),
        section("behind", vec![evt(3), evt(4)]),
    ];
    let report = store
        .import(&sections, same, Atomicity::PerStream)
        .expect("imports");
    let got: Vec<(&[u8], StreamOutcome)> = report
        .streams()
        .iter()
        .map(|r| (r.stream.as_bytes(), r.outcome))
        .collect();
    assert_eq!(
        got,
        vec![
            (
                b"whole".as_slice(),
                StreamOutcome::Complete { version: v(2) }
            ),
            (
                b"torn".as_slice(),
                StreamOutcome::Corrupt {
                    reached: Some(v(1))
                }
            ),
            (
                b"gapped".as_slice(),
                StreamOutcome::Mismatch {
                    reached: Some(v(1)),
                    got: v(3)
                }
            ),
            (b"bad".as_slice(), StreamOutcome::Corrupt { reached: None }),
            (
                b"behind".as_slice(),
                StreamOutcome::Mismatch {
                    reached: None,
                    got: v(3)
                }
            ),
        ]
    );
    assert!(!report.all_complete());
    assert_eq!(report.unfinished().len(), 4);
    assert_eq!(versions(&store, "whole"), vec![1, 2]);
    assert_eq!(versions(&store, "torn"), vec![1]);
    assert_eq!(versions(&store, "gapped"), vec![1]);
    assert_eq!(versions(&store, "bad"), Vec::<u64>::new());
    assert_eq!(versions(&store, "behind"), vec![1]);
}

#[test]
fn per_stream_report_tells_where_each_stream_sits() {
    let mut store = TestStore::new();
    let sections = [
        section("a", vec![evt(1), evt(2)]),
        section("b", vec![ImportBlock::Corrupt]),
    ];
    let report = store
        .import(&sections, same, Atomicity::PerStream)
        .expect("imports");
    let reached: Vec<Option<Version>> =
        report.streams().iter().map(|r| r.outcome.reached()).collect();
    assert_eq!(reached, vec![Some(v(2)), None]);
    assert!(report.streams()[0].outcome.is_complete());
    assert!(!report.streams()[1].outcome.is_complete());
}

#[test]
fn importing_twice_is_refused_and_changes_nothing() {
    let mut store = TestStore::new();
    let sections = [section("a", vec![evt(1), evt(2)])];
    let first = store
        .import(&sections, same, Atomicity::PerStream)
        .expect("imports");
    assert!(first.all_complete());
    assert!(first.unfinished().is_empty());
    let again = store
        .import(&sections, same, Atomicity::PerStream)
        .expect("a refusal is an outcome");
    assert_eq!(
        again.streams()[0].outcome,
        StreamOutcome::Mismatch {
            reached: None,
            got: v(1)
        }
    );
    assert_eq!(versions(&store, "a"), vec![1, 2]);
}

#[test]
fn the_route_picks_the_target() {
    let mut store = TestStore::new();
    let sections = [section("a", vec![evt(1)]), section("b", vec![evt(1)])];
    let report = store
        .import(
            &sections,
            |origin: &[u8]| {
                let mut target = b"copy-".to_vec();
                target.extend_from_slice(origin);
                StreamKey::from_slice(&target)
            },
            Atomicity::PerStream,
        )
        .expect("imports");
    assert!(report.all_complete());
    assert_eq!(versions(&store, "copy-a"), vec![1]);
    assert_eq!(versions(&store, "copy-b"), vec![1]);
    assert_eq!(versions(&store, "a"), Vec::<u64>::new());
}

#[test]
fn per_stream_overflow_ends_the_import() {
    let mut store = TestStore::new();
    let sections = [
        section("a", vec![evt(1)]),
        section("b", vec![evt(u64::MAX), evt(1)]),
    ];
    let err = store
        .import(&sections, same, Atomicity::PerStream)
        .expect_err("the second section cannot be planned");
    assert!(matches!(err, ImportError::VersionOverflow));
    assert_eq!(versions(&store, "a"), vec![1], "what landed before stays");
}

#[test]
fn a_failing_store_ends_a_per_stream_import() {
    let mut progress = PerStreamImport::new();
    let waiting = progress
        .begin(sk("a"), &section("a", vec![evt(3)]))
        .expect("plans")
        .expect("a run to append");
    assert_eq!(waiting.target(), &sk("a"));
    assert_eq!(waiting.expected_version(), Some(v(2)));
    assert_eq!(waiting.batch().to_vec().len(), 1);
    let reply: Result<TestAllPos, AppendError<TestStoreError>> =
        Err(AppendError::Store(TestStoreError::PositionOverflow));
    match progress.settle(waiting, reply) {
        Err(ImportError::Store(e)) => assert_eq!(e, TestStoreError::PositionOverflow),
        other => panic!("expected Store, got {other:?}"),
    }
}

// ── The whole chunk ────────────────────────────────────────────────────────

#[test]
fn whole_chunk_lands_every_stream() {
    let mut store = seeded("b", 2);
    let sections = [
        section("a", vec![evt(1), evt(2)]),
        section("none", vec![]),
        section("b", vec![evt(3)]),
    ];
    let report = store
        .import(&sections, same, Atomicity::WholeChunk)
        .expect("imports");
    let got: Vec<(&[u8], StreamOutcome)> = report
        .streams()
        .iter()
        .map(|r| (r.stream.as_bytes(), r.outcome))
        .collect();
    assert_eq!(
        got,
        vec![
            (b"a".as_slice(), StreamOutcome::Complete { version: v(2) }),
            (b"b".as_slice(), StreamOutcome::Complete { version: v(3) }),
        ]
    );
    assert_eq!(versions(&store, "a"), vec![1, 2]);
    assert_eq!(versions(&store, "b"), vec![1, 2, 3]);
}

#[test]
fn whole_chunk_rolls_back_on_a_corrupt_block() {
    let mut store = TestStore::new();
    let sections = [
        section("a", vec![evt(1)]),
        section("b", vec![evt(1), ImportBlock::Corrupt]),
    ];
    match store.import(&sections, same, Atomicity::WholeChunk) {
        Err(ImportError::Aborted { stream, reason }) => {
            assert_eq!(stream, sk("b"));
            assert_eq!(reason, AbortReason::Corrupt);
        }
        other => panic!("expected Aborted, got {other:?}"),
    }
    assert_eq!(versions(&store, "a"), Vec::<u64>::new());
}

#[test]
fn whole_chunk_names_the_gap() {
    let mut store = TestStore::new();
    let sections = [section("a", vec![evt(1), evt(2), evt(5)])];
    match store.import(&sections, same, Atomicity::WholeChunk) {
        Err(ImportError::Aborted { stream, reason }) => {
            assert_eq!(stream, sk("a"));
            assert_eq!(
                reason,
                AbortReason::Mismatch {
                    expected: v(3),
                    got: v(5)
                }
            );
        }
        other => panic!("expected Aborted, got {other:?}"),
    }
}

#[test]
fn whole_chunk_rolls_back_on_a_target_elsewhere() {
    let mut store = seeded("b", 4);
    let sections = [section("a", vec![evt(1)]), section("b", vec![evt(3)])];
    match store.import(&sections, same, Atomicity::WholeChunk) {
        Err(ImportError::Aborted { stream, reason }) => {
            assert_eq!(stream, sk("b"));
            assert_eq!(
                reason,
                AbortReason::Mismatch {
                    expected: v(5),
                    got: v(3)
                }
            );
        }
        other => panic!("expected Aborted, got {other:?}"),
    }
    assert_eq!(versions(&store, "a"), Vec::<u64>::new(), "nothing landed");
    assert_eq!(versions(&store, "b"), vec![1, 2, 3, 4]);
}

#[test]
fn whole_chunk_overflow_is_no_abort() {
    let mut progress = ChunkImport::new();
    assert!(!progress.add_section(sk("a"), &section("a", vec![evt(u64::MAX), evt(1)])));
    assert!(!progress.is_clean());
    // The run continues its target, so the overflow behind it is what is wrong.
    let err: ImportError<TestStoreError> = progress.refusal(&[Version::new(u64::MAX - 1)]);
    assert!(matches!(err, ImportError::VersionOverflow));
}

#[test]
fn a_run_elsewhere_comes_before_the_overflow_behind_it() {
    let mut store = TestStore::new();
    let sections = [section("a", vec![evt(u64::MAX), evt(1)])];
    match store.import(&sections, same, Atomicity::WholeChunk) {
        Err(ImportError::Aborted { stream, reason }) => {
            assert_eq!(stream.as_bytes(), b"a");
            assert_eq!(reason, AbortReason::Mismatch { expected: v(1), got: v(u64::MAX) });
        }
        other => panic!("expected Aborted, got {other:?}"),
    }
}

#[test]
fn the_first_offender_of_a_chunk_wins() {
    // The first section is behind its target, the second one is corrupt.
    let mut store = seeded("a", 1);
    let sections = [
        section("a", vec![evt(1)]),
        section("b", vec![ImportBlock::Corrupt]),
    ];
    match store.import(&sections, same, Atomicity::WholeChunk) {
        Err(ImportError::Aborted { stream, reason }) => {
            assert_eq!(stream.as_bytes(), b"a");
            assert_eq!(reason, AbortReason::Mismatch { expected: v(2), got: v(1) });
        }
        other => panic!("expected Aborted, got {other:?}"),
    }
    assert_eq!(versions(&store, "a"), vec![1]);
    assert_eq!(versions(&store, "b"), Vec::<u64>::new());

    // The other way round, the corrupt section comes first.
    let sections = [
        section("b", vec![ImportBlock::Corrupt]),
        section("a", vec![evt(1)]),
    ];
    match store.import(&sections, same, Atomicity::WholeChunk) {
        Err(ImportError::Aborted { stream, reason }) => {
            assert_eq!(stream.as_bytes(), b"b");
            assert_eq!(reason, AbortReason::Corrupt);
        }
        other => panic!("expected Aborted, got {other:?}"),
    }
    assert_eq!(versions(&store, "a"), vec![1]);
}

#[test]
fn within_a_section_the_run_comes_before_what_ended_it() {
    let mut store = seeded("a", 1);
    let sections = [section("a", vec![evt(1), ImportBlock::Corrupt])];
    match store.import(&sections, same, Atomicity::WholeChunk) {
        Err(ImportError::Aborted { stream, reason }) => {
            assert_eq!(stream.as_bytes(), b"a");
            assert_eq!(reason, AbortReason::Mismatch { expected: v(2), got: v(1) });
        }
        other => panic!("expected Aborted, got {other:?}"),
    }
    // One that continues its target aborts for the block that ended it.
    let sections = [section("a", vec![evt(2), evt(4)])];
    match store.import(&sections, same, Atomicity::WholeChunk) {
        Err(ImportError::Aborted { reason, .. }) => {
            assert_eq!(reason, AbortReason::Mismatch { expected: v(3), got: v(4) });
        }
        other => panic!("expected Aborted, got {other:?}"),
    }
    assert_eq!(versions(&store, "a"), vec![1]);
}

#[test]
fn runs_before_a_section_count_for_its_target() {
    // Both sections go to one stream: the second continues the first, the third does not.
    let one = |_: &[u8]| sk("one");
    let mut store = TestStore::new();
    let sections = [
        section("a", vec![evt(1), evt(2)]),
        section("b", vec![evt(3)]),
        section("c", vec![evt(3), ImportBlock::Corrupt]),
    ];
    match store.import(&sections, one, Atomicity::WholeChunk) {
        Err(ImportError::Aborted { stream, reason }) => {
            assert_eq!(stream.as_bytes(), b"one");
            assert_eq!(reason, AbortReason::Mismatch { expected: v(4), got: v(3) });
        }
        other => panic!("expected Aborted, got {other:?}"),
    }
    assert_eq!(versions(&store, "one"), Vec::<u64>::new());
}

#[test]
fn a_chunk_finds_its_first_conflict() {
    let mut progress = ChunkImport::new();
    assert!(progress.add_section(sk("a"), &section("a", vec![evt(1)])));
    assert!(progress.add_section(sk("b"), &section("b", vec![evt(5)])));
    assert!(progress.add_section(sk("a"), &section("c", vec![evt(2)])));
    assert!(progress.is_clean());
    assert_eq!(progress.first_conflict(&[None, Some(v(4)), None]), None);
    assert_eq!(
        progress.first_conflict(&[None, None, None]),
        Some((1, None))
    );
    assert_eq!(
        progress.first_conflict(&[Some(v(1)), None, Some(v(1))]),
        Some((0, Some(v(1))))
    );
}

#[test]
fn a_list_imported_twice_is_refused_section_by_section() {
    let mut store = seeded("late", 3);
    let sections = [
        section("a", vec![evt(1), evt(2)]),
        section("late", vec![evt(2)]),
        section("b", vec![evt(1), ImportBlock::Corrupt]),
    ];
    store
        .import(&sections, same, Atomicity::PerStream)
        .expect("first");
    let again = store
        .import(&sections, same, Atomicity::PerStream)
        .expect("second");
    let got: Vec<(Vec<u8>, StreamOutcome)> = again
        .streams()
        .iter()
        .map(|r| (r.stream.as_bytes().to_vec(), r.outcome))
        .collect();
    let refused = |got: u64| StreamOutcome::Mismatch { reached: None, got: v(got) };
    assert_eq!(
        got,
        vec![
            (b"a".to_vec(), refused(1)),
            (b"late".to_vec(), refused(2)),
            (b"b".to_vec(), refused(1)),
        ]
    );
    assert_eq!(versions(&store, "a"), vec![1, 2]);
    assert_eq!(versions(&store, "late"), vec![1, 2, 3]);
    assert_eq!(versions(&store, "b"), vec![1]);
}

#[test]
fn a_failing_store_ends_a_whole_chunk_import() {
    let mut progress = ChunkImport::new();
    assert!(progress.add_section(sk("a"), &section("a", vec![evt(1)])));
    assert_eq!(progress.writes().len(), 1);
    let reply: Result<Option<TestAllPos>, AtomicAppendError<TestStoreError>> =
        Err(AtomicAppendError::Store(TestStoreError::PositionOverflow));
    match progress.settle(reply) {
        Err(ImportError::Store(e)) => assert_eq!(e, TestStoreError::PositionOverflow),
        other => panic!("expected Store, got {other:?}"),
    }
}

#[test]
fn a_conflict_behind_the_last_version_is_an_overflow() {
    let writes = [PlannedAppend {
        target: sk("a"),
        expected_version: None,
        head: pending(1),
        tail: vec![],
    }];
    let err: ImportError<TestStoreError> =
        map_atomic_conflict(&[v(1)], &writes, 0, Version::new(u64::MAX));
    assert!(matches!(err, ImportError::VersionOverflow));
}

// ── Several streams in one transaction ─────────────────────────────────────

#[test]
fn a_transaction_is_all_or_nothing() {
    let mut store = TestStore::new();
    let good = PlannedAppend {
        target: sk("a"),
        expected_version: None,
        head: pending(1),
        tail: vec![pending(2)],
    };
    let bad = PlannedAppend {
        target: sk("b"),
        expected_version: Some(v(1)),
        head: pending(2),
        tail: vec![],
    };
    match store.atomic_append_many(&[good, bad]) {
        Err(AtomicAppendError::Conflict { index, actual }) => {
            assert_eq!(index, 1);
            assert_eq!(actual, None);
        }
        other => panic!("expected Conflict, got {other:?}"),
    }
    assert_eq!(versions(&store, "a"), Vec::<u64>::new());
}

#[test]
fn one_stream_may_be_written_twice_in_a_transaction() {
    let mut store = TestStore::new();
    let first = PlannedAppend {
        target: sk("a"),
        expected_version: None,
        head: pending(1),
        tail: vec![],
    };
    let second = PlannedAppend {
        target: sk("a"),
        expected_version: Some(v(1)),
        head: pending(2),
        tail: vec![],
    };
    let position = store
        .atomic_append_many(&[first, second])
        .expect("the second write sees the first")
        .expect("something landed");
    assert_eq!(position.as_u64(), 2);
    assert_eq!(versions(&store, "a"), vec![1, 2]);
}

#[test]
fn an_empty_transaction_has_no_position() {
    let mut store = TestStore::new();
    let position = store.atomic_append_many(&[]).expect("nothing to refuse");
    assert_eq!(position, None);
}

#[test]
fn the_same_expectation_fits_once_in_a_transaction() {
    let mut store = seeded("a", 2);
    let write = || PlannedAppend {
        target: sk("a"),
        expected_version: Some(v(2)),
        head: pending(3),
        tail: vec![],
    };
    match store.atomic_append_many(&[write(), write()]) {
        Err(AtomicAppendError::Conflict { index, actual }) => {
            assert_eq!(index, 1, "the first write takes the place");
            assert_eq!(actual, Some(v(3)), "the head counts the write before");
        }
        other => panic!("expected Conflict, got {other:?}"),
    }
    assert_eq!(versions(&store, "a"), vec![1, 2]);
    assert_eq!(write().batch().to_vec().len(), 1);
}

#[test]
fn an_import_only_adds_behind_what_is_there() {
    let mut store = seeded("a", 2);
    let before = store.read_all(None).expect("read_all");
    let sections = [section("b", vec![evt(1)]), section("a", vec![evt(3), evt(4)])];
    let report = store
        .import(&sections, same, Atomicity::PerStream)
        .expect("imports");
    assert!(report.all_complete());
    let after = store.read_all(None).expect("read_all");
    assert_eq!(after.len(), 5);
    for (i, row) in before.iter().enumerate() {
        assert_eq!(&after[i], row);
    }
}

/// A store whose reads fail, so that no head can be told.
#[derive(Debug)]
struct Unreadable {
    inner: TestStore,
}

impl RawEventStore for Unreadable {
    type Error = TestStoreError;
    type AllPosition = TestAllPos;

    fn valid_log(&self) {}

    fn append(
        &mut self,
        id: &StreamKey,
        expected_version: Option<Version>,
        envelopes: PendingBatch<'_>,
    ) -> Result<TestAllPos, AppendError<TestStoreError>> {
        self.inner.append(id, expected_version, envelopes)
    }

    fn read_stream(
        &self,
        _id: &StreamKey,
        _from: Version,
    ) -> Result<Vec<PersistedEnvelope>, TestStoreError> {
        Err(TestStoreError::PositionOverflow)
    }

    fn read_all(
        &self,
        _from: Option<TestAllPos>,
    ) -> Result<Vec<(TestAllPos, StreamKey, PersistedEnvelope)>, TestStoreError> {
        Err(TestStoreError::PositionOverflow)
    }
}

impl AtomicAppend for Unreadable {
    fn atomic_append_many(
        &mut self,
        _writes: &[PlannedAppend],
    ) -> Result<Option<TestAllPos>, AtomicAppendError<TestStoreError>> {
        Err(AtomicAppendError::Store(TestStoreError::VersionOverflow))
    }
}

#[test]
fn a_faulty_chunk_aborts_even_where_no_head_can_be_read() {
    let mut store = Unreadable { inner: seeded("a", 1) };
    let sections = [
        section("a", vec![evt(1)]),
        section("b", vec![ImportBlock::Corrupt]),
    ];
    match store.import(&sections, same, Atomicity::WholeChunk) {
        Err(ImportError::Aborted { stream, reason }) => {
            assert_eq!(stream.as_bytes(), b"b");
            assert_eq!(reason, AbortReason::Corrupt);
        }
        other => panic!("expected Aborted, got {other:?}"),
    }
    assert_eq!(versions(&store.inner, "a"), vec![1]);
}

#[test]
fn the_failure_of_a_transaction_is_handed_on() {
    let mut store = Unreadable { inner: TestStore::new() };
    let sections = [section("a", vec![evt(1)])];
    match store.import(&sections, same, Atomicity::WholeChunk) {
        Err(ImportError::Store(e)) => assert_eq!(e, TestStoreError::VersionOverflow),
        other => panic!("expected Store, got {other:?}"),
    }
}
