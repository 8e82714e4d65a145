//! The append contract: what a store accepts, where it lands, what the reads show.

use std::sync::Arc;

use bytes::Bytes;
use mnesis::envelope::{persist, PendingBatch, PendingEnvelope, PersistedEnvelope};
use mnesis::error::{AppendError, AppendValidationError};
use mnesis::store::{validate_append_versions, AllPosition, RawEventStore, Store};
use mnesis::stream_key::StreamKey;
use mnesis::test_support::{TestAllPos, TestStore, TestStoreError};
use mnesis::value::{EventType, Metadata, SchemaVersion};
use mnesis::version::Version;
use parking_lot::Mutex;
use tokio::runtime::Builder;
use tokio::sync::Barrier;

fn sk(id: &str) -> StreamKey {
    StreamKey::from_slice(id.as_bytes())
}

fn env_of(version: u64, event_type: &str, payload: &'static [u8]) -> PendingEnvelope {
    PendingEnvelope::new(
        Version::new(version).unwrap(),
        EventType::new(event_type).unwrap(),
        SchemaVersion::initial(),
        Bytes::from_static(payload),
        None,
    )
}

fn env(version: u64) -> PendingEnvelope {
    env_of(version, "E", b"p")
}

fn recorded(version: u64) -> PendingEnvelope {
    env_of(version, "Recorded", b"payload")
}

fn drain_all(store: &TestStore) -> Vec<(TestAllPos, StreamKey, PersistedEnvelope)> {
    store.read_all(None).expect("read_all")
}

// ── Validation ─────────────────────────────────────────────────────────────

#[test]
fn fresh_stream_ok() {
    assert!(validate_append_versions(0, None, &[env(1), env(2), env(3)], &sk("s")).is_ok());
}

#[test]
fn existing_stream_ok() {
    assert!(validate_append_versions(5, Version::new(5), &[env(6), env(7)], &sk("s")).is_ok());
}

#[test]
fn empty_batch_ok() {
    assert!(validate_append_versions(0, None, &[], &sk("s")).is_ok());
}

#[test]
fn stale_expected_conflict() {
    let err = validate_append_versions(5, Version::new(4), &[env(6)], &sk("s")).unwrap_err();
    assert!(matches!(err, AppendValidationError::Conflict { .. }));
}

#[test]
fn fresh_stream_with_expected_some_conflict() {
    // A non-empty expectation on a brand-new stream is a conflict.
    let err = validate_append_versions(0, Version::new(1), &[env(1)], &sk("s")).unwrap_err();
    assert!(matches!(err, AppendValidationError::Conflict { .. }));
}

#[test]
fn gapped_batch_conflict() {
    let err = validate_append_versions(0, None, &[env(1), env(3)], &sk("s")).unwrap_err();
    match err {
        AppendValidationError::Conflict {
            expected, actual, ..
        } => {
            assert_eq!(expected, Version::new(2));
            assert_eq!(actual, Some(env(3).version()));
        }
        AppendValidationError::VersionOverflow => {
            panic!("expected Conflict, got VersionOverflow")
        }
    }
}

#[test]
fn out_of_order_batch_conflict() {
    let err = validate_append_versions(0, None, &[env(2), env(1)], &sk("s")).unwrap_err();
    match err {
        AppendValidationError::Conflict {
            expected, actual, ..
        } => {
            assert_eq!(expected, Version::new(1));
            assert_eq!(actual, Some(env(2).version()));
        }
        AppendValidationError::VersionOverflow => {
            panic!("expected Conflict, got VersionOverflow")
        }
    }
}

#[test]
fn wrong_start_version_conflict() {
    let err = validate_append_versions(5, Version::new(5), &[env(7)], &sk("s")).unwrap_err();
    assert!(matches!(err, AppendValidationError::Conflict { .. }));
}

#[test]
fn version_overflow_is_version_overflow_not_conflict() {
    let err = validate_append_versions(u64::MAX, Version::new(u64::MAX), &[env(1)], &sk("s"))
        .unwrap_err();
    assert!(matches!(err, AppendValidationError::VersionOverflow));
}

#[test]
fn stale_expectation_names_both_heads_and_the_stream() {
    match validate_append_versions(5, Version::new(4), &[env(6)], &sk("s")) {
        Err(AppendValidationError::Conflict {
            stream_id,
            expected,
            actual,
        }) => {
            assert_eq!(stream_id, sk("s"));
            assert_eq!(expected, Version::new(4));
            assert_eq!(actual, Version::new(5));
        }
        other => panic!("expected Conflict, got {other:?}"),
    }
}

#[test]
fn batch_may_end_at_the_last_version() {
    let max = u64::MAX;
    assert!(
        validate_append_versions(max - 1, Version::new(max - 1), &[env(max)], &sk("s")).is_ok()
    );
    let err = validate_append_versions(
        max - 1,
        Version::new(max - 1),
        &[env(max), env(1)],
        &sk("s"),
    )
    .unwrap_err();
    assert!(matches!(err, AppendValidationError::VersionOverflow));
}

// ── Positions ──────────────────────────────────────────────────────────────

#[test]
fn append_returns_the_position_all_reports_for_that_event() {
    let mut store = TestStore::new();
    let only = recorded(1);

    let returned = store
        .append(&sk("s1"), None, PendingBatch::of(&only))
        .expect("append");

    let rows = drain_all(&store);
    assert_eq!(rows.len(), 1, "one append of one event is one $all row");
    assert_eq!(
        rows[0].0, returned,
        "the returned position must be the position $all reports for that event"
    );
}

#[test]
fn multi_event_append_returns_the_last_events_position() {
    let mut store = TestStore::new();
    let envs = [recorded(1), recorded(2), recorded(3)];

    let returned = store
        .append(&sk("s1"), None, PendingBatch::new(&envs).unwrap())
        .expect("append");

    let rows = drain_all(&store);
    assert_eq!(rows.len(), 3, "three events are three $all rows");
    assert_eq!(rows[2].0, returned, "the returned position is the LAST event's");
    assert_ne!(
        rows[0].0, returned,
        "the first event's position must not be what is returned"
    );
}

#[test]
fn successive_appends_return_strictly_increasing_positions() {
    let mut store = TestStore::new();
    let (e1, e2, e3) = (recorded(1), recorded(2), recorded(1));

    let first = store
        .append(&sk("s1"), None, PendingBatch::of(&e1))
        .expect("append 1");
    let second = store
        .append(&sk("s1"), Version::new(1), PendingBatch::of(&e2))
        .expect("append 2");
    let other_stream = store
        .append(&sk("s2"), None, PendingBatch::of(&e3))
        .expect("append 3");

    assert!(first < second, "positions advance within one stream");
    assert!(
        second < other_stream,
        "positions advance across streams: the order is store-wide"
    );
    assert!(first.precedes(second) && !second.precedes(first));
    assert!(!first.precedes(first), "a position does not precede itself");
}

#[test]
fn a_rejected_append_returns_no_position_and_writes_nothing() {
    let mut store = TestStore::new();
    let first = recorded(1);
    store
        .append(&sk("s1"), None, PendingBatch::of(&first))
        .expect("append");

    // Stale expectation: the stream is at 1, the caller thinks it is fresh.
    let duplicate = recorded(1);
    let err = store
        .append(&sk("s1"), None, PendingBatch::of(&duplicate))
        .expect_err("stale expected_version must be rejected");
    assert!(
        matches!(err, AppendError::Conflict { .. }),
        "a stale expectation is a Conflict, got {err:?}"
    );

    let rows = drain_all(&store);
    assert_eq!(rows.len(), 1, "the rejected append must not have landed");
}

#[test]
fn concurrent_appends_return_positions_ordered_as_all_delivers_them() {
    let runtime = Builder::new_multi_thread()
        .worker_threads(2)
        .build()
        .expect("runtime");
    runtime.block_on(async {
        let store = Arc::new(Mutex::new(TestStore::new()));
        let barrier = Arc::new(Barrier::new(2));

        let mut handles = Vec::new();
        for name in ["s1", "s2"] {
            let task_store = Arc::clone(&store);
            let task_barrier = Arc::clone(&barrier);
            handles.push(tokio::spawn(async move {
                let only = recorded(1);
                task_barrier.wait().await;
                let pos = task_store
                    .lock()
                    .append(&sk(name), None, PendingBatch::of(&only))
                    .expect("concurrent append");
                (sk(name), pos)
            }));
        }

        let mut claimed = Vec::new();
        for h in handles {
            claimed.push(h.await.expect("task panicked"));
        }
        assert_ne!(
            claimed[0].1, claimed[1].1,
            "two concurrent appends must not claim the same position"
        );

        claimed.sort_by_key(|entry| entry.1);
        let delivered = drain_all(&store.lock());
        assert_eq!(delivered.len(), 2, "both appends landed");
        for (i, (expected_key, expected_pos)) in claimed.iter().enumerate() {
            assert_eq!(delivered[i].0, *expected_pos);
            assert_eq!(delivered[i].1, *expected_key);
        }
    });
}

// ── What the reads show ────────────────────────────────────────────────────

#[test]
fn an_appended_event_reads_back_whole() {
    let mut store = TestStore::new();
    let written = PendingEnvelope::new(
        Version::initial(),
        EventType::new("Opened").unwrap(),
        SchemaVersion::from_u32(7).unwrap(),
        Bytes::from_static(b"body"),
        Some(Metadata::from_bytes(Bytes::from_static(b"who")).unwrap()),
    );
    store
        .append(&sk("s"), None, PendingBatch::of(&written))
        .expect("append");

    let rows = store
        .read_stream(&sk("s"), Version::initial())
        .expect("read");
    assert_eq!(rows.len(), 1);
    assert_eq!(rows[0].version(), Version::initial());
    assert_eq!(rows[0].event_type(), "Opened");
    assert_eq!(rows[0].schema_version(), 7);
    assert_eq!(rows[0].payload(), b"body");
    assert_eq!(rows[0].metadata(), Some(b"who".as_slice()));
    assert_eq!(
        rows[0].metadata_bytes(),
        Some(Bytes::from_static(b"who"))
    );
    assert_eq!(rows[0], persist(&written));
    assert_eq!(PendingEnvelope::from_persisted(&rows[0]), written);
}

#[test]
fn a_stream_read_is_inclusive_and_an_all_read_exclusive() {
    let mut store = TestStore::new();
    let envs = [env(1), env(2), env(3)];
    store
        .append(&sk("s"), None, PendingBatch::new(&envs).unwrap())
        .expect("append");

    let from_two = store
        .read_stream(&sk("s"), Version::new(2).unwrap())
        .expect("read");
    let versions: Vec<u64> = from_two.iter().map(|e| e.version().as_u64()).collect();
    assert_eq!(versions, vec![2, 3]);

    let all = drain_all(&store);
    let behind_two = store.read_all(Some(all[1].0)).expect("read_all");
    assert_eq!(behind_two.len(), 1);
    assert_eq!(behind_two[0].0, all[2].0);
    assert!(store.read_all(Some(all[2].0)).expect("read_all").is_empty());
    assert!(store
        .read_stream(&sk("s"), Version::new(4).unwrap())
        .expect("read")
        .is_empty());
    assert!(store
        .read_stream(&sk("other"), Version::initial())
        .expect("read")
        .is_empty());
}

#[test]
fn a_read_and_its_resumption_make_up_the_whole() {
    let mut store = TestStore::new();
    for (id, version) in [("a", 1), ("b", 1), ("a", 2), ("b", 2)] {
        let one = env(version);
        store
            .append(&sk(id), Version::new(version - 1), PendingBatch::of(&one))
            .expect("append");
    }
    let whole = drain_all(&store);
    assert_eq!(whole.len(), 4);
    for cut in 0..whole.len() {
        let rest = store.read_all(Some(whole[cut].0)).expect("read_all");
        let joined: Vec<TestAllPos> = whole[..=cut]
            .iter()
            .chain(rest.iter())
            .map(|row| row.0)
            .collect();
        let direct: Vec<TestAllPos> = whole.iter().map(|row| row.0).collect();
        assert_eq!(joined, direct);
    }
}

#[test]
fn an_append_touches_no_other_stream() {
    let mut store = TestStore::new();
    let one = env(1);
    store
        .append(&sk("ab"), None, PendingBatch::of(&one))
        .expect("append");
    store
        .append(&sk("a"), None, PendingBatch::of(&one))
        .expect("a prefix of another key is a stream of its own");
    let rows = store
        .read_stream(&sk("ab"), Version::initial())
        .expect("read");
    assert_eq!(rows.len(), 1);
}

#[test]
fn the_same_expectation_lands_once_and_the_conflict_names_the_head() {
    let mut store = TestStore::new();
    let one = env(1);
    store
        .append(&sk("s"), None, PendingBatch::of(&one))
        .expect("the first writer wins");
    match store.append(&sk("s"), None, PendingBatch::of(&one)) {
        Err(AppendError::Conflict {
            stream_id,
            expected,
            actual,
        }) => {
            assert_eq!(stream_id, sk("s"));
            assert_eq!(expected, None);
            assert_eq!(actual, Version::new(1));
            let two = env(2);
            store
                .append(&sk("s"), actual, PendingBatch::of(&two))
                .expect("a retry from the named head lands");
        }
        other => panic!("expected Conflict, got {other:?}"),
    }
    assert_eq!(drain_all(&store).len(), 2);
}

#[test]
fn a_gap_inside_a_batch_is_refused_whole() {
    let mut store = TestStore::new();
    let envs = [env(1), env(3)];
    let err = store
        .append(&sk("s"), None, PendingBatch::new(&envs).unwrap())
        .expect_err("a gapped batch must be refused");
    assert!(matches!(err, AppendError::Conflict { .. }), "got {err:?}");
    assert!(drain_all(&store).is_empty(), "none of the batch landed");
}

#[test]
fn a_store_keeps_its_errors_apart_from_conflicts() {
    let err: AppendError<TestStoreError> = AppendError::Store(TestStoreError::VersionOverflow);
    assert!(matches!(
        err,
        AppendError::Store(TestStoreError::VersionOverflow)
    ));
    assert_ne!(
        TestStoreError::VersionOverflow,
        TestStoreError::PositionOverflow
    );
}

#[test]
fn an_empty_batch_cannot_be_made() {
    assert!(PendingBatch::new(&[]).is_none());
    let envs = [env(1), env(2)];
    let batch = PendingBatch::from_parts(&envs[0], &envs[1..]);
    let held: Vec<u64> = batch.to_vec().iter().map(|e| e.version().as_u64()).collect();
    assert_eq!(held, vec![1, 2]);
}

#[test]
fn a_handle_shares_its_store() {
    let mut raw = TestStore::new();
    let one = env(1);
    raw.append(&sk("s"), None, PendingBatch::of(&one))
        .expect("append");
    let store = Store::new(raw);
    let twin = store.clone();
    assert!(Arc::ptr_eq(store.arc(), twin.arc()));
    assert_eq!(twin.raw().read_all(None).expect("read_all").len(), 1);
    let rows = twin.read_all(None).expect("read_all");
    assert_eq!(rows.len(), 1);
    assert!(twin.read_all(Some(rows[0].0)).expect("read_all").is_empty());
    assert_eq!(
        twin.read_stream(&sk("s"), Version::initial())
            .expect("read")
            .len(),
        1
    );
    let direct = TestStore::new().into_store();
    assert!(direct.raw().read_all(None).expect("read_all").is_empty());
}

#[test]
fn validation_and_append_agree() {
    let one = env(1);
    let batches = [
        vec![env(2)],
        vec![env(2), env(3)],
        vec![env(1)],
        vec![env(3)],
        vec![env(2), env(4)],
    ];
    for expected in [None, Version::new(1), Version::new(2)] {
        for batch in &batches {
            let mut store = TestStore::new();
            store
                .append(&sk("s"), None, PendingBatch::of(&one))
                .expect("append");
            let valid = validate_append_versions(1, expected, batch, &sk("s")).is_ok();
            let landed = store
                .append(&sk("s"), expected, PendingBatch::new(batch).unwrap())
                .is_ok();
            assert_eq!(valid, landed, "{expected:?} {batch:?}");
        }
    }
}
