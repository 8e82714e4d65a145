//! Commands: decide, then save.

use std::convert::Infallible;
use std::sync::Arc;

use bytes::Bytes;
use mnesis::conflict::ConflictPredicate;
use mnesis::domain::AggregateState;
use mnesis::envelope::{PendingBatch, PendingEnvelope};
use mnesis::error::{AppendError, StoreError};
use mnesis::execute::{decide, execute, executed, Decision, ExecuteError, Execution};
use mnesis::store::RawEventStore;
use mnesis::stream_key::StreamKey;
use mnesis::test_support::{TestAllPos, TestStore, TestStoreError};
use mnesis::value::{EventType, SchemaVersion};
use mnesis::version::Version;
use parking_lot::Mutex;
use tokio::runtime::Builder;
use tokio::sync::Barrier;

type IoStoreError = StoreError<std::io::Error, Infallible, Infallible>;
type IoExecuteError = ExecuteError<&'static str, IoStoreError>;

#[test]
fn conflict_store_error_is_conflict() {
    let e: IoExecuteError = ExecuteError::Store(StoreError::Conflict {
        stream_id: StreamKey::from_slice(b"s"),
        expected: Some(Version::initial()),
        actual: None,
    });
    assert!(e.is_conflict());
}

#[test]
fn decide_error_is_not_conflict() {
    let e: IoExecuteError = ExecuteError::Decide("rejected");
    assert!(!e.is_conflict());
}

fn classify_execute(error: &ExecuteError<&'static str, &'static str>) -> u8 {
    match error {
        ExecuteError::Decide(_) => 1,
        ExecuteError::Store(_) => 2,
    }
}

#[test]
fn execute_error_exposes_every_closed_failure_domain() {
    assert_eq!(classify_execute(&ExecuteError::Decide("domain")), 1);
    assert_eq!(classify_execute(&ExecuteError::Store("store")), 2);
}

// ── A counter on the test store ────────────────────────────────────────────

#[derive(Debug, Clone, PartialEq, Eq)]
enum CtrEvent {
    Added(u64),
}

#[derive(Debug, Clone, PartialEq, Eq)]
struct CtrState {
    total: u64,
}
impl AggregateState for CtrState {
    type Event = CtrEvent;
    fn initial() -> Self {
        Self { total: 0 }
    }
    fn apply(self, event: &CtrEvent) -> Self {
        let CtrEvent::Added(n) = event;
        Self {
            total: self.total + n,
        }
    }
}

#[derive(Debug, PartialEq)]
enum CtrError {
    Zero,
}

fn handle(_state: &CtrState, add: u64) -> Result<Option<Vec<CtrEvent>>, CtrError> {
    if add == 0 {
        return Err(CtrError::Zero);
    }
    Ok(Some(vec![CtrEvent::Added(add)]))
}

#[derive(Debug)]
struct Root {
    key: StreamKey,
    version: Option<Version>,
    state: CtrState,
}

type RepoError = StoreError<TestStoreError, Infallible, Infallible>;

fn load(store: &TestStore, id: u64) -> Root {
    let key = StreamKey::from_slice(&id.to_le_bytes());
    let mut root = Root {
        key,
        version: None,
        state: CtrState::initial(),
    };
    for env in store.read_stream(&root.key, Version::initial()).unwrap() {
        let mut n = [0u8; 8];
        n.copy_from_slice(env.payload());
        root.state = root.state.apply(&CtrEvent::Added(u64::from_le_bytes(n)));
        root.version = Some(env.version());
    }
    root
}

fn save(store: &mut TestStore, root: &mut Root, events: &[CtrEvent]) -> Result<TestAllPos, RepoError> {
    let mut envs = Vec::new();
    let mut next = root.version;
    for event in events {
        let CtrEvent::Added(n) = event;
        let version = match next {
            None => Version::initial(),
            Some(v) => v.next().ok_or(StoreError::VersionOverflow)?,
        };
        envs.push(PendingEnvelope::new(
            version,
            EventType::new("Added").unwrap(),
            SchemaVersion::initial(),
            Bytes::copy_from_slice(&n.to_le_bytes()),
            None,
        ));
        next = Some(version);
    }
    let batch = PendingBatch::new(&envs).expect("at least one event");
    match store.append(&root.key, root.version, batch) {
        Ok(position) => {
            for event in events {
                root.state = root.state.clone().apply(event);
            }
            root.version = next;
            Ok(position)
        }
        Err(AppendError::Conflict {
            stream_id,
            expected,
            actual,
        }) => Err(StoreError::Conflict {
            stream_id,
            expected,
            actual,
        }),
        Err(AppendError::Store(e)) => Err(StoreError::Adapter(e)),
        Err(_) => unreachable!("no further failure"),
    }
}

type Executed = Result<Execution<TestAllPos, Vec<CtrEvent>>, ExecuteError<CtrError, RepoError>>;

fn run(store: &mut TestStore, root: &mut Root, add: u64) -> Executed {
    execute(handle(&root.state, add), |events: &Vec<CtrEvent>| {
        save(store, root, events)
    })
}

fn events_of(done: Executed) -> Vec<CtrEvent> {
    match done {
        Ok(Execution::Executed { events, .. }) => events,
        other => panic!("expected Executed, got {other:?}"),
    }
}

#[test]
fn sequence_execute_chain_advances_version_and_state() {
    let mut store = TestStore::new();
    let mut ctr = load(&store, 1);

    let e1 = events_of(run(&mut store, &mut ctr, 3));
    assert_eq!(e1, vec![CtrEvent::Added(3)]);
    assert_eq!(ctr.version, Version::new(1));
    assert_eq!(ctr.state.total, 3);

    let e2 = events_of(run(&mut store, &mut ctr, 4));
    assert_eq!(e2, vec![CtrEvent::Added(4)]);
    assert_eq!(ctr.version, Version::new(2));
    assert_eq!(ctr.state.total, 7);

    let reloaded = load(&store, 1);
    assert_eq!(reloaded.state.total, 7);
    assert_eq!(reloaded.version, Version::new(2));
}

#[test]
fn defensive_rejected_command_persists_nothing() {
    let mut store = TestStore::new();
    let mut ctr = load(&store, 2);

    let err = run(&mut store, &mut ctr, 0).unwrap_err();
    assert!(matches!(err, ExecuteError::Decide(CtrError::Zero)));
    assert!(!err.is_conflict());
    assert_eq!(ctr.version, None);
    assert_eq!(ctr.state.total, 0);

    let reloaded = load(&store, 2);
    assert_eq!(reloaded.version, None);
}

#[test]
fn defensive_stale_root_conflicts() {
    let mut store = TestStore::new();
    let mut a = load(&store, 3);
    let mut b = load(&store, 3);

    assert_eq!(
        events_of(run(&mut store, &mut a, 1)),
        vec![CtrEvent::Added(1)]
    );
    let err = run(&mut store, &mut b, 2).unwrap_err();
    assert!(err.is_conflict());
    assert!(matches!(err, ExecuteError::Store(_)));
}

#[test]
fn linearizable_concurrent_execute_one_winner() {
    let runtime = Builder::new_multi_thread()
        .worker_threads(4)
        .build()
        .expect("runtime");
    runtime.block_on(async {
        let store = Arc::new(Mutex::new(TestStore::new()));
        let barrier = Arc::new(Barrier::new(2));
        let mut tasks = Vec::new();
        for n in [10u64, 20u64] {
            let store = Arc::clone(&store);
            let barrier = Arc::clone(&barrier);
            tasks.push(tokio::spawn(async move {
                let mut ctr = load(&store.lock(), 4);
                barrier.wait().await; // both have loaded the same head
                let mut guard = store.lock();
                run(&mut guard, &mut ctr, n)
            }));
        }
        let mut wins = 0;
        let mut conflicts = 0;
        for task in tasks {
            match task.await.unwrap() {
                Ok(_) => wins += 1,
                Err(e) if e.is_conflict() => conflicts += 1,
                Err(e) => panic!("neither won nor conflicted: {e:?}"),
            }
        }
        assert_eq!(wins, 1, "exactly one writer commits");
        assert_eq!(
            conflicts, 1,
            "the loser surfaces a conflict, not a silent drop"
        );

        let final_ctr = load(&store.lock(), 4);
        assert_eq!(final_ctr.version, Version::new(1));
        assert!(
            final_ctr.state.total == 10 || final_ctr.state.total == 20,
            "expected exactly one command's effect, got {}",
            final_ctr.state.total
        );
    });
}

#[test]
fn equivalence_execute_matches_manual_two_step() {
    let mut manual = TestStore::new();
    let mut m = load(&manual, 5);
    let decided = handle(&m.state, 9).unwrap().unwrap();
    save(&mut manual, &mut m, &decided).unwrap();

    let mut fused = TestStore::new();
    let mut f = load(&fused, 6);
    let returned = events_of(run(&mut fused, &mut f, 9));

    assert_eq!(returned, decided);
    assert_eq!(f.version, m.version);
    assert_eq!(f.state, m.state);
}

#[test]
fn execute_carries_the_position_all_reports() {
    let mut store = TestStore::new();
    let mut ctr = load(&store, 1);
    match run(&mut store, &mut ctr, 7) {
        Ok(Execution::Executed { position, events }) => {
            assert_eq!(events, vec![CtrEvent::Added(7)]);
            let rows = store.read_all(None).unwrap();
            assert_eq!(position, rows.last().unwrap().0);
        }
        other => panic!("expected Executed, got {other:?}"),
    }
}

// ── One decision at a time ─────────────────────────────────────────────────

#[test]
fn a_command_that_decides_nothing_does_not_touch_the_store() {
    let handled: Result<Option<Vec<u8>>, &str> = Ok(None);
    let done: Result<Execution<u64, Vec<u8>>, ExecuteError<&str, &str>> =
        execute(handled, |_events: &Vec<u8>| panic!("nothing to save"));
    assert!(matches!(done, Ok(Execution::Ignored)));
}

#[test]
fn the_verdict_decides_whether_to_save() {
    let rejected: Result<Decision<u8>, ExecuteError<&str, &str>> = decide(Err("no"));
    assert!(matches!(rejected, Err(ExecuteError::Decide("no"))));
    let ignored: Result<Decision<u8>, ExecuteError<&str, &str>> = decide(Ok(None));
    assert!(matches!(ignored, Ok(Decision::Ignore)));
    let accepted: Result<Decision<u8>, ExecuteError<&str, &str>> = decide(Ok(Some(3)));
    assert!(matches!(accepted, Ok(Decision::Save(3))));
}

#[test]
fn the_save_decides_what_comes_back() {
    let landed: Result<Execution<u64, u8>, ExecuteError<&str, &str>> = executed(3, Ok(8));
    assert!(matches!(
        landed,
        Ok(Execution::Executed {
            position: 8,
            events: 3
        })
    ));
    let failed: Result<Execution<u64, u8>, ExecuteError<&str, &str>> = executed(3, Err("full"));
    assert!(matches!(failed, Err(ExecuteError::Store("full"))));
}

#[test]
fn only_a_conflict_is_a_conflict() {
    let others: [StoreError<u8, u8, u8>; 4] = [
        StoreError::Adapter(1),
        StoreError::Encode(2),
        StoreError::Decode(3),
        StoreError::VersionOverflow,
    ];
    for e in &others {
        assert!(!e.is_conflict());
        assert!(!ConflictPredicate::is_conflict(e));
    }
}
