//! Projections, driven one event at a time.

use std::cell::RefCell;
use std::convert::Infallible;
use std::rc::Rc;

use bytes::Bytes;
use mnesis::codec::{Decode, Encode};
use mnesis::decoded::Decoded;
use mnesis::domain::DomainEvent;
use mnesis::envelope::PersistedEnvelope;
use mnesis::id::Id;
use mnesis::projection::{Folded, Positioned, Projection, ProjectionError, Projector};
use mnesis::snapshots::TestSnapshots;
use mnesis::state::{
    AfterEventTypes, CodecSnapshotStore, CodecSnapshotStoreError, EveryNEvents, Hydrated,
    PersistTrigger, SnapshotModel, SnapshotStore,
};
use mnesis::store::AllPosition;
use mnesis::stream_key::StreamKey;
use mnesis::value::SchemaVersion;
use mnesis::version::Version;

// ── Fixtures ───────────────────────────────────────────────────────────────

#[derive(Debug, Clone, PartialEq, Eq)]
struct TestId(&'static str);
impl Id for TestId {
    fn to_label(&self) -> &str {
        self.0
    }
}

#[derive(Debug, Clone, PartialEq)]
struct CountState {
    count: u64,
    total: u64,
}

#[derive(Debug)]
enum TestEvent {
    Added(u64),
    Removed(u64),
}
impl DomainEvent for TestEvent {
    fn name(&self) -> &'static str {
        match self {
            Self::Added(_) => "Added",
            Self::Removed(_) => "Removed",
        }
    }
}

#[derive(Debug)]
struct TestProjectionError;

#[derive(Debug)]
struct CountingProjector;
impl Projector for CountingProjector {
    type Event = TestEvent;
    type State = CountState;
    type Error = TestProjectionError;

    fn initial(&self) -> CountState {
        CountState { count: 0, total: 0 }
    }
    fn apply(
        &self,
        state: CountState,
        event: &TestEvent,
    ) -> Result<CountState, TestProjectionError> {
        let count = state.count.checked_add(1).ok_or(TestProjectionError)?;
        let total = match event {
            TestEvent::Added(n) => state.total.checked_add(*n).ok_or(TestProjectionError)?,
            TestEvent::Removed(n) => state.total.checked_sub(*n).ok_or(TestProjectionError)?,
        };
        Ok(CountState { count, total })
    }
}

/// Sixteen bytes: the count, then the total.
#[derive(Debug, Clone, Copy)]
struct CountCodec;
impl Encode<CountState> for CountCodec {
    type Error = Infallible;
    fn encode(&self, value: &CountState) -> Result<Bytes, Infallible> {
        let mut out = value.count.to_le_bytes().to_vec();
        out.extend_from_slice(&value.total.to_le_bytes());
        Ok(Bytes::from(out))
    }
}
impl Decode<CountState> for CountCodec {
    type Output<'a> = CountState;
    type Error = &'static str;
    fn decode<'a>(&'a self, env: &'a PersistedEnvelope) -> Result<CountState, &'static str> {
        let bytes = env.payload();
        if bytes.len() != 16 {
            return Err("sixteen bytes expected");
        }
        let mut count = [0u8; 8];
        count.copy_from_slice(&bytes[..8]);
        let mut total = [0u8; 8];
        total.copy_from_slice(&bytes[8..]);
        Ok(CountState {
            count: u64::from_le_bytes(count),
            total: u64::from_le_bytes(total),
        })
    }
}

type Typed<P> = CodecSnapshotStore<TestSnapshots<P>, CountCodec>;

/// One snapshot store that outlives the projections on it.
#[derive(Debug, Clone)]
struct Shared<P>(Rc<RefCell<Typed<P>>>);

impl<P: Copy> Shared<P> {
    fn new() -> Self {
        Shared(Rc::new(RefCell::new(CodecSnapshotStore::new(
            TestSnapshots::new(),
            CountCodec,
        ))))
    }
    fn found(&self, id: &TestId) -> (P, CountState) {
        self.hydrate(id.to_label(), schema(1))
            .unwrap()
            .into_found()
            .unwrap()
    }
}

type TypedError = CodecSnapshotStoreError<Infallible, Infallible, &'static str>;

impl<P: Copy> SnapshotModel<CountState, P> for Shared<P> {
    type Content = ();
}
impl<P: Copy> SnapshotStore<CountState, P> for Shared<P> {
    type Error = TypedError;
    fn hydrate(
        &self,
        id: &str,
        schema_version: SchemaVersion,
    ) -> Result<Hydrated<CountState, P>, TypedError> {
        self.0.borrow().hydrate(id, schema_version)
    }
    fn commit(
        &mut self,
        id: &str,
        schema_version: SchemaVersion,
        position: P,
        state: &CountState,
    ) -> Result<(), TypedError> {
        self.0
            .borrow_mut()
            .commit(id, schema_version, position, state)
    }
}

fn schema(n: u32) -> SchemaVersion {
    SchemaVersion::from_u32(n).unwrap()
}

fn version(n: u64) -> Version {
    Version::new(n).unwrap()
}

fn every(n: u64) -> EveryNEvents {
    EveryNEvents::new(n).unwrap()
}

fn decoded(event: TestEvent, ver: u64) -> Decoded<TestEvent> {
    Decoded {
        event,
        version: version(ver),
        metadata: None,
    }
}

type ByVersion = Projection<TestId, CountingProjector, EveryNEvents, Shared<Version>, Version>;

fn load(id: &TestId, n: u64, ss: &Shared<Version>, schema_version: u32) -> (ByVersion, CountState) {
    Projection::load(
        id.clone(),
        CountingProjector,
        every(n),
        ss.clone(),
        schema(schema_version),
    )
    .unwrap()
}

// ── One stream ─────────────────────────────────────────────────────────────

#[test]
fn advance_folds_and_commits_each_event_when_trigger_always_fires() {
    let ss = Shared::new();
    let id = TestId("s");
    let (mut p, mut state) = load(&id, 1, &ss, 1);

    assert_eq!(p.checkpoint(), None);
    state = p.advance(state, decoded(TestEvent::Added(10), 1)).unwrap();
    state = p.advance(state, decoded(TestEvent::Added(20), 2)).unwrap();
    state = p.advance(state, decoded(TestEvent::Added(30), 3)).unwrap();

    assert_eq!(p.checkpoint(), Some(version(3)));
    assert_eq!(
        state,
        CountState {
            count: 3,
            total: 60
        }
    );

    // Persisted together.
    let (pos, st) = ss.found(&id);
    assert_eq!(pos, version(3));
    assert_eq!(
        st,
        CountState {
            count: 3,
            total: 60
        }
    );
}

#[test]
fn load_resumes_state_and_checkpoint_from_snapshot() {
    let ss = Shared::new();
    let id = TestId("s");

    {
        let (mut p, mut state) = load(&id, 1, &ss, 1);
        state = p.advance(state, decoded(TestEvent::Added(10), 1)).unwrap();
        state = p.advance(state, decoded(TestEvent::Added(20), 2)).unwrap();
        let _ = p.advance(state, decoded(TestEvent::Added(30), 3)).unwrap();
    }

    // A fresh stepper over the same snapshot store: state and checkpoint restored.
    let (mut p2, state2) = load(&id, 1, &ss, 1);
    assert_eq!(p2.checkpoint(), Some(version(3)));
    assert_eq!(
        state2,
        CountState {
            count: 3,
            total: 60
        }
    );

    // Resume: the next event folds onto the restored state.
    let resumed = p2
        .advance(state2, decoded(TestEvent::Added(40), 4))
        .unwrap();
    assert_eq!(p2.checkpoint(), Some(version(4)));
    assert_eq!(
        resumed,
        CountState {
            count: 4,
            total: 100
        }
    );
}

#[test]
fn advance_surfaces_projector_apply_error() {
    let ss = Shared::new();
    let (mut p, state) = load(&TestId("s"), 1, &ss, 1);

    // Removed(1) from total 0 underflows in the projector.
    let err = p
        .advance(state, decoded(TestEvent::Removed(1), 1))
        .unwrap_err();
    assert!(
        matches!(err, ProjectionError::Apply(_)),
        "expected Apply, got {err:?}"
    );
    // Nothing was committed on the failed fold.
    assert_eq!(p.checkpoint(), None);
}

#[test]
fn flush_commits_folded_but_unpersisted_tail() {
    let ss = Shared::new();
    let id = TestId("s");
    // The trigger never fires (bucket of 100): only flush persists.
    let (mut p, mut state) = load(&id, 100, &ss, 1);

    state = p.advance(state, decoded(TestEvent::Added(10), 1)).unwrap();
    state = p.advance(state, decoded(TestEvent::Added(20), 2)).unwrap();
    assert_eq!(p.checkpoint(), None, "trigger must not have fired");
    assert_eq!(p.unflushed(), Some(version(2)));
    assert_eq!(
        ss.hydrate(id.to_label(), schema(1)).unwrap(),
        Hydrated::Absent
    );

    p.flush(&state).unwrap();
    assert_eq!(p.checkpoint(), Some(version(2)));
    assert_eq!(p.unflushed(), None);
    let (pos, st) = ss.found(&id);
    assert_eq!(pos, version(2));
    assert_eq!(
        st,
        CountState {
            count: 2,
            total: 30
        }
    );
}

#[test]
fn flush_is_a_noop_when_nothing_is_pending() {
    let ss = Shared::new();
    let id = TestId("s");
    let (mut p, state) = load(&id, 1, &ss, 1);

    // Never advanced: flush must not write a spurious snapshot.
    p.flush(&state).unwrap();
    assert_eq!(p.checkpoint(), None);
    assert_eq!(
        ss.hydrate(id.to_label(), schema(1)).unwrap(),
        Hydrated::Absent
    );
}

#[test]
fn load_stale_schema_starts_from_initial_and_signals_rebuild() {
    let mut ss = Shared::new();
    let id = TestId("s");
    // Commit a v1 snapshot beforehand.
    ss.commit(
        id.to_label(),
        schema(1),
        version(5),
        &CountState {
            count: 99,
            total: 999,
        },
    )
    .unwrap();

    // Load with schema v2: the v1 snapshot must not be restored...
    let (p, state) = load(&id, 1, &ss, 2);
    assert_eq!(p.checkpoint(), None);
    assert_eq!(state, CountState { count: 0, total: 0 });
    // ...but the rebuild is visible, with the schema version that was discarded.
    assert_eq!(p.rebuilding_from(), Some(schema(1)));
}

#[test]
fn load_fresh_does_not_signal_rebuild() {
    let ss = Shared::new();
    let (p, _state) = load(&TestId("s"), 1, &ss, 1);
    // A genuinely new projection is not a rebuild.
    assert_eq!(p.rebuilding_from(), None);
}

// ── All streams ────────────────────────────────────────────────────────────

/// A store-wide position with gaps.
#[derive(Debug, Clone, Copy, PartialEq, Eq)]
struct SeqPos(u64);
impl AllPosition for SeqPos {
    fn precedes(self, other: Self) -> bool {
        self.0 < other.0
    }
}

/// A trigger that always fires.
struct Always;
impl PersistTrigger<SeqPos> for Always {
    fn should_persist(
        &self,
        _old_position: Option<SeqPos>,
        _new_position: SeqPos,
        _event_names: &[&str],
    ) -> bool {
        true
    }
}

fn all_pos(v: u64) -> SeqPos {
    SeqPos(v)
}

fn at(pos: u64, event: TestEvent, ver: u64) -> (SeqPos, StreamKey, Decoded<TestEvent>) {
    (
        all_pos(pos),
        StreamKey::from_slice(b"stream"),
        decoded(event, ver),
    )
}

#[test]
fn all_advance_accepts_tuple_items_and_checkpoints_the_all_tag() {
    let ss = Shared::new();
    let id = TestId("all");
    let (mut p, mut state) =
        Projection::load(id.clone(), CountingProjector, Always, ss.clone(), schema(1)).unwrap();
    assert_eq!(p.checkpoint(), None);

    // Gaps on purpose: positions rise, but values may be missing between them. The versions are
    // per stream (two streams, both at 1).
    state = p.advance(state, at(3, TestEvent::Added(10), 1)).unwrap();
    state = p.advance(state, at(7, TestEvent::Added(20), 1)).unwrap();

    assert_eq!(p.checkpoint(), Some(all_pos(7)));
    assert_eq!(
        state,
        CountState {
            count: 2,
            total: 30
        }
    );

    let (pos, st) = ss.found(&id);
    assert_eq!(pos, all_pos(7));
    assert_eq!(
        st,
        CountState {
            count: 2,
            total: 30
        }
    );
}

#[test]
fn all_load_resumes_state_and_checkpoint_from_snapshot() {
    let ss = Shared::new();
    let id = TestId("all");
    {
        let (mut p, state) =
            Projection::load(id.clone(), CountingProjector, Always, ss.clone(), schema(1)).unwrap();
        let _ = p.advance(state, at(9, TestEvent::Added(10), 1)).unwrap();
    }

    let (mut p2, state2) =
        Projection::load(id, CountingProjector, Always, ss.clone(), schema(1)).unwrap();
    assert_eq!(
        p2.checkpoint(),
        Some(all_pos(9)),
        "resume point is the store-wide position, not a version"
    );
    assert_eq!(
        state2,
        CountState {
            count: 1,
            total: 10
        }
    );

    // Resume folds onto the restored state at a later position.
    let resumed = p2.advance(state2, at(12, TestEvent::Added(5), 2)).unwrap();
    assert_eq!(p2.checkpoint(), Some(all_pos(12)));
    assert_eq!(
        resumed,
        CountState {
            count: 2,
            total: 15
        }
    );
}

#[test]
fn all_flush_commits_tail_under_a_generic_after_event_types_trigger() {
    let ss = Shared::new();
    let id = TestId("all");
    // "Removed" never arrives, so only flush persists.
    let (mut p, mut state) = Projection::load(
        id.clone(),
        CountingProjector,
        AfterEventTypes::new(&["Removed"]),
        ss.clone(),
        schema(1),
    )
    .unwrap();

    state = p.advance(state, at(2, TestEvent::Added(10), 1)).unwrap();
    assert_eq!(p.checkpoint(), None, "trigger must not have fired");
    assert_eq!(
        ss.hydrate(id.to_label(), schema(1)).unwrap(),
        Hydrated::Absent
    );

    p.flush(&state).unwrap();
    assert_eq!(p.checkpoint(), Some(all_pos(2)));
    let (pos, st) = ss.found(&id);
    assert_eq!(pos, all_pos(2));
    assert_eq!(
        st,
        CountState {
            count: 1,
            total: 10
        }
    );
}

// ── Further cases ──────────────────────────────────────────────────────────

#[test]
fn a_trigger_of_three_commits_at_three_and_six() {
    let ss = Shared::new();
    let id = TestId("s");
    let (mut p, mut state) = load(&id, 3, &ss, 1);
    let mut checkpoints = Vec::new();
    for n in 1..=7u64 {
        state = p.advance(state, decoded(TestEvent::Added(1), n)).unwrap();
        checkpoints.push(p.checkpoint().map(Version::as_u64));
    }
    assert_eq!(
        checkpoints,
        vec![None, None, Some(3), Some(3), Some(3), Some(6), Some(6)]
    );
    assert_eq!(p.unflushed(), Some(version(7)));
    // The saved state is the one at the checkpoint, not the one folded since.
    assert_eq!(ss.found(&id), (version(6), CountState { count: 6, total: 6 }));
}

#[test]
fn an_event_type_trigger_fires_on_its_type_alone() {
    let trigger = AfterEventTypes::new(&["Removed", "Closed"]);
    let fires = |names: &[&str]| trigger.should_persist(None, version(1), names);
    assert!(!fires(&[]));
    assert!(!fires(&["Added"]));
    assert!(!fires(&["Remove"]));
    assert!(fires(&["Removed"]));
    assert!(fires(&["Added", "Closed"]));
}

#[test]
fn an_interval_counts_whole_buckets() {
    let trigger = every(10);
    assert!(!trigger.should_persist(None, version(9), &[]));
    assert!(trigger.should_persist(None, version(10), &[]));
    assert!(!trigger.should_persist(Some(version(10)), version(19), &[]));
    assert!(trigger.should_persist(Some(version(19)), version(20), &[]));
    assert!(trigger.should_persist(Some(version(5)), version(105), &[]));
    assert!(EveryNEvents::new(0).is_none());
}

#[test]
fn a_projection_shows_what_it_is_bound_to() {
    let ss = Shared::new();
    let (p, _state) = load(&TestId("bound"), 1, &ss, 4);
    assert_eq!(p.id(), &TestId("bound"));
    assert_eq!(p.schema_version(), schema(4));
    assert!(Rc::ptr_eq(&p.snapshot_store().0, &ss.0));
}

#[test]
fn fold_and_settle_do_what_advance_does() {
    let (mut p, state) = Projection::resume(
        TestId("s"),
        CountingProjector,
        every(2),
        (),
        schema(1),
        Hydrated::<CountState, Version>::Absent,
    );
    let Folded { state, commit } = p
        .fold(state, decoded(TestEvent::Added(10), 1))
        .expect("folds");
    assert_eq!(commit, None);
    assert_eq!(p.unflushed(), Some(version(1)));
    let Folded { state, commit } = p
        .fold(state, decoded(TestEvent::Added(20), 2))
        .expect("folds");
    assert_eq!(commit, Some(version(2)));
    assert_eq!(
        state,
        CountState {
            count: 2,
            total: 30
        }
    );
    let refused: Result<(), ProjectionError<TestProjectionError, &'static str>> =
        p.settle(version(2), Err("disk full"));
    assert!(matches!(refused, Err(ProjectionError::Commit("disk full"))));
    assert_eq!(p.checkpoint(), None, "a failed commit moves no checkpoint");
    let taken: Result<(), ProjectionError<TestProjectionError, &'static str>> =
        p.settle(version(2), Ok(()));
    assert!(taken.is_ok());
    assert_eq!(p.checkpoint(), Some(version(2)));
    assert_eq!(p.unflushed(), None);
}

#[test]
fn an_item_comes_apart_into_its_tags() {
    let (pos, key, inner) = decoded(TestEvent::Added(1), 4).into_parts();
    assert_eq!(pos, version(4));
    assert!(key.is_none());
    assert_eq!(inner.version, version(4));

    let (pos, key, inner) = at(9, TestEvent::Added(1), 4).into_parts();
    assert_eq!(pos, all_pos(9));
    assert_eq!(key, Some(StreamKey::from_slice(b"stream")));
    assert_eq!(inner.version, version(4));
}

/// Counts only the events of one stream.
#[derive(Debug)]
struct OneStream;
impl Projector for OneStream {
    type Event = TestEvent;
    type State = CountState;
    type Error = TestProjectionError;

    fn initial(&self) -> CountState {
        CountState { count: 0, total: 0 }
    }
    fn apply(
        &self,
        state: CountState,
        _event: &TestEvent,
    ) -> Result<CountState, TestProjectionError> {
        Ok(state)
    }
    fn apply_attributed(
        &self,
        state: CountState,
        key: Option<&StreamKey>,
        _event: &TestEvent,
    ) -> Result<CountState, TestProjectionError> {
        match key {
            Some(k) if k.as_bytes() == b"mine" => Ok(CountState {
                count: state.count + 1,
                total: state.total,
            }),
            _ => Ok(state),
        }
    }
}

#[test]
fn a_projector_may_ask_for_the_stream() {
    let (mut p, mut state) = Projection::resume(
        TestId("s"),
        OneStream,
        Always,
        (),
        schema(1),
        Hydrated::<CountState, SeqPos>::Absent,
    );
    for (n, name) in [(1u64, "mine"), (2, "yours"), (3, "mine")] {
        let item = (
            all_pos(n),
            StreamKey::from_slice(name.as_bytes()),
            decoded(TestEvent::Added(1), 1),
        );
        state = p.fold(state, item).expect("folds").state;
    }
    assert_eq!(state.count, 2);
}

/// A snapshot store that has nothing and cannot save.
#[derive(Debug)]
struct Full;
impl SnapshotModel<CountState, Version> for Full {
    type Content = ();
}
impl SnapshotStore<CountState, Version> for Full {
    type Error = &'static str;
    fn hydrate(
        &self,
        _id: &str,
        _schema_version: SchemaVersion,
    ) -> Result<Hydrated<CountState, Version>, &'static str> {
        Ok(Hydrated::Absent)
    }
    fn commit(
        &mut self,
        _id: &str,
        _schema_version: SchemaVersion,
        _position: Version,
        _state: &CountState,
    ) -> Result<(), &'static str> {
        Err("disk full")
    }
}

#[test]
fn a_failed_commit_names_what_the_store_answered() {
    let (mut p, state) =
        Projection::load(TestId("s"), CountingProjector, every(2), Full, schema(1)).unwrap();
    let state = p.advance(state, decoded(TestEvent::Added(1), 1)).unwrap();
    assert!(matches!(
        p.flush(&state),
        Err(ProjectionError::Commit("disk full"))
    ));
    assert_eq!(p.unflushed(), Some(version(1)), "the tail is still there");
    assert!(matches!(
        p.advance(state, decoded(TestEvent::Added(2), 2)),
        Err(ProjectionError::Commit("disk full"))
    ));
    assert_eq!(p.checkpoint(), None);
}
