//! Subscriptions: replay the backlog, mark the boundary once, then follow live events.
//!
//! A cursor decides what the loop does next and what it hands out; whoever drives the loop scans
//! the store, arms the wait and waits. The wait is armed before the scan that confirms there is
//! nothing new, so a commit between the two ends the wait.

use crate::envelope::{persisted_views, EventView, PersistedEnvelope};
use crate::log::{
    all_behind, behind, dense, dense_from_version, ordered, resumed_behind, stream_of, LogEntry,
};
use crate::step::Step;
use crate::store::{
    all_row_view, all_row_views, optional_ordinal, share, AllPosition, RawEventStore, Store,
};
use crate::stream_key::StreamKey;
use crate::version::{group_version, version_at, version_behind, Version};
use crate::wake::{Announcement, WakeRegistration, WakeSource};
use std::sync::Arc;
use vstd::prelude::*;

verus! {

broadcast use group_version;

/// The most rows that are handed out between two scans.
pub const CATCHUP_CHUNK: usize = 1024;

/// What a subscription's loop is about to do.
#[derive(Clone, Copy, Debug, PartialEq, Eq, Structural)]
pub enum Phase {
    /// Scan for rows.
    Scanning,
    /// Nothing was found: arm a wait.
    Arming,
    /// The wait is armed: scan once more.
    Confirming,
    /// Still nothing: wait.
    Idle,
}

/// What the driver of a subscription is to do next.
#[derive(Debug, PartialEq, Eq)]
pub enum LoopAction<P> {
    /// Read the rows strictly behind a position, all of them for `None`.
    Scan {
        /// The last position handed out.
        behind: Option<P>,
    },
    /// Arm a wait.
    Arm,
    /// Wait on the armed wait.
    Wait,
}

/// Where a subscription stands.
#[derive(Debug, PartialEq, Eq)]
pub struct LiveCursor<P> {
    position: Option<P>,
    phase: Phase,
    announced: bool,
}

/// Where a subscription stands, as a value.
pub struct CursorView<P> {
    pub position: Option<P>,
    pub phase: Phase,
    pub announced: bool,
}

impl<P> View for LiveCursor<P> {
    type V = CursorView<P>;

    closed spec fn view(&self) -> CursorView<P> {
        CursorView { position: self.position, phase: self.phase, announced: self.announced }
    }
}

/// What the driver is to do next.
pub open spec fn action_of<P>(c: CursorView<P>) -> LoopAction<P> {
    match c.phase {
        Phase::Scanning => LoopAction::Scan { behind: c.position },
        Phase::Confirming => LoopAction::Scan { behind: c.position },
        Phase::Arming => LoopAction::Arm,
        Phase::Idle => LoopAction::Wait,
    }
}

/// The rows that one scan hands out: at most a chunk of what it found.
pub open spec fn chunk_of<T>(found: Seq<T>) -> Seq<T> {
    if found.len() <= CATCHUP_CHUNK {
        found
    } else {
        found.take(CATCHUP_CHUNK as int)
    }
}

/// The cursor behind a scan.
pub open spec fn scanned<P, T>(c: CursorView<P>, found: Seq<(P, T)>) -> CursorView<P> {
    if found.len() > 0 {
        CursorView { position: Some(chunk_of(found).last().0), phase: Phase::Scanning, ..c }
    } else if c.phase == Phase::Scanning {
        CursorView { phase: Phase::Arming, ..c }
    } else {
        CursorView { phase: Phase::Idle, announced: true, ..c }
    }
}

/// What a scan hands out: its rows, or the boundary where a confirming scan found nothing for the
/// first time.
pub open spec fn handed_out<P, T>(c: CursorView<P>, found: Seq<(P, T)>) -> Seq<Step<(P, T)>> {
    if found.len() > 0 {
        Seq::new(chunk_of(found).len(), |i: int| Step::Event(chunk_of(found)[i]))
    } else if c.phase != Phase::Scanning && !c.announced {
        seq![Step::CaughtUp]
    } else {
        Seq::empty()
    }
}

impl<P: Copy> LiveCursor<P> {
    /// A subscription that starts strictly behind `from`, at the very beginning for `None`.
    pub fn new(from: Option<P>) -> (r: LiveCursor<P>)
        ensures
            r@ == opened(from),
    {
        LiveCursor { position: from, phase: Phase::Scanning, announced: false }
    }

    /// The last position handed out, or the one the subscription started behind.
    pub fn position(&self) -> (r: Option<P>)
        ensures
            r == self@.position,
    {
        self.position
    }

    /// What to do next.
    pub fn next_action(&self) -> (r: LoopAction<P>)
        ensures
            r == action_of(self@),
    {
        match self.phase {
            Phase::Scanning => LoopAction::Scan { behind: self.position },
            Phase::Confirming => LoopAction::Scan { behind: self.position },
            Phase::Arming => LoopAction::Arm,
            Phase::Idle => LoopAction::Wait,
        }
    }

    /// Takes note that the wait is armed.
    pub fn on_armed(&mut self)
        requires
            action_of(old(self)@) is Arm,
        ensures
            final(self)@ == (CursorView { phase: Phase::Confirming, ..old(self)@ }),
    {
        self.phase = Phase::Confirming;
    }

    /// Takes note that the wait ended.
    pub fn on_wake(&mut self)
        requires
            action_of(old(self)@) is Wait,
        ensures
            final(self)@ == (CursorView { phase: Phase::Scanning, ..old(self)@ }),
    {
        self.phase = Phase::Scanning;
    }

    /// Takes the rows that a scan found and answers what to hand out.
    pub fn on_scan<T>(&mut self, found: Vec<(P, T)>) -> (r: Vec<Step<(P, T)>>)
        requires
            action_of(old(self)@) is Scan,
        ensures
            final(self)@ == scanned(old(self)@, found@),
            r@ == handed_out(old(self)@, found@),
    {
        let mut out: Vec<Step<(P, T)>> = Vec::new();
        if found.len() == 0 {
            match self.phase {
                Phase::Scanning => {
                    self.phase = Phase::Arming;
                },
                _ => {
                    self.phase = Phase::Idle;
                    if !self.announced {
                        self.announced = true;
                        out.push(Step::CaughtUp);
                    }
                },
            }
            assert(out@ =~= handed_out(old(self)@, found@));
            return out;
        }
        let ghost all = found@;
        let mut found: Vec<(P, T)> = found;
        if found.len() > CATCHUP_CHUNK {
            found.truncate(CATCHUP_CHUNK);
            assert(found@ =~= all.take(CATCHUP_CHUNK as int));
        }
        let ghost kept = found@;
        assert(kept == chunk_of(all));
        self.position = Some(found[found.len() - 1].0);
        self.phase = Phase::Scanning;
        for row in it: found
            invariant
                it.seq() == kept,
                out@.len() == it.index(),
                forall|j: int|
                    0 <= j < out@.len() ==> (#[trigger] out@[j]) == Step::Event(kept[j]),
        {
            out.push(Step::Event(row));
        }
        assert(out@ =~= handed_out(old(self)@, all));
        out
    }
}

/// The number of a version a subscription stands behind; 0 at the beginning.
pub open spec fn stood_behind(position: Option<Version>) -> nat {
    match position {
        Some(v) => v@,
        None => 0,
    }
}

/// What a stream's steps carry: `None` is the boundary.
pub open spec fn step_views(steps: Seq<Step<PersistedEnvelope>>) -> Seq<Option<EventView>> {
    Seq::new(
        steps.len(),
        |i: int|
            match steps[i] {
                Step::Event(env) => Some(env@),
                Step::CaughtUp => None,
            },
    )
}

/// The steps that a subscription owes: the events, then the boundary if it was not marked yet.
pub open spec fn owed<T>(events: Seq<T>, announced: bool) -> Seq<Option<T>> {
    let replay = Seq::new(events.len(), |i: int| Some(events[i]));
    if announced {
        replay
    } else {
        replay.push(None)
    }
}

/// A step without the position tag beside its event.
pub open spec fn untagged<P, T>(step: Step<(P, T)>) -> Step<T> {
    match step {
        Step::Event(row) => Step::Event(row.1),
        Step::CaughtUp => Step::CaughtUp,
    }
}

/// The rank of a phase: how many steps it is from waiting when nothing is found.
spec fn rank(phase: Phase) -> nat {
    match phase {
        Phase::Scanning => 3,
        Phase::Arming => 2,
        Phase::Confirming => 1,
        Phase::Idle => 0,
    }
}

/// The events of `stream` behind the first `n`.
pub open spec fn left_of<T>(stream: Seq<T>, n: nat) -> Seq<T> {
    if n <= stream.len() {
        stream.skip(n as int)
    } else {
        Seq::empty()
    }
}

/// The version from which a stream is read strictly behind `behind`. `None` where no version comes
/// behind it: there is nothing to read then.
pub fn scan_from(behind: Option<Version>) -> (r: Option<Version>)
    ensures
        r == version_behind(behind),
{
    match behind {
        None => Some(Version::initial()),
        Some(version) => version.next(),
    }
}

/// What a run of a subscription's loop handed out, and the read failure that ended it, if one did.
#[derive(Debug)]
pub struct Drained<T, E> {
    /// The steps, in order.
    pub steps: Vec<Step<T>>,
    /// The failure.
    pub failure: Option<E>,
}

/// Runs the loop of a subscription to one stream until it would wait.
///
/// Hands out every event behind the cursor's position, in order and once, then the boundary if this
/// is the first time the backlog is drained. Where a read fails, what was handed out up to there
/// are the first events owed, and the cursor stands behind them.
pub fn catch_up<S: RawEventStore>(
    store: &S,
    id: &StreamKey,
    cursor: &mut LiveCursor<Version>,
) -> (r: Drained<PersistedEnvelope, S::Error>)
    requires
        store.valid(),
    ensures
        ({
            let stream = stream_of(store.log(), id@);
            let start = stood_behind(old(cursor)@.position);
            let fresh = left_of(stream, start);
            match r.failure {
                None => {
                    &&& step_views(r.steps@) == owed(fresh, old(cursor)@.announced)
                    &&& final(cursor)@.phase == Phase::Idle
                    &&& final(cursor)@.announced
                    &&& final(cursor)@.position == (if fresh.len() > 0 {
                        Some(version_at(stream.len()))
                    } else {
                        old(cursor)@.position
                    })
                },
                Some(e) => {
                    let n = r.steps@.len();
                    &&& n <= fresh.len()
                    &&& step_views(r.steps@) == owed(fresh.take(n as int), true)
                    &&& action_of(final(cursor)@) is Scan
                    &&& final(cursor)@.announced == old(cursor)@.announced
                    &&& final(cursor)@.position == (if n > 0 {
                        Some(version_at(start + n))
                    } else {
                        old(cursor)@.position
                    })
                    &&& exists|version: Version, reply: Result<Vec<PersistedEnvelope>, S::Error>|
                        reply == Err::<Vec<PersistedEnvelope>, S::Error>(e)
                            && #[trigger] call_ensures(
                            S::read_stream,
                            (store, id, version),
                            reply,
                        )
                },
            }
        }),
{
    proof {
        store.valid_log();
    }
    if let LoopAction::Wait = cursor.next_action() {
        cursor.on_wake();
    }
    let ghost stream = stream_of(store.log(), id@);
    let ghost start = stood_behind(cursor@.position);
    let ghost announced = cursor@.announced;
    let ghost first = cursor@.position;
    let mut out: Vec<Step<PersistedEnvelope>> = Vec::new();
    assert(dense(stream, 0));
    assert(step_views(out@) =~= Seq::empty());
    assert(stream.subrange(0, 0) =~= Seq::empty());
    loop
        invariant
            store.valid(),
            dense(stream, 0),
            stream.len() <= u64::MAX,
            stream == stream_of(store.log(), id@),
            start == stood_behind(first),
            first == old(cursor)@.position,
            announced == old(cursor)@.announced,
            start <= stood_behind(cursor@.position),
            stood_behind(cursor@.position) == start || stood_behind(cursor@.position)
                <= stream.len(),
            stood_behind(cursor@.position) == start ==> cursor@.position == first,
            cursor@.phase == Phase::Idle ==> cursor@.announced && stood_behind(cursor@.position)
                >= stream.len(),
            cursor@.phase != Phase::Idle ==> cursor@.announced == announced,
            step_views(out@) == (if cursor@.phase == Phase::Idle {
                owed(
                    left_of(stream, start).take(stood_behind(cursor@.position) - start),
                    announced,
                )
            } else {
                owed(left_of(stream, start).take(stood_behind(cursor@.position) - start), true)
            }),
        decreases left_of(stream, stood_behind(cursor@.position)).len(), rank(cursor@.phase),
    {
        let ghost here = cursor@;
        let ghost p = stood_behind(here.position);
        match cursor.next_action() {
            LoopAction::Wait => {
                proof {
                    let fresh = left_of(stream, start);
                    assert(fresh.take(p - start) =~= fresh);
                    if fresh.len() > 0 {
                        assert(p == stream.len());
                        assert(here.position is Some);
                        assert(here.position->0@ == stream.len());
                    }
                }
                return Drained { steps: out, failure: None };
            },
            LoopAction::Arm => {
                cursor.on_armed();
            },
            LoopAction::Scan { behind } => {
                let rows: Vec<PersistedEnvelope> = match scan_from(behind) {
                    None => Vec::new(),
                    Some(version) => {
                        let reply: Result<Vec<PersistedEnvelope>, S::Error> = store.read_stream(
                            id,
                            version,
                        );
                        assert(call_ensures(S::read_stream, (store, id, version), reply));
                        match reply {
                            Ok(rows) => rows,
                            Err(e) => {
                                assert(step_views(out@).len() == out@.len());
                                return Drained { steps: out, failure: Some(e) };
                            },
                        }
                    },
                };
                proof {
                    dense_from_version(stream, p + 1);
                    assert(persisted_views(rows@) =~= left_of(stream, p));
                }
                let mut found: Vec<(Version, PersistedEnvelope)> = Vec::new();
                let ghost read = rows@;
                for row in it: rows
                    invariant
                        it.seq() == read,
                        found@.len() == it.index(),
                        forall|j: int|
                            0 <= j < found@.len() ==> (#[trigger] found@[j]).1 == read[j]
                                && found@[j].0@ == read[j]@.version,
                {
                    found.push((row.version(), row));
                }
                let ghost paired = found@;
                let steps: Vec<Step<(Version, PersistedEnvelope)>> = cursor.on_scan(found);
                let ghost given = steps@;
                let ghost before = out@;
                for step in it: steps
                    invariant
                        it.seq() == given,
                        out@.len() == before.len() + it.index(),
                        forall|j: int| 0 <= j < before.len() ==> (#[trigger] out@[j]) == before[j],
                        forall|j: int|
                            before.len() <= j < out@.len() ==> (#[trigger] out@[j]) == untagged(
                                given[j - before.len()],
                            ),
                {
                    match step {
                        Step::Event(row) => {
                            out.push(Step::Event(row.1));
                        },
                        Step::CaughtUp => {
                            out.push(Step::CaughtUp);
                        },
                    }
                }
                proof {
                    let fresh = left_of(stream, start);
                    let kept = chunk_of(paired);
                    let n = kept.len();
                    if paired.len() > 0 {
                        assert(paired.len() == stream.len() - p);
                        let q = stood_behind(cursor@.position);
                        assert(kept.last() == paired[n - 1]);
                        assert(persisted_views(read)[n - 1] == stream[p + n - 1]);
                        assert(q == p + n);
                        assert(fresh.take(p - start).len() == p - start);
                        assert(step_views(before).len() == p - start);
                        assert(step_views(out@) =~= owed(fresh.take(q - start), true)) by {
                            assert forall|j: int| 0 <= j < step_views(out@).len() implies (
                            #[trigger] step_views(out@)[j]) == owed(
                                fresh.take(q - start),
                                true,
                            )[j] by {
                                if j < before.len() {
                                    assert(step_views(before)[j] == step_views(out@)[j]);
                                    assert(step_views(before)[j] == Some(
                                        fresh.take(p - start)[j],
                                    ));
                                } else {
                                    let k = j - before.len();
                                    assert(given[k] == Step::Event(kept[k]));
                                    assert(out@[j] == Step::Event(kept[k].1));
                                    assert(persisted_views(read)[k] == read[k]@);
                                    assert(read[k]@ == stream[p + k]);
                                }
                            }
                        }
                    } else {
                        assert(left_of(stream, p).len() == 0);
                        if cursor@.phase == Phase::Idle && !announced {
                            assert(given.len() == 1 && given[0] == Step::<
                                (Version, PersistedEnvelope),
                            >::CaughtUp);
                            assert(out@[before.len() as int] == Step::<PersistedEnvelope>::CaughtUp);
                            assert(step_views(out@) =~= step_views(before).push(None));
                        } else {
                            assert(given.len() == 0);
                            assert(out@ =~= before);
                        }
                    }
                }
            },
        }
    }
}

/// What the steps of an all-streams subscription carry: `None` is the boundary.
pub open spec fn all_step_views<P: AllPosition>(
    steps: Seq<Step<(P, StreamKey, PersistedEnvelope)>>,
) -> Seq<Option<LogEntry>> {
    Seq::new(
        steps.len(),
        |i: int|
            match steps[i] {
                Step::Event(row) => Some(all_row_view(row)),
                Step::CaughtUp => None,
            },
    )
}

/// Runs the loop of a subscription to all streams until it would wait.
///
/// Hands out every row behind the cursor's position, in order and once, then the boundary if this
/// is the first time the backlog is drained. Where a read fails, what was handed out up to there
/// are the first rows owed, and the cursor stands behind them.
pub fn catch_up_all<S: RawEventStore>(store: &S, cursor: &mut LiveCursor<S::AllPosition>) -> (r:
    Drained<(S::AllPosition, StreamKey, PersistedEnvelope), S::Error>)
    requires
        store.valid(),
    ensures
        ({
            let fresh = all_behind(store.log(), optional_ordinal(old(cursor)@.position));
            match r.failure {
                None => {
                    &&& all_step_views(r.steps@) == owed(fresh, old(cursor)@.announced)
                    &&& final(cursor)@.phase == Phase::Idle
                    &&& final(cursor)@.announced
                    &&& if fresh.len() > 0 {
                        optional_ordinal(final(cursor)@.position) == Some(fresh.last().position)
                    } else {
                        final(cursor)@.position == old(cursor)@.position
                    }
                },
                Some(e) => {
                    let n = r.steps@.len();
                    &&& n <= fresh.len()
                    &&& all_step_views(r.steps@) == owed(fresh.take(n as int), true)
                    &&& action_of(final(cursor)@) is Scan
                    &&& final(cursor)@.announced == old(cursor)@.announced
                    &&& if n > 0 {
                        optional_ordinal(final(cursor)@.position) == Some(fresh[n - 1].position)
                    } else {
                        final(cursor)@.position == old(cursor)@.position
                    }
                    &&& exists|
                        from: Option<S::AllPosition>,
                        reply: Result<
                            Vec<(S::AllPosition, StreamKey, PersistedEnvelope)>,
                            S::Error,
                        >,
                    |
                        reply == Err::<
                            Vec<(S::AllPosition, StreamKey, PersistedEnvelope)>,
                            S::Error,
                        >(e) && #[trigger] call_ensures(S::read_all, (store, from), reply)
                },
            }
        }),
{
    proof {
        store.valid_log();
    }
    if let LoopAction::Wait = cursor.next_action() {
        cursor.on_wake();
    }
    let ghost log = store.log();
    let ghost fresh = all_behind(log, optional_ordinal(cursor@.position));
    let ghost announced = cursor@.announced;
    let ghost mut k: int = 0;
    let mut out: Vec<Step<(S::AllPosition, StreamKey, PersistedEnvelope)>> = Vec::new();
    assert(all_step_views(out@) =~= owed(fresh.take(0), true));
    assert(fresh.skip(0) =~= fresh);
    loop
        invariant
            store.valid(),
            log == store.log(),
            ordered(log),
            fresh == all_behind(log, optional_ordinal(old(cursor)@.position)),
            announced == old(cursor)@.announced,
            0 <= k <= fresh.len(),
            all_behind(log, optional_ordinal(cursor@.position)) == fresh.skip(k),
            k == 0 ==> cursor@.position == old(cursor)@.position,
            k > 0 ==> optional_ordinal(cursor@.position) == Some(fresh[k - 1].position),
            cursor@.phase == Phase::Idle ==> cursor@.announced && k == fresh.len(),
            cursor@.phase != Phase::Idle ==> cursor@.announced == announced,
            all_step_views(out@) == owed(
                fresh.take(k),
                cursor@.phase != Phase::Idle || announced,
            ),
        decreases fresh.len() - k, rank(cursor@.phase),
    {
        match cursor.next_action() {
            LoopAction::Wait => {
                assert(fresh.take(k) =~= fresh);
                return Drained { steps: out, failure: None };
            },
            LoopAction::Arm => {
                cursor.on_armed();
            },
            LoopAction::Scan { behind } => {
                let reply: Result<
                    Vec<(S::AllPosition, StreamKey, PersistedEnvelope)>,
                    S::Error,
                > = store.read_all(behind);
                assert(call_ensures(S::read_all, (store, behind), reply));
                let rows: Vec<(S::AllPosition, StreamKey, PersistedEnvelope)> = match reply {
                    Ok(rows) => rows,
                    Err(e) => {
                        assert(all_step_views(out@).len() == out@.len());
                        return Drained { steps: out, failure: Some(e) };
                    },
                };
                let ghost read = rows@;
                let mut found: Vec<
                    (S::AllPosition, (S::AllPosition, StreamKey, PersistedEnvelope)),
                > = Vec::new();
                for row in it: rows
                    invariant
                        it.seq() == read,
                        found@.len() == it.index(),
                        forall|j: int|
                            0 <= j < found@.len() ==> (#[trigger] found@[j]) == (read[j].0, read[j]),
                {
                    found.push((row.0, row));
                }
                let ghost paired = found@;
                let steps: Vec<
                    Step<(S::AllPosition, (S::AllPosition, StreamKey, PersistedEnvelope))>,
                > = cursor.on_scan(found);
                let ghost given = steps@;
                let ghost before = out@;
                for step in it: steps
                    invariant
                        it.seq() == given,
                        out@.len() == before.len() + it.index(),
                        forall|j: int| 0 <= j < before.len() ==> (#[trigger] out@[j]) == before[j],
                        forall|j: int|
                            before.len() <= j < out@.len() ==> (#[trigger] out@[j]) == untagged(
                                given[j - before.len()],
                            ),
                {
                    match step {
                        Step::Event(row) => {
                            out.push(Step::Event(row.1));
                        },
                        Step::CaughtUp => {
                            out.push(Step::CaughtUp);
                        },
                    }
                }
                proof {
                    let kept = chunk_of(paired);
                    let n = kept.len();
                    assert(all_row_views(read) == fresh.skip(k));
                    assert(all_step_views(before).len() == k);
                    if paired.len() > 0 {
                        assert(kept.last() == paired[n - 1]);
                        assert(all_row_views(read)[n - 1] == fresh[k + n - 1]);
                        resumed_behind(log, optional_ordinal(old(cursor)@.position), k + n);
                        assert(all_step_views(out@) =~= owed(fresh.take(k + n), true)) by {
                            assert forall|j: int|
                                0 <= j < all_step_views(out@).len() implies (
                            #[trigger] all_step_views(out@)[j]) == owed(
                                fresh.take(k + n),
                                true,
                            )[j] by {
                                if j < before.len() {
                                    assert(all_step_views(before)[j] == all_step_views(out@)[j]);
                                    assert(all_step_views(before)[j] == Some(fresh.take(k)[j]));
                                } else {
                                    let m = j - before.len();
                                    assert(given[m] == Step::Event(kept[m]));
                                    assert(out@[j] == Step::Event(read[m]));
                                    assert(all_row_views(read)[m] == fresh[k + m]);
                                }
                            }
                        }
                        k = k + n;
                    } else {
                        assert(fresh.skip(k).len() == 0);
                        if cursor@.phase == Phase::Idle && !announced {
                            assert(given.len() == 1);
                            assert(out@[before.len() as int] == untagged(given[0]));
                            assert(all_step_views(out@) =~= all_step_views(before).push(None));
                        } else {
                            assert(given.len() == 0);
                            assert(out@ =~= before);
                        }
                    }
                }
            },
        }
    }
}

/// The handle that opens subscriptions on a store.
#[derive(Debug)]
pub struct Subscription<S> {
    store: Arc<S>,
}

impl<S> Subscription<S> {
    /// The backend that the subscriptions read.
    pub closed spec fn backend(&self) -> S {
        *self.store
    }

    /// The handle for the backend of `store`.
    pub fn new(store: &Store<S>) -> (r: Subscription<S>)
        ensures
            r.backend() == store.backend(),
    {
        Subscription { store: share(store.arc()) }
    }

    /// The backend.
    pub fn store(&self) -> (r: &Arc<S>)
        ensures
            **r == self.backend(),
    {
        &self.store
    }
}

/// A cursor that has not done anything yet.
pub open spec fn opened<P>(from: Option<P>) -> CursorView<P> {
    CursorView { position: from, phase: Phase::Scanning, announced: false }
}

impl<S: RawEventStore> Subscription<S> {
    /// Opens a subscription to one stream, strictly behind version `from`, or from the beginning
    /// for `None`. Registers with `wakes`, to which the commits of the store are announced, before
    /// anything is read.
    pub fn subscribe<W: WakeSource>(
        &self,
        wakes: &mut W,
        id: &StreamKey,
        from: Option<Version>,
    ) -> (r: Result<StreamSubscription<S, W::Registration>, W::Error>)
        requires
            old(wakes).ready(),
        ensures
            final(wakes).ready(),
            forall|target: Option<Seq<u8>>|
                old(wakes).announced(target) is Some ==> #[trigger] final(wakes).announced(target)
                    == old(wakes).announced(target),
            r matches Err(e) ==> old(wakes).register_fails(Some(id@), e),
            r matches Ok(subscription) ==> {
                &&& subscription.backend() == self.backend()
                &&& subscription.key() == id@
                &&& subscription.cursor() == opened(from)
                &&& final(wakes).announced(Some(id@)) == Some(
                    Announcement {
                        channel: subscription.registered().channel(),
                        shown: subscription.registered().seen(),
                    },
                )
            },
    {
        let registration: Result<W::Registration, W::Error> = wakes.register(Some(id.as_bytes()));
        self.subscribe_with(registration, id, from)
    }

    /// A subscription to one stream, once its registration was asked for: a registration that
    /// failed fails the subscription.
    pub fn subscribe_with<Reg, E>(
        &self,
        registration: Result<Reg, E>,
        id: &StreamKey,
        from: Option<Version>,
    ) -> (r: Result<StreamSubscription<S, Reg>, E>)
        ensures
            match registration {
                Ok(registration) => r matches Ok(subscription) && {
                    &&& subscription.backend() == self.backend()
                    &&& subscription.key() == id@
                    &&& subscription.cursor() == opened(from)
                    &&& subscription.registered() == registration
                },
                Err(e) => r == Err::<StreamSubscription<S, Reg>, E>(e),
            },
    {
        match registration {
            Ok(registration) => Ok(
                StreamSubscription {
                    store: share(&self.store),
                    id: id.clone(),
                    cursor: LiveCursor::new(from),
                    registration,
                },
            ),
            Err(e) => Err(e),
        }
    }

    /// Opens a subscription to all streams, strictly behind position `from`, or from the beginning
    /// for `None`. Registers with `wakes`, to which the commits of the store are announced, before
    /// anything is read.
    pub fn subscribe_all<W: WakeSource>(
        &self,
        wakes: &mut W,
        from: Option<S::AllPosition>,
    ) -> (r: Result<AllSubscription<S, W::Registration>, W::Error>)
        requires
            old(wakes).ready(),
        ensures
            final(wakes).ready(),
            forall|target: Option<Seq<u8>>|
                old(wakes).announced(target) is Some ==> #[trigger] final(wakes).announced(target)
                    == old(wakes).announced(target),
            r matches Err(e) ==> old(wakes).register_fails(None, e),
            r matches Ok(subscription) ==> {
                &&& subscription.backend() == self.backend()
                &&& subscription.cursor() == opened(from)
                &&& final(wakes).announced(None) == Some(
                    Announcement {
                        channel: subscription.registered().channel(),
                        shown: subscription.registered().seen(),
                    },
                )
            },
    {
        let registration: Result<W::Registration, W::Error> = wakes.register(None);
        self.subscribe_all_with(registration, from)
    }

    /// A subscription to all streams, once its registration was asked for: a registration that
    /// failed fails the subscription.
    pub fn subscribe_all_with<Reg, E>(
        &self,
        registration: Result<Reg, E>,
        from: Option<S::AllPosition>,
    ) -> (r: Result<AllSubscription<S, Reg>, E>)
        ensures
            match registration {
                Ok(registration) => r matches Ok(subscription) && {
                    &&& subscription.backend() == self.backend()
                    &&& subscription.cursor() == opened(from)
                    &&& subscription.registered() == registration
                },
                Err(e) => r == Err::<AllSubscription<S, Reg>, E>(e),
            },
    {
        match registration {
            Ok(registration) => Ok(
                AllSubscription {
                    store: share(&self.store),
                    cursor: LiveCursor::new(from),
                    registration,
                },
            ),
            Err(e) => Err(e),
        }
    }
}

/// A read of the stream `key` may fail with this error.
pub open spec fn stream_read_fails<S: RawEventStore>(
    store: S,
    key: Seq<u8>,
    error: S::Error,
) -> bool {
    exists|id: StreamKey, version: Version, reply: Result<Vec<PersistedEnvelope>, S::Error>|
        id@ == key && reply == Err::<Vec<PersistedEnvelope>, S::Error>(error)
            && #[trigger] call_ensures(S::read_stream, (&store, &id, version), reply)
}

/// A read of all streams may fail with this error.
pub open spec fn all_read_fails<S: RawEventStore>(store: S, error: S::Error) -> bool {
    exists|
        from: Option<S::AllPosition>,
        reply: Result<Vec<(S::AllPosition, StreamKey, PersistedEnvelope)>, S::Error>,
    |
        reply == Err::<Vec<(S::AllPosition, StreamKey, PersistedEnvelope)>, S::Error>(error)
            && #[trigger] call_ensures(S::read_all, (&store, from), reply)
}

/// A subscription to one stream, with its wake registration.
#[derive(Debug)]
pub struct StreamSubscription<S, Reg> {
    store: Arc<S>,
    id: StreamKey,
    cursor: LiveCursor<Version>,
    registration: Reg,
}

impl<S: RawEventStore, Reg> StreamSubscription<S, Reg> {
    /// The backend that the subscription reads.
    pub closed spec fn backend(&self) -> S {
        *self.store
    }

    /// The stream.
    pub closed spec fn key(&self) -> Seq<u8> {
        self.id@
    }

    /// Where the subscription stands.
    pub closed spec fn cursor(&self) -> CursorView<Version> {
        self.cursor@
    }

    /// The wake registration.
    pub closed spec fn registered(&self) -> Reg {
        self.registration
    }

    /// The wake registration, to wait on between two runs.
    pub fn registration(&self) -> (r: &Reg)
        ensures
            *r == self.registered(),
    {
        &self.registration
    }

    /// What the subscription yields until it would wait: every event behind its position, then the
    /// boundary if it is reached for the first time.
    pub fn drain(&mut self) -> (r: Drained<PersistedEnvelope, S::Error>)
        requires
            old(self).backend().valid(),
        ensures
            final(self).backend() == old(self).backend(),
            final(self).registered() == old(self).registered(),
            final(self).key() == old(self).key(),
            r.failure is None ==> {
                let stream = stream_of(old(self).backend().log(), old(self).key());
                let fresh = left_of(stream, stood_behind(old(self).cursor().position));
                &&& step_views(r.steps@) == owed(fresh, old(self).cursor().announced)
                &&& final(self).cursor() == (CursorView {
                    position: if fresh.len() > 0 {
                        Some(version_at(stream.len()))
                    } else {
                        old(self).cursor().position
                    },
                    phase: Phase::Idle,
                    announced: true,
                })
            },
            r.failure matches Some(e) ==> stream_read_fails(
                old(self).backend(),
                old(self).key(),
                e,
            ),
            r.failure is Some ==> {
                let stream = stream_of(old(self).backend().log(), old(self).key());
                let start = stood_behind(old(self).cursor().position);
                let n = r.steps@.len();
                &&& n <= left_of(stream, start).len()
                &&& step_views(r.steps@) == owed(left_of(stream, start).take(n as int), true)
                &&& action_of(final(self).cursor()) is Scan
                &&& final(self).cursor().announced == old(self).cursor().announced
                &&& final(self).cursor().position == (if n > 0 {
                    Some(version_at(start + n))
                } else {
                    old(self).cursor().position
                })
            },
    {
        catch_up(&*self.store, &self.id, &mut self.cursor)
    }
}

/// A subscription to all streams, with its wake registration.
#[derive(Debug)]
pub struct AllSubscription<S: RawEventStore, Reg> {
    store: Arc<S>,
    cursor: LiveCursor<S::AllPosition>,
    registration: Reg,
}

impl<S: RawEventStore, Reg> AllSubscription<S, Reg> {
    /// The backend that the subscription reads.
    pub closed spec fn backend(&self) -> S {
        *self.store
    }

    /// Where the subscription stands.
    pub closed spec fn cursor(&self) -> CursorView<S::AllPosition> {
        self.cursor@
    }

    /// The wake registration.
    pub closed spec fn registered(&self) -> Reg {
        self.registration
    }

    /// The wake registration, to wait on between two runs.
    pub fn registration(&self) -> (r: &Reg)
        ensures
            *r == self.registered(),
    {
        &self.registration
    }

    /// What the subscription yields until it would wait: every row behind its position, then the
    /// boundary if it is reached for the first time.
    pub fn drain(&mut self) -> (r: Drained<
        (S::AllPosition, StreamKey, PersistedEnvelope),
        S::Error,
    >)
        requires
            old(self).backend().valid(),
        ensures
            final(self).backend() == old(self).backend(),
            final(self).registered() == old(self).registered(),
            r.failure is None ==> {
                let fresh = all_behind(
                    old(self).backend().log(),
                    optional_ordinal(old(self).cursor().position),
                );
                &&& all_step_views(r.steps@) == owed(fresh, old(self).cursor().announced)
                &&& final(self).cursor().phase == Phase::Idle
                &&& final(self).cursor().announced
                &&& if fresh.len() > 0 {
                    optional_ordinal(final(self).cursor().position) == Some(fresh.last().position)
                } else {
                    final(self).cursor().position == old(self).cursor().position
                }
            },
            r.failure matches Some(e) ==> all_read_fails(old(self).backend(), e),
            r.failure is Some ==> {
                let fresh = all_behind(
                    old(self).backend().log(),
                    optional_ordinal(old(self).cursor().position),
                );
                let n = r.steps@.len();
                &&& n <= fresh.len()
                &&& all_step_views(r.steps@) == owed(fresh.take(n as int), true)
                &&& action_of(final(self).cursor()) is Scan
                &&& final(self).cursor().announced == old(self).cursor().announced
                &&& if n > 0 {
                    optional_ordinal(final(self).cursor().position) == Some(fresh[n - 1].position)
                } else {
                    final(self).cursor().position == old(self).cursor().position
                }
            },
    {
        catch_up_all(&*self.store, &mut self.cursor)
    }
}

} // verus!
