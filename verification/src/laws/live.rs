//! Laws of live subscriptions, over the calls that drive them.

use crate::envelope::{EventView, PersistedEnvelope};
use crate::log::{all_behind, count_upto, dense, ordered_behind, stream_of, LogEntry};
use crate::step::Step;
use crate::store::{all_row_view, optional_ordinal, AllPosition, RawEventStore, Store};
use crate::stream_key::StreamKey;
use crate::subscription::{
    all_step_views, catch_up, catch_up_all, scan_from, step_views, AllSubscription, Drained,
    LiveCursor, LoopAction, Phase, StreamSubscription, Subscription, CATCHUP_CHUNK,
};
use crate::version::{group_version, Version};
use crate::wake::{WakeRegistration, WakeSource};
use vstd::prelude::*;

verus! {

broadcast use group_version;

/// A subscription to which nothing comes reads, arms a wait, reads once more behind the same
/// position, marks the boundary and only then waits. Once woken it reads again from there.
pub proof fn quiet_subscription_arms_before_it_confirms<P: Copy, T>(
    from: Option<P>,
    fresh: LiveCursor<P>,
    first: &mut LiveCursor<P>,
    arming: &mut LiveCursor<P>,
    second: &mut LiveCursor<P>,
    waking: &mut LiveCursor<P>,
    nothing: Vec<(P, T)>,
    before: Vec<Step<(P, T)>>,
    after: Vec<Step<(P, T)>>,
    actions: (LoopAction<P>, LoopAction<P>, LoopAction<P>, LoopAction<P>, LoopAction<P>),
    position: Option<P>,
)
    requires
        nothing@.len() == 0,
        call_ensures(LiveCursor::<P>::new, (from,), fresh),
        call_ensures(LiveCursor::<P>::next_action, (&fresh,), actions.0),
        *old(first) == fresh,
        call_ensures(LiveCursor::<P>::on_scan::<T>, (first, nothing), before),
        call_ensures(LiveCursor::<P>::next_action, (&*final(first),), actions.1),
        *old(arming) == *final(first),
        call_ensures(LiveCursor::<P>::on_armed, (arming,), ()),
        call_ensures(LiveCursor::<P>::next_action, (&*final(arming),), actions.2),
        *old(second) == *final(arming),
        call_ensures(LiveCursor::<P>::on_scan::<T>, (second, nothing), after),
        call_ensures(LiveCursor::<P>::next_action, (&*final(second),), actions.3),
        *old(waking) == *final(second),
        call_ensures(LiveCursor::<P>::on_wake, (waking,), ()),
        call_ensures(LiveCursor::<P>::next_action, (&*final(waking),), actions.4),
        call_ensures(LiveCursor::<P>::position, (&*final(waking),), position),
    ensures
        actions.0 == (LoopAction::Scan { behind: from }),
        before@.len() == 0,
        actions.1 == LoopAction::<P>::Arm,
        actions.2 == (LoopAction::Scan { behind: from }),
        after@.len() == 1,
        after@[0] is CaughtUp,
        actions.3 == LoopAction::<P>::Wait,
        actions.4 == (LoopAction::Scan { behind: from }),
        position == from,
{
}

/// A scan that finds rows hands them out as they are and in order, a chunk at the most, and goes on
/// strictly behind the last one that it handed out.
pub proof fn found_rows_are_handed_out<P: Copy, T>(
    cursor: &mut LiveCursor<P>,
    found: Vec<(P, T)>,
    r: Vec<Step<(P, T)>>,
    position: Option<P>,
    action: LoopAction<P>,
)
    requires
        found@.len() > 0,
        call_ensures(LiveCursor::<P>::on_scan::<T>, (cursor, found), r),
        call_ensures(LiveCursor::<P>::position, (&*final(cursor),), position),
        call_ensures(LiveCursor::<P>::next_action, (&*final(cursor),), action),
    ensures
        r@.len() == found@.len() || r@.len() == CATCHUP_CHUNK < found@.len(),
        r@.len() <= CATCHUP_CHUNK,
        forall|i: int|
            0 <= i < r@.len() ==> (#[trigger] r@[i] matches Step::Event(row) && row == found@[i]),
        position == Some(found@[r@.len() - 1].0),
        action == (LoopAction::Scan { behind: position }),
        final(cursor)@.announced == old(cursor)@.announced,
{
}

/// The boundary is marked by a scan that found nothing, alone and for the first time; from then on
/// it is marked, whatever the subscription does.
pub proof fn boundary_is_marked_once<P: Copy, T>(
    from: Option<P>,
    fresh: LiveCursor<P>,
    cursor: &mut LiveCursor<P>,
    found: Vec<(P, T)>,
    r: Vec<Step<(P, T)>>,
    arming: &mut LiveCursor<P>,
    waking: &mut LiveCursor<P>,
)
    requires
        call_ensures(LiveCursor::<P>::new, (from,), fresh),
        call_ensures(LiveCursor::<P>::on_scan::<T>, (cursor, found), r),
        call_ensures(LiveCursor::<P>::on_armed, (arming,), ()),
        call_ensures(LiveCursor::<P>::on_wake, (waking,), ()),
    ensures
        !fresh@.announced,
        (exists|i: int| 0 <= i < r@.len()
            && #[trigger] r@[i] is CaughtUp) <==> final(cursor)@.announced
            && !old(cursor)@.announced,
        (exists|i: int| 0 <= i < r@.len() && #[trigger] r@[i] is CaughtUp) ==> r@.len() == 1
            && found@.len() == 0,
        old(cursor)@.announced ==> final(cursor)@.announced,
        final(arming)@.announced == old(arming)@.announced,
        final(waking)@.announced == old(waking)@.announced,
        final(arming)@.position == old(arming)@.position,
        final(waking)@.position == old(waking)@.position,
{
    if found@.len() == 0 && final(cursor)@.announced && !old(cursor)@.announced {
        assert(r@[0] is CaughtUp);
    }
}

/// The version to read from lies one behind the version that a subscription stands behind; at the
/// beginning it is the first one, and behind the last one there is none.
pub proof fn scan_starts_one_behind(behind: Option<Version>, r: Option<Version>)
    requires
        call_ensures(scan_from, (behind,), r),
    ensures
        behind is None ==> (r matches Some(v) && v@ == 1),
        behind matches Some(b) ==> if b@ < u64::MAX {
            r matches Some(v) && v@ == b@ + 1
        } else {
            r is None
        },
{
}

/// How many events lie before a position; none before the beginning.
pub open spec fn passed(position: Option<Version>) -> nat {
    match position {
        Some(v) => v@,
        None => 0,
    }
}

/// How many of `n` events lie behind the first `start`.
pub open spec fn ahead(n: nat, start: nat) -> nat {
    if start <= n {
        (n - start) as nat
    } else {
        0
    }
}

/// The steps are the events of `stream` behind the first `start`, in order, and nothing but, up to
/// `k` of them.
pub open spec fn replays(
    steps: Seq<Step<PersistedEnvelope>>,
    stream: Seq<EventView>,
    start: nat,
    k: nat,
) -> bool {
    forall|i: int|
        0 <= i < k ==> (#[trigger] steps[i] matches Step::Event(env) && env@ == stream[start + i])
}

/// A run of a subscription to one stream hands out every event behind its position, once and in
/// order, then the boundary if it was not marked before, and comes to wait behind the last event. A
/// run that a failed read ends has handed out the first of them, stands behind these, and reads on
/// from there.
pub proof fn run_hands_out_what_lies_ahead<S: RawEventStore>(
    store: &S,
    id: &StreamKey,
    cursor: &mut LiveCursor<Version>,
    r: Drained<PersistedEnvelope, S::Error>,
    action: LoopAction<Version>,
)
    requires
        store.valid(),
        call_ensures(catch_up::<S>, (store, id, cursor), r),
        call_ensures(LiveCursor::<Version>::next_action, (&*final(cursor),), action),
    ensures
        ({
            let stream = stream_of(store.log(), id@);
            let start = passed(old(cursor)@.position);
            let k = ahead(stream.len(), start);
            let n = r.steps@.len();
            match r.failure {
                None => {
                    &&& n == k + (if old(cursor)@.announced {
                        0int
                    } else {
                        1
                    })
                    &&& replays(r.steps@, stream, start, k)
                    &&& !old(cursor)@.announced ==> r.steps@[k as int] is CaughtUp
                    &&& final(cursor)@.announced
                    &&& k > 0 ==> passed(final(cursor)@.position) == stream.len()
                    &&& k == 0 ==> final(cursor)@.position == old(cursor)@.position
                    &&& action is Wait
                },
                Some(_) => {
                    &&& n <= k
                    &&& replays(r.steps@, stream, start, n)
                    &&& action is Scan
                    &&& final(cursor)@.announced == old(cursor)@.announced
                    &&& n > 0 ==> passed(final(cursor)@.position) == start + n
                    &&& n == 0 ==> final(cursor)@.position == old(cursor)@.position
                },
            }
        }),
{
    store.valid_log();
    let stream = stream_of(store.log(), id@);
    assert(dense(stream, 0));
    let views = step_views(r.steps@);
    assert(views.len() == r.steps@.len());
    assert forall|i: int| 0 <= i < views.len() implies (match #[trigger] r.steps@[i] {
        Step::Event(env) => views[i] == Some(env@),
        Step::CaughtUp => views[i] is None,
    }) by {}
}

/// No gap and no duplicate: what a subscription hands out in one run and, once the stream has grown,
/// in the next, is together what lies ahead in the grown stream, with one boundary between the two.
pub proof fn two_runs_hand_out_what_one_would<S: RawEventStore>(
    store: &S,
    grown: &S,
    id: &StreamKey,
    cursor: &mut LiveCursor<Version>,
    first: Drained<PersistedEnvelope, S::Error>,
    later: &mut LiveCursor<Version>,
    second: Drained<PersistedEnvelope, S::Error>,
    actions: (LoopAction<Version>, LoopAction<Version>),
)
    requires
        store.valid(),
        grown.valid(),
        stream_of(store.log(), id@).is_prefix_of(stream_of(grown.log(), id@)),
        !old(cursor)@.announced,
        call_ensures(catch_up::<S>, (store, id, cursor), first),
        first.failure is None,
        *old(later) == *final(cursor),
        call_ensures(catch_up::<S>, (grown, id, later), second),
        second.failure is None,
        call_ensures(LiveCursor::<Version>::next_action, (&*final(cursor),), actions.0),
        call_ensures(LiveCursor::<Version>::next_action, (&*final(later),), actions.1),
    ensures
        ({
            let stream = stream_of(grown.log(), id@);
            let start = passed(old(cursor)@.position);
            let k = (first.steps@.len() - 1) as nat;
            &&& first.steps@.len() >= 1
            &&& k + second.steps@.len() == ahead(stream.len(), start)
            &&& replays(first.steps@, stream, start, k)
            &&& first.steps@[k as int] is CaughtUp
            &&& replays(second.steps@, stream, start + k, second.steps@.len())
        }),
{
    run_hands_out_what_lies_ahead(store, id, cursor, first, actions.0);
    run_hands_out_what_lies_ahead(grown, id, later, second, actions.1);
    let before = stream_of(store.log(), id@);
    let stream = stream_of(grown.log(), id@);
    assert(before =~= stream.take(before.len() as int));
}

/// The steps are rows of `log` from number `start` on, in order, up to `k` of them.
pub open spec fn replays_all<P: AllPosition>(
    steps: Seq<Step<(P, StreamKey, PersistedEnvelope)>>,
    log: Seq<LogEntry>,
    start: nat,
    k: nat,
) -> bool {
    forall|i: int|
        0 <= i < k ==> (#[trigger] steps[i] matches Step::Event(row) && {
            &&& row.0.ordinal() == log[start + i].position
            &&& row.1@ == log[start + i].key
            &&& row.2@ == log[start + i].event
        })
}

/// A run of a subscription to all streams hands out every row behind its position, once and in
/// order, then the boundary if it was not marked before, and comes to wait behind the last row. The
/// answer is the number of rows at or before its position.
pub proof fn run_hands_out_all_that_lies_ahead<S: RawEventStore>(
    store: &S,
    cursor: &mut LiveCursor<S::AllPosition>,
    r: Drained<(S::AllPosition, StreamKey, PersistedEnvelope), S::Error>,
    action: LoopAction<S::AllPosition>,
) -> (start: nat)
    requires
        store.valid(),
        call_ensures(catch_up_all::<S>, (store, cursor), r),
        call_ensures(LiveCursor::<S::AllPosition>::next_action, (&*final(cursor),), action),
    ensures
        start <= store.log().len(),
        forall|i: int|
            0 <= i < store.log().len() ==> (i < start <==> (old(cursor)@.position matches Some(p)
                && (#[trigger] store.log()[i]).position <= p.ordinal())),
        ({
            let log = store.log();
            let k = (log.len() - start) as nat;
            let n = r.steps@.len();
            match r.failure {
                None => {
                    &&& n == k + (if old(cursor)@.announced {
                        0int
                    } else {
                        1
                    })
                    &&& replays_all(r.steps@, log, start, k)
                    &&& !old(cursor)@.announced ==> r.steps@[k as int] is CaughtUp
                    &&& final(cursor)@.announced
                    &&& k > 0 ==> (final(cursor)@.position matches Some(p) && p.ordinal()
                        == log.last().position)
                    &&& k == 0 ==> final(cursor)@.position == old(cursor)@.position
                    &&& action is Wait
                },
                Some(_) => {
                    &&& n <= k
                    &&& replays_all(r.steps@, log, start, n)
                    &&& action is Scan
                    &&& final(cursor)@.announced == old(cursor)@.announced
                    &&& n > 0 ==> (final(cursor)@.position matches Some(p) && p.ordinal()
                        == log[start + n - 1].position)
                    &&& n == 0 ==> final(cursor)@.position == old(cursor)@.position
                },
            }
        }),
{
    store.valid_log();
    let log = store.log();
    let from = optional_ordinal(old(cursor)@.position);
    ordered_behind(log, from);
    let start = count_upto(log, from);
    let fresh = all_behind(log, from);
    assert(fresh.len() == log.len() - start);
    assert forall|i: int| 0 <= i < fresh.len() implies (#[trigger] fresh[i]) == log[start + i] by {}
    let views = all_step_views(r.steps@);
    assert(views.len() == r.steps@.len());
    assert forall|i: int| 0 <= i < views.len() implies (match #[trigger] r.steps@[i] {
        Step::Event(row) => views[i] == Some(all_row_view(row)),
        Step::CaughtUp => views[i] is None,
    }) by {}
    start
}

/// A subscription to one stream yields the events strictly behind the version it was opened with,
/// all of them for none, then the boundary; a second run over the same events yields nothing. Its
/// registration is the one it was given.
pub proof fn subscription_starts_strictly_behind<S: RawEventStore, Reg, E>(
    store: &Store<S>,
    handle: Subscription<S>,
    registration: Reg,
    id: &StreamKey,
    from: Option<Version>,
    opened: Result<StreamSubscription<S, Reg>, E>,
    live: &mut StreamSubscription<S, Reg>,
    first: Drained<PersistedEnvelope, S::Error>,
    again: &mut StreamSubscription<S, Reg>,
    second: Drained<PersistedEnvelope, S::Error>,
    kept: &Reg,
)
    requires
        store.backend().valid(),
        call_ensures(Subscription::<S>::new, (store,), handle),
        call_ensures(
            Subscription::<S>::subscribe_with::<Reg, E>,
            (&handle, Ok::<Reg, E>(registration), id, from),
            opened,
        ),
        opened matches Ok(subscription) ==> *old(live) == subscription,
        call_ensures(StreamSubscription::<S, Reg>::drain, (live,), first),
        first.failure is None,
        *old(again) == *final(live),
        call_ensures(StreamSubscription::<S, Reg>::drain, (again,), second),
        second.failure is None,
        call_ensures(StreamSubscription::<S, Reg>::registration, (&*final(again),), kept),
    ensures
        opened is Ok,
        *kept == registration,
        ({
            let stream = stream_of(store.backend().log(), id@);
            let k = ahead(stream.len(), passed(from));
            &&& first.steps@.len() == k + 1
            &&& replays(first.steps@, stream, passed(from), k)
            &&& first.steps@[k as int] is CaughtUp
            &&& second.steps@.len() == 0
        }),
{
    store.backend().valid_log();
    let stream = stream_of(store.backend().log(), id@);
    assert(dense(stream, 0));
    assert(step_views(first.steps@).len() == first.steps@.len());
    assert(step_views(second.steps@).len() == second.steps@.len());
    let views = step_views(first.steps@);
    assert forall|i: int| 0 <= i < views.len() implies (match #[trigger] first.steps@[i] {
        Step::Event(env) => views[i] == Some(env@),
        Step::CaughtUp => views[i] is None,
    }) by {}
}

/// A subscription to all streams yields the rows strictly behind the position it was opened with,
/// all of them for none, then the boundary; a second run over the same rows yields nothing. The
/// answer is the number of rows at or before that position.
pub proof fn all_subscription_starts_strictly_behind<S: RawEventStore, Reg, E>(
    store: &Store<S>,
    handle: Subscription<S>,
    registration: Reg,
    from: Option<S::AllPosition>,
    opened: Result<AllSubscription<S, Reg>, E>,
    live: &mut AllSubscription<S, Reg>,
    first: Drained<(S::AllPosition, StreamKey, PersistedEnvelope), S::Error>,
    again: &mut AllSubscription<S, Reg>,
    second: Drained<(S::AllPosition, StreamKey, PersistedEnvelope), S::Error>,
    kept: &Reg,
) -> (start: nat)
    requires
        store.backend().valid(),
        call_ensures(Subscription::<S>::new, (store,), handle),
        call_ensures(
            Subscription::<S>::subscribe_all_with::<Reg, E>,
            (&handle, Ok::<Reg, E>(registration), from),
            opened,
        ),
        opened matches Ok(subscription) ==> *old(live) == subscription,
        call_ensures(AllSubscription::<S, Reg>::drain, (live,), first),
        first.failure is None,
        *old(again) == *final(live),
        call_ensures(AllSubscription::<S, Reg>::drain, (again,), second),
        second.failure is None,
        call_ensures(AllSubscription::<S, Reg>::registration, (&*final(again),), kept),
    ensures
        opened is Ok,
        *kept == registration,
        start <= store.backend().log().len(),
        forall|i: int|
            0 <= i < store.backend().log().len() ==> (i < start <==> (from matches Some(p) && (
            #[trigger] store.backend().log()[i]).position <= p.ordinal())),
        ({
            let log = store.backend().log();
            let k = (log.len() - start) as nat;
            &&& first.steps@.len() == k + 1
            &&& replays_all(first.steps@, log, start, k)
            &&& first.steps@[k as int] is CaughtUp
            &&& second.steps@.len() == 0
        }),
{
    store.backend().valid_log();
    let log = store.backend().log();
    let bound = optional_ordinal(from);
    ordered_behind(log, bound);
    let start = count_upto(log, bound);
    let fresh = all_behind(log, bound);
    assert(fresh.len() == log.len() - start);
    assert forall|i: int| 0 <= i < fresh.len() implies (#[trigger] fresh[i]) == log[start + i] by {}
    let views = all_step_views(first.steps@);
    assert(views.len() == first.steps@.len());
    assert forall|i: int| 0 <= i < views.len() implies (match #[trigger] first.steps@[i] {
        Step::Event(row) => views[i] == Some(all_row_view(row)),
        Step::CaughtUp => views[i] is None,
    }) by {}
    let reached = optional_ordinal(old(again).cursor().position);
    ordered_behind(log, reached);
    if fresh.len() > 0 {
        assert(reached == Some(log.last().position));
        assert(log[log.len() - 1].position == log.last().position);
    }
    assert(all_behind(log, reached).len() == 0);
    assert(all_step_views(second.steps@).len() == second.steps@.len());
    start
}

/// A registration that failed fails the subscription, with the error it failed with.
pub proof fn failed_registration_fails_the_subscription<S: RawEventStore, Reg, E>(
    handle: Subscription<S>,
    e: E,
    id: &StreamKey,
    from: Option<Version>,
    one: Result<StreamSubscription<S, Reg>, E>,
    behind: Option<S::AllPosition>,
    all: Result<AllSubscription<S, Reg>, E>,
)
    requires
        call_ensures(
            Subscription::<S>::subscribe_with::<Reg, E>,
            (&handle, Err::<Reg, E>(e), id, from),
            one,
        ),
        call_ensures(
            Subscription::<S>::subscribe_all_with::<Reg, E>,
            (&handle, Err::<Reg, E>(e), behind),
            all,
        ),
    ensures
        one matches Err(given) && given == e,
        all matches Err(given) && given == e,
{
}

/// A subscription that registers itself starts where one does that was handed its registration: at
/// the version it was opened with, with the boundary ahead. Its registration has seen what is
/// announced for the stream at that moment, on the channel where it is announced.
pub proof fn subscribing_registers_for_the_stream<S: RawEventStore, W: WakeSource>(
    handle: Subscription<S>,
    wakes: &mut W,
    id: &StreamKey,
    from: Option<Version>,
    subscription: StreamSubscription<S, W::Registration>,
)
    requires
        call_ensures(
            Subscription::<S>::subscribe::<W>,
            (&handle, wakes, id, from),
            Ok::<StreamSubscription<S, W::Registration>, W::Error>(subscription),
        ),
    ensures
        subscription.backend() == handle.backend(),
        subscription.key() == id@,
        subscription.cursor().position == from,
        !subscription.cursor().announced,
        subscription.cursor().phase == Phase::Scanning,
        final(wakes).announced(Some(id@)) matches Some(announcement) && announcement.channel
            == subscription.registered().channel() && announcement.shown
            == subscription.registered().seen(),
{
}

/// The same for all streams.
pub proof fn subscribing_registers_for_all_streams<S: RawEventStore, W: WakeSource>(
    handle: Subscription<S>,
    wakes: &mut W,
    from: Option<S::AllPosition>,
    subscription: AllSubscription<S, W::Registration>,
)
    requires
        call_ensures(
            Subscription::<S>::subscribe_all::<W>,
            (&handle, wakes, from),
            Ok::<AllSubscription<S, W::Registration>, W::Error>(subscription),
        ),
    ensures
        subscription.backend() == handle.backend(),
        subscription.cursor().position == from,
        !subscription.cursor().announced,
        subscription.cursor().phase == Phase::Scanning,
        final(wakes).announced(None) matches Some(announcement) && announcement.channel
            == subscription.registered().channel() && announcement.shown
            == subscription.registered().seen(),
{
}

/// A drain that a failed read ends has handed out the first events owed, keeps its place behind
/// them, and marks no boundary.
pub proof fn failed_drain_keeps_its_place<S: RawEventStore, Reg>(
    live: &mut StreamSubscription<S, Reg>,
    r: Drained<PersistedEnvelope, S::Error>,
)
    requires
        old(live).backend().valid(),
        call_ensures(StreamSubscription::<S, Reg>::drain, (live,), r),
        r.failure is Some,
    ensures
        ({
            let stream = stream_of(old(live).backend().log(), old(live).key());
            let start = passed(old(live).cursor().position);
            let n = r.steps@.len();
            &&& n <= ahead(stream.len(), start)
            &&& replays(r.steps@, stream, start, n)
            &&& final(live).cursor().announced == old(live).cursor().announced
            &&& n > 0 ==> passed(final(live).cursor().position) == start + n
            &&& n == 0 ==> final(live).cursor().position == old(live).cursor().position
            &&& final(live).key() == old(live).key()
            &&& final(live).backend() == old(live).backend()
        }),
{
    old(live).backend().valid_log();
    let stream = stream_of(old(live).backend().log(), old(live).key());
    assert(dense(stream, 0));
    let views = step_views(r.steps@);
    assert(views.len() == r.steps@.len());
    assert forall|i: int| 0 <= i < views.len() implies (match #[trigger] r.steps@[i] {
        Step::Event(env) => views[i] == Some(env@),
        Step::CaughtUp => views[i] is None,
    }) by {}
}

} // verus!
