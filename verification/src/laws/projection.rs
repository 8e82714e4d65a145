//! Laws of projections: what is loaded, folded, committed and flushed.

use crate::decoded::Decoded;
use crate::domain::DomainEvent;
use crate::id::Id;
use crate::laws::snapshot::{snapshot_is_due_at_each_multiple, snapshot_reads_back};
use crate::projection::{
    starts, stream_ref, Folded, Positioned, Projection, ProjectionError, Projector,
};
use crate::state::{
    answers, name_views, saved, unchanged, AfterEventTypes, EveryNEvents, Hydrated, PersistTrigger,
    SnapshotStore,
};
use crate::store::AllPosition;
use crate::stream_key::StreamKey;
use crate::value::SchemaVersion;
use crate::version::Version;
use vstd::prelude::*;

verus! {

/// A snapshot that is found is resumed: the projection starts from the saved state, its checkpoint
/// is the position saved with it, nothing waits for a flush, and nothing is rebuilt. It is bound to
/// what it was given, whatever the schema version.
pub proof fn found_snapshot_is_resumed<
    I,
    P: Projector,
    Trig: PersistTrigger<Pos>,
    SS,
    Pos: Copy,
>(
    id: I,
    projector: P,
    trigger: Trig,
    store: SS,
    schema_version: SchemaVersion,
    position: Pos,
    saved: P::State,
    r: (Projection<I, P, Trig, SS, Pos>, P::State),
    checkpoint: Option<Pos>,
    waiting: Option<Pos>,
    discarded: Option<SchemaVersion>,
)
    requires
        call_ensures(
            Projection::<I, P, Trig, SS, Pos>::resume,
            (
                id,
                projector,
                trigger,
                store,
                schema_version,
                Hydrated::Found { position, state: saved },
            ),
            r,
        ),
        call_ensures(Projection::<I, P, Trig, SS, Pos>::checkpoint, (&r.0,), checkpoint),
        call_ensures(Projection::<I, P, Trig, SS, Pos>::unflushed, (&r.0,), waiting),
        call_ensures(Projection::<I, P, Trig, SS, Pos>::rebuilding_from, (&r.0,), discarded),
    ensures
        r.1 == saved,
        checkpoint == Some(position),
        waiting is None,
        discarded is None,
{
}

/// Without a usable snapshot a projection starts over: from the initial state and the beginning,
/// with nothing to flush. It tells of a stale snapshot, and of that alone, which schema version it
/// discarded.
pub proof fn missing_snapshot_starts_over<
    I,
    P: Projector,
    Trig: PersistTrigger<Pos>,
    SS,
    Pos: Copy,
>(
    id: I,
    projector: P,
    trigger: Trig,
    store: SS,
    schema_version: SchemaVersion,
    hydrated: Hydrated<P::State, Pos>,
    r: (Projection<I, P, Trig, SS, Pos>, P::State),
    checkpoint: Option<Pos>,
    waiting: Option<Pos>,
    discarded: Option<SchemaVersion>,
)
    requires
        !(hydrated is Found),
        call_ensures(
            Projection::<I, P, Trig, SS, Pos>::resume,
            (id, projector, trigger, store, schema_version, hydrated),
            r,
        ),
        call_ensures(Projection::<I, P, Trig, SS, Pos>::checkpoint, (&r.0,), checkpoint),
        call_ensures(Projection::<I, P, Trig, SS, Pos>::unflushed, (&r.0,), waiting),
        call_ensures(Projection::<I, P, Trig, SS, Pos>::rebuilding_from, (&r.0,), discarded),
    ensures
        call_ensures(P::initial, (&projector,), r.1),
        checkpoint is None,
        waiting is None,
        discarded is Some <==> hydrated is Stale,
        discarded matches Some(v) ==> hydrated == (Hydrated::<P::State, Pos>::Stale {
            stored_schema: v,
        }),
{
}

/// A projection is bound to the id, the schema version and the snapshot store that it was given.
pub proof fn projection_is_bound_to_what_it_was_given<
    I,
    P: Projector,
    Trig: PersistTrigger<Pos>,
    SS,
    Pos: Copy,
>(
    id: I,
    projector: P,
    trigger: Trig,
    store: SS,
    schema_version: SchemaVersion,
    hydrated: Hydrated<P::State, Pos>,
    r: (Projection<I, P, Trig, SS, Pos>, P::State),
    bound_id: &I,
    bound_store: &SS,
    bound_version: SchemaVersion,
)
    requires
        call_ensures(
            Projection::<I, P, Trig, SS, Pos>::resume,
            (id, projector, trigger, store, schema_version, hydrated),
            r,
        ),
        call_ensures(Projection::<I, P, Trig, SS, Pos>::id, (&r.0,), bound_id),
        call_ensures(Projection::<I, P, Trig, SS, Pos>::snapshot_store, (&r.0,), bound_store),
        call_ensures(Projection::<I, P, Trig, SS, Pos>::schema_version, (&r.0,), bound_version),
    ensures
        *bound_id == id,
        *bound_store == store,
        bound_version == schema_version,
        r.0@.projector == projector,
        r.0@.trigger == trigger,
{
}

/// A store restores exactly what it was given.
pub open spec fn restores_exactly<S, P, SS: SnapshotStore<S, P>>(store: SS, id: Seq<char>) -> bool {
    forall|state: S, content: SS::Content, found: S| #[trigger]
        store.keeps(state, content) && #[trigger] store.restores(id, content, found) ==> found
            == state
}

/// What a load finds behind a commit: the checkpoint is the position that was committed, and the
/// state is the one committed with it, as far as the store restores what it keeps. The load fails
/// only if the store does.
pub proof fn load_resumes_behind_the_commit<
    I: Id,
    P: Projector,
    Trig: PersistTrigger<Pos>,
    SS: SnapshotStore<P::State, Pos>,
    Pos: Copy,
>(
    before: SS,
    store: SS,
    id: I,
    projector: P,
    trigger: Trig,
    schema_version: SchemaVersion,
    position: Pos,
    state: P::State,
    r: Result<(Projection<I, P, Trig, SS, Pos>, P::State), SS::Error>,
)
    requires
        saved(&before, &store, id.label(), schema_version, position, state),
        call_ensures(
            Projection::<I, P, Trig, SS, Pos>::load,
            (id, projector, trigger, store, schema_version),
            r,
        ),
    ensures
        r matches Ok((projection, loaded)) ==> {
            &&& projection@.checkpoint == Some(position)
            &&& projection@.pending is None
            &&& projection@.rebuilt_from is None
            &&& exists|content: SS::Content| #[trigger]
                before.keeps(state, content) && store.restores(id.label(), content, loaded)
            &&& restores_exactly::<P::State, Pos, SS>(before, id.label()) ==> loaded == state
        },
        r matches Err(e) ==> store.hydrate_fails(id.label(), schema_version, e),
{
    if let Ok((projection, loaded)) = r {
        let hydrated = choose|hydrated: Hydrated<P::State, Pos>| #[trigger]
            answers(&store, id.label(), schema_version, hydrated) && starts(
                id,
                projector,
                trigger,
                schema_version,
                hydrated,
                projection@,
                loaded,
            );
        snapshot_reads_back(
            &before,
            &store,
            id.label(),
            schema_version,
            position,
            state,
            hydrated,
        );
        let content = choose|content: SS::Content| #[trigger]
            before.keeps(state, content) && store.restores(id.label(), content, loaded);
        assert(before.restores(id.label(), content, loaded));
    }
}

/// Where the bookkeeping of a projection stands.
pub open spec fn stands_at<I, P: Projector, Trig, SS, Pos>(
    projection: Projection<I, P, Trig, SS, Pos>,
    checkpoint: Option<Pos>,
    waiting: Option<Pos>,
) -> bool {
    projection@.checkpoint == checkpoint && projection@.pending == waiting
}

/// Nothing else about a projection changed.
pub open spec fn same_binding<I, P: Projector, Trig, SS, Pos>(
    before: Projection<I, P, Trig, SS, Pos>,
    after: Projection<I, P, Trig, SS, Pos>,
) -> bool {
    &&& after@.id == before@.id
    &&& after@.projector == before@.projector
    &&& after@.trigger == before@.trigger
    &&& after@.schema_version == before@.schema_version
    &&& after@.rebuilt_from == before@.rebuilt_from
}

/// State and position move together. An event that is folded is either committed, the state behind
/// it at its own position, and then nothing waits; or it waits for a flush, and then nothing was
/// saved and the checkpoint is where it was. The trigger decides, on the checkpoint, the event's
/// position and its name. An event that is not folded, or not saved, moves nothing.
pub proof fn advance_moves_state_and_position_together<
    I: Id,
    P: Projector,
    Trig: PersistTrigger<Pos>,
    SS: SnapshotStore<P::State, Pos>,
    Pos: Copy,
    It: Positioned<Event = P::Event, Pos = Pos>,
>(
    projection: &mut Projection<I, P, Trig, SS, Pos>,
    state: P::State,
    item: It,
    position: Pos,
    key: Option<StreamKey>,
    given: Option<&StreamKey>,
    decoded: Decoded<P::Event>,
    names: &[&str],
    due: bool,
    r: Result<P::State, ProjectionError<P::Error, SS::Error>>,
)
    requires
        call_ensures(
            Projection::<I, P, Trig, SS, Pos>::advance::<It>,
            (projection, state, item),
            r,
        ),
        call_ensures(It::into_parts, (item,), (position, key, decoded)),
        given is Some <==> key is Some,
        given matches Some(k) ==> *k == key->0,
        names@.len() == 1,
        names@[0]@ == decoded.event.named(),
        call_ensures(
            Trig::should_persist,
            (&old(projection)@.trigger, old(projection)@.checkpoint, position, names),
            due,
        ),
    ensures
        same_binding(*old(projection), *final(projection)),
        match r {
            Ok(folded) => {
                &&& call_ensures(
                    P::apply_attributed,
                    (&old(projection)@.projector, state, given, &decoded.event),
                    Ok(folded),
                )
                &&& due ==> stands_at(*final(projection), Some(position), None) && saved(
                    &old(projection).store(),
                    &final(projection).store(),
                    old(projection)@.id.label(),
                    old(projection)@.schema_version,
                    position,
                    folded,
                )
                &&& !due ==> stands_at(
                    *final(projection),
                    old(projection)@.checkpoint,
                    Some(position),
                ) && final(projection).store() == old(projection).store()
            },
            Err(ProjectionError::Apply(e)) => {
                &&& call_ensures(
                    P::apply_attributed,
                    (&old(projection)@.projector, state, given, &decoded.event),
                    Err(e),
                )
                &&& stands_at(
                    *final(projection),
                    old(projection)@.checkpoint,
                    old(projection)@.pending,
                )
                &&& final(projection).store() == old(projection).store()
            },
            Err(ProjectionError::Commit(e)) => {
                &&& due
                &&& exists|folded: P::State|
                    #[trigger] call_ensures(
                        P::apply_attributed,
                        (&old(projection)@.projector, state, given, &decoded.event),
                        Ok::<P::State, P::Error>(folded),
                    ) && old(projection).store().commit_fails(
                        old(projection)@.id.label(),
                        old(projection)@.schema_version,
                        position,
                        folded,
                        e,
                    )
                &&& stands_at(
                    *final(projection),
                    old(projection)@.checkpoint,
                    old(projection)@.pending,
                )
                &&& unchanged(&old(projection).store(), &final(projection).store())
            },
        },
{
    assert(stream_ref(key) == given);
    assert(name_views(names@) =~= seq![decoded.event.named()]);
}

/// A fold says of the result what an advance would do with it: commit it at the event's position if
/// the trigger fires, remember the position otherwise. It saves nothing itself.
pub proof fn fold_says_what_is_due<
    I,
    P: Projector,
    Trig: PersistTrigger<Pos>,
    SS,
    Pos: Copy,
    It: Positioned<Event = P::Event, Pos = Pos>,
>(
    projection: &mut Projection<I, P, Trig, SS, Pos>,
    state: P::State,
    item: It,
    position: Pos,
    key: Option<StreamKey>,
    given: Option<&StreamKey>,
    decoded: Decoded<P::Event>,
    names: &[&str],
    due: bool,
    r: Result<Folded<P::State, Pos>, P::Error>,
)
    requires
        call_ensures(
            Projection::<I, P, Trig, SS, Pos>::fold::<It>,
            (projection, state, item),
            r,
        ),
        call_ensures(It::into_parts, (item,), (position, key, decoded)),
        given is Some <==> key is Some,
        given matches Some(k) ==> *k == key->0,
        names@.len() == 1,
        names@[0]@ == decoded.event.named(),
        call_ensures(
            Trig::should_persist,
            (&old(projection)@.trigger, old(projection)@.checkpoint, position, names),
            due,
        ),
    ensures
        same_binding(*old(projection), *final(projection)),
        final(projection).store() == old(projection).store(),
        final(projection)@.checkpoint == old(projection)@.checkpoint,
        match r {
            Ok(folded) => {
                &&& call_ensures(
                    P::apply_attributed,
                    (&old(projection)@.projector, state, given, &decoded.event),
                    Ok(folded.state),
                )
                &&& due ==> folded.commit == Some(position)
                    && final(projection)@.pending == old(projection)@.pending
                &&& !due ==> folded.commit is None && final(projection)@.pending == Some(position)
            },
            Err(e) => {
                &&& call_ensures(
                    P::apply_attributed,
                    (&old(projection)@.projector, state, given, &decoded.event),
                    Err(e),
                )
                &&& final(projection)@.pending == old(projection)@.pending
            },
        },
{
    assert(stream_ref(key) == given);
    assert(name_views(names@) =~= seq![decoded.event.named()]);
}

/// A commit that the store took moves the checkpoint there and leaves nothing to flush; one that it
/// refused moves nothing, and its error is handed on.
pub proof fn settle_moves_the_checkpoint<
    I,
    P: Projector,
    Trig: PersistTrigger<Pos>,
    SS,
    Pos: Copy,
    SErr,
>(
    projection: &mut Projection<I, P, Trig, SS, Pos>,
    position: Pos,
    reply: Result<(), SErr>,
    r: Result<(), ProjectionError<P::Error, SErr>>,
)
    requires
        call_ensures(
            Projection::<I, P, Trig, SS, Pos>::settle::<SErr>,
            (projection, position, reply),
            r,
        ),
    ensures
        same_binding(*old(projection), *final(projection)),
        final(projection).store() == old(projection).store(),
        r is Ok <==> reply is Ok,
        r is Ok ==> stands_at(*final(projection), Some(position), None),
        r matches Err(e) ==> e == ProjectionError::<P::Error, SErr>::Commit(reply->Err_0)
            && stands_at(*final(projection), old(projection)@.checkpoint, old(projection)@.pending),
{
}

/// A flush saves the tail at its last position, together with the state, and then nothing is left
/// to flush; without a tail it does nothing. A flush that fails leaves the tail for the next one.
pub proof fn flush_saves_the_tail<
    I: Id,
    P: Projector,
    Trig: PersistTrigger<Pos>,
    SS: SnapshotStore<P::State, Pos>,
    Pos: Copy,
>(
    projection: &mut Projection<I, P, Trig, SS, Pos>,
    state: P::State,
    waiting: Option<Pos>,
    r: Result<(), ProjectionError<P::Error, SS::Error>>,
)
    requires
        call_ensures(
            Projection::<I, P, Trig, SS, Pos>::unflushed,
            (&*old(projection),),
            waiting,
        ),
        call_ensures(Projection::<I, P, Trig, SS, Pos>::flush, (projection, &state), r),
    ensures
        same_binding(*old(projection), *final(projection)),
        waiting is None ==> r is Ok && final(projection)@ == old(projection)@
            && final(projection).store() == old(projection).store(),
        waiting matches Some(position) ==> (r is Ok ==> stands_at(
            *final(projection),
            Some(position),
            None,
        ) && saved(
            &old(projection).store(),
            &final(projection).store(),
            old(projection)@.id.label(),
            old(projection)@.schema_version,
            position,
            state,
        )),
        r matches Err(e) ==> (waiting matches Some(position) && (e matches ProjectionError::Commit(
            e,
        ) && old(projection).store().commit_fails(
            old(projection)@.id.label(),
            old(projection)@.schema_version,
            position,
            state,
            e,
        ))),
        r is Err ==> stands_at(*final(projection), old(projection)@.checkpoint, waiting)
            && unchanged(&old(projection).store(), &final(projection).store()),
{
}

/// Items bring the position to commit at: one of a single stream its version, one of all streams
/// the position beside it; and their stream, where they tell it.
pub proof fn items_bring_their_position<E, P: AllPosition>(
    decoded: Decoded<E>,
    tagged: (P, StreamKey, Decoded<E>),
    one: (Version, Option<StreamKey>, Decoded<E>),
    all: (P, Option<StreamKey>, Decoded<E>),
)
    requires
        call_ensures(<Decoded<E> as Positioned>::into_parts, (decoded,), one),
        call_ensures(<(P, StreamKey, Decoded<E>) as Positioned>::into_parts, (tagged,), all),
    ensures
        one.0 == decoded.version,
        one.1 is None,
        one.2 == decoded,
        all.0 == tagged.0,
        all.1 == Some(tagged.1),
        all.2 == tagged.2,
{
}

/// The trigger for every `n` events fires exactly if a multiple of `n` was passed since the last
/// commit. There is no trigger for every 0 events.
pub proof fn every_n_events_fires_at_each_multiple(
    n: u64,
    made: Option<EveryNEvents>,
    trigger: EveryNEvents,
    old_version: Option<Version>,
    new_version: Version,
    names: &[&str],
    due: bool,
)
    requires
        call_ensures(EveryNEvents::new, (n,), made),
        made is Some ==> made == Some(trigger),
        made is Some ==> call_ensures(
            <EveryNEvents as PersistTrigger<Version>>::should_persist,
            (&trigger, old_version, new_version, names),
            due,
        ),
    ensures
        made is None <==> n == 0,
        n > 0 ==> (due <==> exists|k: int|
            k > 0 && (match old_version {
                Some(v) => v@ as int,
                None => 0,
            }) < #[trigger] (k * n) <= new_version@),
{
    if n > 0 {
        snapshot_is_due_at_each_multiple(
            old_version,
            new_version,
            n as nat,
        );
        let low: int = match old_version {
            Some(v) => v@ as int,
            None => 0,
        };
        let wide = n as nat;
        if exists|k: int| k > 0 && low < #[trigger] (k * wide) <= new_version@ {
            let k = choose|k: int| k > 0 && low < #[trigger] (k * wide) <= new_version@;
            assert(low < k * n <= new_version@);
        }
        if exists|k: int| k > 0 && low < #[trigger] (k * n) <= new_version@ {
            let k = choose|k: int| k > 0 && low < #[trigger] (k * n) <= new_version@;
            assert(low < k * wide <= new_version@);
        }
    }
}

/// The trigger for chosen event types fires exactly if one of the events is of one of these types,
/// wherever the projection stands.
pub proof fn after_event_types_fires_for_the_chosen<Pos>(
    types: &[&'static str],
    trigger: AfterEventTypes,
    old_position: Option<Pos>,
    new_position: Pos,
    names: &[&str],
    due: bool,
)
    requires
        call_ensures(AfterEventTypes::new, (types,), trigger),
        call_ensures(
            <AfterEventTypes as PersistTrigger<Pos>>::should_persist,
            (&trigger, old_position, new_position, names),
            due,
        ),
    ensures
        due <==> exists|i: int, j: int|
            0 <= i < names@.len() && 0 <= j < types@.len() && (#[trigger] names@[i])@ == (
            #[trigger] types@[j])@,
{
    let asked = name_views(names@);
    let chosen = name_views(types@);
    if due {
        let i = choose|i: int| 0 <= i < asked.len() && chosen.contains(#[trigger] asked[i]);
        let j = choose|j: int| 0 <= j < chosen.len() && chosen[j] == asked[i];
        assert(names@[i]@ == types@[j]@);
    }
    if exists|i: int, j: int|
        0 <= i < names@.len() && 0 <= j < types@.len() && (#[trigger] names@[i])@ == (
        #[trigger] types@[j])@ {
        let (i, j) = choose|i: int, j: int|
            0 <= i < names@.len() && 0 <= j < types@.len() && (#[trigger] names@[i])@ == (
            #[trigger] types@[j])@;
        assert(chosen[j] == asked[i]);
        assert(chosen.contains(asked[i]));
    }
}

/// A checkpoint survives a reload: what an advance committed is where the next load of the same
/// projection starts, with the state that was committed there as far as the store restores it.
pub proof fn committed_advance_is_loaded_again<
    I: Id,
    P: Projector,
    Trig: PersistTrigger<Pos>,
    SS: SnapshotStore<P::State, Pos>,
    Pos: Copy,
    It: Positioned<Event = P::Event, Pos = Pos>,
>(
    projection: &mut Projection<I, P, Trig, SS, Pos>,
    state: P::State,
    item: It,
    position: Pos,
    key: Option<StreamKey>,
    given: Option<&StreamKey>,
    decoded: Decoded<P::Event>,
    names: &[&str],
    folded: P::State,
    id: I,
    projector: P,
    trigger: Trig,
    loaded: Result<(Projection<I, P, Trig, SS, Pos>, P::State), SS::Error>,
)
    requires
        call_ensures(
            Projection::<I, P, Trig, SS, Pos>::advance::<It>,
            (projection, state, item),
            Ok::<P::State, ProjectionError<P::Error, SS::Error>>(folded),
        ),
        call_ensures(It::into_parts, (item,), (position, key, decoded)),
        given is Some <==> key is Some,
        given matches Some(k) ==> *k == key->0,
        names@.len() == 1,
        names@[0]@ == decoded.event.named(),
        call_ensures(
            Trig::should_persist,
            (&old(projection)@.trigger, old(projection)@.checkpoint, position, names),
            true,
        ),
        id.label() == old(projection)@.id.label(),
        call_ensures(
            Projection::<I, P, Trig, SS, Pos>::load,
            (id, projector, trigger, final(projection).store(), old(projection)@.schema_version),
            loaded,
        ),
    ensures
        loaded matches Ok((again, found)) ==> {
            &&& again@.checkpoint == Some(position)
            &&& again@.checkpoint == final(projection)@.checkpoint
            &&& again@.pending is None
            &&& restores_exactly::<P::State, Pos, SS>(
                old(projection).store(),
                id.label(),
            ) ==> found == folded
        },
{
    assert(stream_ref(key) == given);
    assert(name_views(names@) =~= seq![decoded.event.named()]);
    load_resumes_behind_the_commit(
        old(projection).store(),
        final(projection).store(),
        id,
        projector,
        trigger,
        old(projection)@.schema_version,
        position,
        folded,
        loaded,
    );
}

/// A flush that succeeded is where the next load of the same projection starts.
pub proof fn flushed_tail_is_loaded_again<
    I: Id,
    P: Projector,
    Trig: PersistTrigger<Pos>,
    SS: SnapshotStore<P::State, Pos>,
    Pos: Copy,
>(
    projection: &mut Projection<I, P, Trig, SS, Pos>,
    state: P::State,
    position: Pos,
    id: I,
    projector: P,
    trigger: Trig,
    loaded: Result<(Projection<I, P, Trig, SS, Pos>, P::State), SS::Error>,
)
    requires
        call_ensures(
            Projection::<I, P, Trig, SS, Pos>::unflushed,
            (&*old(projection),),
            Some(position),
        ),
        call_ensures(
            Projection::<I, P, Trig, SS, Pos>::flush,
            (projection, &state),
            Ok::<(), ProjectionError<P::Error, SS::Error>>(()),
        ),
        id.label() == old(projection)@.id.label(),
        call_ensures(
            Projection::<I, P, Trig, SS, Pos>::load,
            (id, projector, trigger, final(projection).store(), old(projection)@.schema_version),
            loaded,
        ),
    ensures
        loaded matches Ok((again, found)) ==> {
            &&& again@.checkpoint == Some(position)
            &&& again@.checkpoint == final(projection)@.checkpoint
            &&& again@.pending is None
            &&& restores_exactly::<P::State, Pos, SS>(
                old(projection).store(),
                id.label(),
            ) ==> found == state
        },
{
    load_resumes_behind_the_commit(
        old(projection).store(),
        final(projection).store(),
        id,
        projector,
        trigger,
        old(projection)@.schema_version,
        position,
        state,
        loaded,
    );
}

/// A load asks the store for the projection's own snapshot: a fresh store gives a fresh start.
pub proof fn load_without_a_snapshot_starts_over<
    I: Id,
    P: Projector,
    Trig: PersistTrigger<Pos>,
    SS: SnapshotStore<P::State, Pos>,
    Pos: Copy,
>(
    id: I,
    projector: P,
    trigger: Trig,
    store: SS,
    schema_version: SchemaVersion,
    projection: Projection<I, P, Trig, SS, Pos>,
    state: P::State,
)
    requires
        call_ensures(
            Projection::<I, P, Trig, SS, Pos>::load,
            (id, projector, trigger, store, schema_version),
            Ok::<(Projection<I, P, Trig, SS, Pos>, P::State), SS::Error>((projection, state)),
        ),
    ensures
        projection.store() == store,
        projection@.id == id,
        projection@.schema_version == schema_version,
        projection@.pending is None,
        !store.slots().dom().contains(id.label()) ==> {
            &&& projection@.checkpoint is None
            &&& projection@.rebuilt_from is None
            &&& call_ensures(P::initial, (&projector,), state)
        },
        store.slots().dom().contains(id.label()) && store.slots()[id.label()].0 != schema_version
            ==> {
            &&& projection@.checkpoint is None
            &&& projection@.rebuilt_from == Some(store.slots()[id.label()].0)
            &&& call_ensures(P::initial, (&projector,), state)
        },
        store.slots().dom().contains(id.label()) && store.slots()[id.label()].0 == schema_version
            ==> projection@.checkpoint == Some(store.slots()[id.label()].1),
{
}

} // verus!
