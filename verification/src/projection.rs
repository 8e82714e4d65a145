//! Projections: fold events one at a time, and persist state and position together.

use crate::decoded::Decoded;
use crate::domain::DomainEvent;
use crate::id::Id;
use crate::sealed::Sealed;
use crate::state::{answers, name_views, saved, unchanged, Hydrated, PersistTrigger, SnapshotStore};
use crate::store::AllPosition;
use crate::stream_key::StreamKey;
use crate::value::SchemaVersion;
use crate::version::Version;
use vstd::prelude::*;

verus! {

/// A fold over events that may fail.
pub trait Projector: Sized {
    /// The events that are folded.
    type Event: DomainEvent;

    /// The state that the fold produces.
    type State;

    /// Why an event cannot be folded.
    type Error;

    /// The state before any event.
    fn initial(&self) -> Self::State;

    /// The state behind `event`.
    fn apply(&self, state: Self::State, event: &Self::Event) -> Result<Self::State, Self::Error>;

    /// The state behind `event`, which came from the stream `key` where that is known.
    ///
    /// Ignores the stream unless a projector has its own version.
    fn apply_attributed(
        &self,
        state: Self::State,
        key: Option<&StreamKey>,
        event: &Self::Event,
    ) -> (r: Result<Self::State, Self::Error>)
        default_ensures
            call_ensures(Self::apply, (self, state, event), r),
    {
        self.apply(state, event)
    }
}

/// A decoded item that brings the position to checkpoint at.
pub trait Positioned: Sealed + Sized {
    /// The event type.
    type Event;

    /// The position type.
    type Pos: Copy;

    /// The position that came with the event.
    spec fn at(&self) -> Self::Pos;

    /// The stream that the event came from, where the item tells.
    spec fn from_stream(&self) -> Option<StreamKey>;

    /// The decoded event.
    spec fn content(&self) -> Decoded<Self::Event>;

    /// Splits the item into position, stream and event.
    fn into_parts(self) -> (r: (Self::Pos, Option<StreamKey>, Decoded<Self::Event>))
        ensures
            r == (self.at(), self.from_stream(), self.content()),
    ;
}

impl<E> Sealed for Decoded<E> {

}

/// A per-stream item: the position is the version inside.
impl<E> Positioned for Decoded<E> {
    type Event = E;

    type Pos = Version;

    open spec fn at(&self) -> Version {
        self.version
    }

    open spec fn from_stream(&self) -> Option<StreamKey> {
        None
    }

    open spec fn content(&self) -> Decoded<E> {
        *self
    }

    fn into_parts(self) -> (r: (Version, Option<StreamKey>, Decoded<E>)) {
        (self.version, None, self)
    }
}

impl<E, P: AllPosition> Sealed for (P, StreamKey, Decoded<E>) {

}

/// An all-streams item: the position and the stream ride beside the event.
impl<E, P: AllPosition> Positioned for (P, StreamKey, Decoded<E>) {
    type Event = E;

    type Pos = P;

    open spec fn at(&self) -> P {
        self.0
    }

    open spec fn from_stream(&self) -> Option<StreamKey> {
        Some(self.1)
    }

    open spec fn content(&self) -> Decoded<E> {
        self.2
    }

    fn into_parts(self) -> (r: (P, Option<StreamKey>, Decoded<E>)) {
        (self.0, Some(self.1), self.2)
    }
}

/// Why a projection stopped.
#[derive(Debug)]
#[non_exhaustive]
pub enum ProjectionError<PErr, SErr> {
    /// The projector rejected the event.
    Apply(PErr),
    /// State and position could not be committed.
    Commit(SErr),
}

/// A folded event: the new state, and the position to commit it at, if it is time.
#[derive(Debug)]
pub struct Folded<S, Pos> {
    /// The state behind the event.
    pub state: S,
    /// The position to commit the state at; `None` when the trigger did not fire.
    pub commit: Option<Pos>,
}

/// A projection that is driven one event at a time.
///
/// It keeps the bookkeeping: where state was last committed, and how far it was folded since. The
/// state itself flows through the caller.
#[derive(Debug)]
pub struct Projection<I, P: Projector, Trig, SS, Pos = Version> {
    id: I,
    projector: P,
    trigger: Trig,
    snapshot_store: SS,
    schema_version: SchemaVersion,
    checkpoint: Option<Pos>,
    pending: Option<Pos>,
    rebuilt_from: Option<SchemaVersion>,
}

/// The bookkeeping of a projection, and what it is bound to.
pub struct ProjectionView<I, P, Trig, Pos> {
    pub id: I,
    pub projector: P,
    pub trigger: Trig,
    pub schema_version: SchemaVersion,
    pub checkpoint: Option<Pos>,
    pub pending: Option<Pos>,
    pub rebuilt_from: Option<SchemaVersion>,
}

impl<I, P: Projector, Trig, SS, Pos> View for Projection<I, P, Trig, SS, Pos> {
    type V = ProjectionView<I, P, Trig, Pos>;

    closed spec fn view(&self) -> ProjectionView<I, P, Trig, Pos> {
        ProjectionView {
            id: self.id,
            projector: self.projector,
            trigger: self.trigger,
            schema_version: self.schema_version,
            checkpoint: self.checkpoint,
            pending: self.pending,
            rebuilt_from: self.rebuilt_from,
        }
    }
}

/// The bookkeeping once state is committed at `position`.
pub open spec fn committed<I, P, Trig, Pos>(
    p: ProjectionView<I, P, Trig, Pos>,
    position: Pos,
) -> ProjectionView<I, P, Trig, Pos> {
    ProjectionView { checkpoint: Some(position), pending: None, ..p }
}

/// The bookkeeping once state is folded up to `position` without a commit.
pub open spec fn deferred<I, P, Trig, Pos>(
    p: ProjectionView<I, P, Trig, Pos>,
    position: Pos,
) -> ProjectionView<I, P, Trig, Pos> {
    ProjectionView { pending: Some(position), ..p }
}

/// A projection as it starts, and the state it starts from, once its snapshot store has answered
/// `hydrated`.
///
/// A snapshot is resumed. Without one, or under another schema version, the projection starts from
/// the initial state; the second case is told apart by the schema version discarded.
pub open spec fn starts<I, P: Projector, Trig, Pos>(
    id: I,
    projector: P,
    trigger: Trig,
    schema_version: SchemaVersion,
    hydrated: Hydrated<P::State, Pos>,
    p: ProjectionView<I, P, Trig, Pos>,
    state: P::State,
) -> bool {
    let (checkpoint, rebuilt_from) = match hydrated {
        Hydrated::Found { position, .. } => (Some(position), None),
        Hydrated::Absent => (None, None),
        Hydrated::Stale { stored_schema } => (None, Some(stored_schema)),
    };
    &&& p == (ProjectionView {
        id,
        projector,
        trigger,
        schema_version,
        checkpoint,
        pending: None,
        rebuilt_from,
    })
    &&& match hydrated {
        Hydrated::Found { state: saved, .. } => state == saved,
        _ => call_ensures(P::initial, (&projector,), state),
    }
}

/// Whether the trigger of `p` fires for `item`.
pub open spec fn fires_at<
    I,
    P: Projector,
    Trig: PersistTrigger<Pos>,
    Pos: Copy,
    It: Positioned<Event = P::Event, Pos = Pos>,
>(p: ProjectionView<I, P, Trig, Pos>, item: It) -> bool {
    p.trigger.fires(p.checkpoint, item.at(), seq![item.content().event.named()])
}

/// The projector of `p` may fold `item` onto `state` with the result `r`.
pub open spec fn may_fold<
    I,
    P: Projector,
    Trig,
    Pos: Copy,
    It: Positioned<Event = P::Event, Pos = Pos>,
>(
    p: ProjectionView<I, P, Trig, Pos>,
    state: P::State,
    item: It,
    r: Result<P::State, P::Error>,
) -> bool {
    call_ensures(
        P::apply_attributed,
        (&p.projector, state, stream_ref(item.from_stream()), &item.content().event),
        r,
    )
}

/// An optional stream by reference.
pub open spec fn stream_ref(key: Option<StreamKey>) -> Option<&'static StreamKey> {
    match key {
        Some(k) => Some(&k),
        None => None,
    }
}

/// `state` went from one snapshot store to the next, at `position` and under what `p` is bound to.
pub open spec fn saved_for<I: Id, P: Projector, Trig, SS: SnapshotStore<P::State, Pos>, Pos>(
    p: ProjectionView<I, P, Trig, Pos>,
    before: SS,
    after: SS,
    position: Pos,
    state: P::State,
) -> bool {
    saved(&before, &after, p.id.label(), p.schema_version, position, state)
}

/// The snapshot store may fail to save `state` at `position`, under what `p` is bound to, with this
/// error.
pub open spec fn fails_for<I: Id, P: Projector, Trig, SS: SnapshotStore<P::State, Pos>, Pos>(
    p: ProjectionView<I, P, Trig, Pos>,
    store: SS,
    position: Pos,
    state: P::State,
    error: SS::Error,
) -> bool {
    store.commit_fails(p.id.label(), p.schema_version, position, state, error)
}

/// The projector of `p` may fold `item` onto `state` to a state that the snapshot store fails to save
/// at the item's position, with this error.
pub open spec fn fold_unsaved<
    I: Id,
    P: Projector,
    Trig,
    SS: SnapshotStore<P::State, Pos>,
    Pos: Copy,
    It: Positioned<Event = P::Event, Pos = Pos>,
>(
    p: ProjectionView<I, P, Trig, Pos>,
    store: SS,
    state: P::State,
    item: It,
    error: SS::Error,
) -> bool {
    exists|folded: P::State|
        #[trigger] may_fold(p, state, item, Ok(folded)) && fails_for(
            p,
            store,
            item.at(),
            folded,
            error,
        )
}

impl<I, P: Projector, Trig, SS, Pos> Projection<I, P, Trig, SS, Pos> {
    /// The snapshot store that state is committed to.
    pub closed spec fn store(&self) -> SS {
        self.snapshot_store
    }
}

impl<I, P: Projector, Trig: PersistTrigger<Pos>, SS, Pos: Copy> Projection<I, P, Trig, SS, Pos> {
    /// Assembles a projection from what its snapshot store answered, together with the state to
    /// start from.
    pub fn resume(
        id: I,
        projector: P,
        trigger: Trig,
        snapshot_store: SS,
        schema_version: SchemaVersion,
        hydrated: Hydrated<P::State, Pos>,
    ) -> (r: (Projection<I, P, Trig, SS, Pos>, P::State))
        requires
            call_requires(P::initial, (&projector,)),
        ensures
            starts(id, projector, trigger, schema_version, hydrated, r.0@, r.1),
            r.0.store() == snapshot_store,
    {
        let (state, checkpoint, rebuilt_from): (P::State, Option<Pos>, Option<SchemaVersion>) =
            match hydrated {
            Hydrated::Found { position, state } => (state, Some(position), None),
            Hydrated::Absent => (projector.initial(), None, None),
            Hydrated::Stale { stored_schema } => (projector.initial(), None, Some(stored_schema)),
        };
        (
            Projection {
                id,
                projector,
                trigger,
                snapshot_store,
                schema_version,
                checkpoint,
                pending: None,
                rebuilt_from,
            },
            state,
        )
    }

    /// The schema version of the snapshot that was discarded at load, if one was.
    pub fn rebuilding_from(&self) -> (r: Option<SchemaVersion>)
        ensures
            r == self@.rebuilt_from,
    {
        self.rebuilt_from
    }

    /// The id that the projection is bound to.
    pub fn id(&self) -> (r: &I)
        ensures
            *r == self@.id,
    {
        &self.id
    }

    /// The snapshot store that state is committed to.
    pub fn snapshot_store(&self) -> (r: &SS)
        ensures
            *r == self.store(),
    {
        &self.snapshot_store
    }

    /// The schema version that state is committed under.
    pub fn schema_version(&self) -> (r: SchemaVersion)
        ensures
            r == self@.schema_version,
    {
        self.schema_version
    }

    /// The last committed position; `None` means from the beginning.
    pub fn checkpoint(&self) -> (r: Option<Pos>)
        ensures
            r == self@.checkpoint,
    {
        self.checkpoint
    }

    /// Folds one event, and says whether the result is to be committed now.
    ///
    /// Where it is, the caller commits state and position together and reports back with
    /// [`settle`](Self::settle). Where it is not, the position is remembered for the next flush.
    pub fn fold<It: Positioned<Event = P::Event, Pos = Pos>>(
        &mut self,
        state: P::State,
        item: It,
    ) -> (r: Result<Folded<P::State, Pos>, P::Error>)
        requires
            call_requires(
                P::apply_attributed,
                (
                    &old(self)@.projector,
                    state,
                    stream_ref(item.from_stream()),
                    &item.content().event,
                ),
            ),
        ensures
            final(self).store() == old(self).store(),
            match r {
                Err(e) => may_fold(old(self)@, state, item, Err(e)) && final(self)@ == old(self)@,
                Ok(folded) => {
                    &&& may_fold(old(self)@, state, item, Ok(folded.state))
                    &&& if fires_at(old(self)@, item) {
                        folded.commit == Some(item.at()) && final(self)@ == old(self)@
                    } else {
                        folded.commit is None && final(self)@ == deferred(old(self)@, item.at())
                    }
                },
            },
    {
        let (position, key, decoded): (Pos, Option<StreamKey>, Decoded<P::Event>) =
            item.into_parts();
        let folded: P::State = match self.projector.apply_attributed(
            state,
            key.as_ref(),
            &decoded.event,
        ) {
            Err(e) => {
                return Err(e);
            },
            Ok(folded) => folded,
        };
        let names: [&str; 1] = [decoded.event.name()];
        assert(name_views(names@) =~= seq![decoded.event.named()]);
        if self.trigger.should_persist(self.checkpoint, position, &names) {
            Ok(Folded { state: folded, commit: Some(position) })
        } else {
            self.pending = Some(position);
            Ok(Folded { state: folded, commit: None })
        }
    }

    /// The position at which a flush commits: that of the folded tail, if there is one.
    pub fn unflushed(&self) -> (r: Option<Pos>)
        ensures
            r == self@.pending,
    {
        self.pending
    }

    /// Takes the snapshot store's answer to a commit at `position`.
    pub fn settle<SErr>(&mut self, position: Pos, reply: Result<(), SErr>) -> (r: Result<
        (),
        ProjectionError<P::Error, SErr>,
    >)
        ensures
            final(self).store() == old(self).store(),
            match reply {
                Ok(_) => r is Ok && final(self)@ == committed(old(self)@, position),
                Err(e) => r == Err::<(), ProjectionError<P::Error, SErr>>(
                    ProjectionError::Commit(e),
                ) && final(self)@ == old(self)@,
            },
    {
        match reply {
            Ok(()) => {
                self.checkpoint = Some(position);
                self.pending = None;
                Ok(())
            },
            Err(e) => Err(ProjectionError::Commit(e)),
        }
    }

}

impl<
    I: Id,
    P: Projector,
    Trig: PersistTrigger<Pos>,
    SS: SnapshotStore<P::State, Pos>,
    Pos: Copy,
> Projection<I, P, Trig, SS, Pos> {
    /// Assembles a projection from its snapshot store, together with the state to start from.
    pub fn load(
        id: I,
        projector: P,
        trigger: Trig,
        snapshot_store: SS,
        schema_version: SchemaVersion,
    ) -> (r: Result<(Projection<I, P, Trig, SS, Pos>, P::State), SS::Error>)
        requires
            snapshot_store.valid(),
            call_requires(P::initial, (&projector,)),
        ensures
            r matches Ok((projection, state)) ==> {
                &&& projection.store() == snapshot_store
                &&& exists|hydrated: Hydrated<P::State, Pos>|
                    #[trigger] answers(&snapshot_store, id.label(), schema_version, hydrated)
                        && starts(
                        id,
                        projector,
                        trigger,
                        schema_version,
                        hydrated,
                        projection@,
                        state,
                    )
            },
            r matches Err(e) ==> exists|
                label: &str,
                reply: Result<Hydrated<P::State, Pos>, SS::Error>,
            |
                {
                    &&& label@ == id.label()
                    &&& #[trigger] call_ensures(
                        SS::hydrate,
                        (&snapshot_store, label, schema_version),
                        reply,
                    )
                    &&& reply == Err::<Hydrated<P::State, Pos>, SS::Error>(e)
                },
    {
        let label: &str = id.to_label();
        let reply: Result<Hydrated<P::State, Pos>, SS::Error> = snapshot_store.hydrate(
            label,
            schema_version,
        );
        assert(call_ensures(SS::hydrate, (&snapshot_store, label, schema_version), reply));
        match reply {
            Err(e) => Err(e),
            Ok(hydrated) => Ok(
                Projection::resume(
                    id,
                    projector,
                    trigger,
                    snapshot_store,
                    schema_version,
                    hydrated,
                ),
            ),
        }
    }

    /// Saves state and position together, and moves the checkpoint there.
    fn commit(&mut self, position: Pos, state: &P::State) -> (r: Result<
        (),
        ProjectionError<P::Error, SS::Error>,
    >)
        requires
            old(self).store().valid(),
        ensures
            final(self).store().valid(),
            match r {
                Ok(_) => {
                    &&& saved_for(
                        old(self)@,
                        old(self).store(),
                        final(self).store(),
                        position,
                        *state,
                    )
                    &&& final(self)@ == committed(old(self)@, position)
                },
                Err(e) => {
                    &&& e matches ProjectionError::Commit(e) && fails_for(
                        old(self)@,
                        old(self).store(),
                        position,
                        *state,
                        e,
                    )
                    &&& unchanged(&old(self).store(), &final(self).store())
                    &&& final(self)@ == old(self)@
                },
            },
    {
        let label: &str = self.id.to_label();
        let reply: Result<(), SS::Error> = self.snapshot_store.commit(
            label,
            self.schema_version,
            position,
            state,
        );
        self.settle(position, reply)
    }

    /// Folds one event, and saves state and position together if the trigger fires.
    pub fn advance<It: Positioned<Event = P::Event, Pos = Pos>>(
        &mut self,
        state: P::State,
        item: It,
    ) -> (r: Result<P::State, ProjectionError<P::Error, SS::Error>>)
        requires
            old(self).store().valid(),
            call_requires(
                P::apply_attributed,
                (
                    &old(self)@.projector,
                    state,
                    stream_ref(item.from_stream()),
                    &item.content().event,
                ),
            ),
        ensures
            final(self).store().valid(),
            match r {
                Ok(folded) => {
                    &&& may_fold(old(self)@, state, item, Ok(folded))
                    &&& if fires_at(old(self)@, item) {
                        &&& saved_for(
                            old(self)@,
                            old(self).store(),
                            final(self).store(),
                            item.at(),
                            folded,
                        )
                        &&& final(self)@ == committed(old(self)@, item.at())
                    } else {
                        &&& final(self).store() == old(self).store()
                        &&& final(self)@ == deferred(old(self)@, item.at())
                    }
                },
                Err(ProjectionError::Apply(e)) => {
                    &&& may_fold(old(self)@, state, item, Err(e))
                    &&& final(self).store() == old(self).store()
                    &&& final(self)@ == old(self)@
                },
                Err(ProjectionError::Commit(e)) => {
                    &&& fires_at(old(self)@, item)
                    &&& fold_unsaved(old(self)@, old(self).store(), state, item, e)
                    &&& unchanged(&old(self).store(), &final(self).store())
                    &&& final(self)@ == old(self)@
                },
            },
    {
        let folded: Folded<P::State, Pos> = match self.fold(state, item) {
            Err(e) => {
                return Err(ProjectionError::Apply(e));
            },
            Ok(folded) => folded,
        };
        assert(may_fold(old(self)@, state, item, Ok(folded.state)));
        match folded.commit {
            None => Ok(folded.state),
            Some(position) => match self.commit(position, &folded.state) {
                Ok(()) => Ok(folded.state),
                Err(e) => Err(e),
            },
        }
    }

    /// Saves the folded tail; does nothing where there is none.
    pub fn flush(&mut self, state: &P::State) -> (r: Result<
        (),
        ProjectionError<P::Error, SS::Error>,
    >)
        requires
            old(self).store().valid(),
        ensures
            final(self).store().valid(),
            match (old(self)@.pending, r) {
                (None, _) => r is Ok && final(self)@ == old(self)@ && final(self).store() == old(
                    self,
                ).store(),
                (Some(position), Ok(_)) => {
                    &&& saved_for(
                        old(self)@,
                        old(self).store(),
                        final(self).store(),
                        position,
                        *state,
                    )
                    &&& final(self)@ == committed(old(self)@, position)
                },
                (Some(position), Err(e)) => {
                    &&& e matches ProjectionError::Commit(e) && fails_for(
                        old(self)@,
                        old(self).store(),
                        position,
                        *state,
                        e,
                    )
                    &&& unchanged(&old(self).store(), &final(self).store())
                    &&& final(self)@ == old(self)@
                },
            },
    {
        match self.unflushed() {
            None => Ok(()),
            Some(position) => self.commit(position, state),
        }
    }
}

} // verus!
