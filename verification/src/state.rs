//! Snapshots of derived state: when to take one, and what comes back.

use crate::codec::{Decode, Encode, OwningCodec};
use crate::envelope::{EventView, PersistedEnvelope};
use crate::octets::{as_octets, copied, copy_octets, octets, same_text};
use crate::value::{EventType, SchemaVersion, ValueError, MAX_EVENT_TYPE_LEN};
use crate::version::Version;
use bytes::Bytes;
use vstd::prelude::*;
use vstd::string::*;
use vstd::utf8::*;

verus! {

/// What a snapshot store has for an id under a schema version.
///
/// "Nothing saved" and "saved, but stale" are two answers: the first is a fresh start, the second
/// a rebuild from the beginning that the host may want to see coming.
#[derive(Debug, PartialEq, Eq)]
pub enum Hydrated<S, P> {
    /// Nothing was ever saved.
    Absent,
    /// A snapshot exists under another schema version.
    Stale {
        /// The schema version it was saved under.
        stored_schema: SchemaVersion,
    },
    /// A snapshot under the requested schema version.
    Found {
        /// The position the state was folded up to.
        position: P,
        /// The state.
        state: S,
    },
}

impl<S, P> Hydrated<S, P> {
    /// The position and state, where a usable snapshot was found.
    pub fn into_found(self) -> (r: Option<(P, S)>)
        ensures
            r == (match self {
                Hydrated::Found { position, state } => Some((position, state)),
                _ => None,
            }),
    {
        match self {
            Hydrated::Found { position, state } => Some((position, state)),
            Hydrated::Absent => None,
            Hydrated::Stale { .. } => None,
        }
    }
}

/// What a snapshot store holds.
pub trait SnapshotModel<S, P>: Sized {
    /// What the store keeps of a state.
    type Content;

    /// What was saved last for each id: the schema version, the position and the state's content.
    open spec fn slots(&self) -> Map<Seq<char>, (SchemaVersion, P, Self::Content)> {
        arbitrary()
    }

    /// The store's invariant.
    open spec fn valid(&self) -> bool {
        arbitrary()
    }

    /// Whether the store may keep `content` of `state`.
    open spec fn keeps(&self, state: S, content: Self::Content) -> bool {
        arbitrary()
    }

    /// Whether the store may make `state` of the `content` that it keeps for `id`.
    open spec fn restores(&self, id: Seq<char>, content: Self::Content, state: S) -> bool {
        arbitrary()
    }
}

/// Saves derived state together with the position it was folded up to.
///
/// State and position go in and come out together: there is no way to save one of them alone. An
/// id goes by its text.
pub trait SnapshotStore<S, P>: SnapshotModel<S, P> {
    /// The store's own failures.
    type Error;

    /// Whether a hydrate of this store may fail, with this error.
    open spec fn hydrate_fails(
        &self,
        id: Seq<char>,
        schema_version: SchemaVersion,
        error: Self::Error,
    ) -> bool {
        arbitrary()
    }

    /// Whether a commit to this store may fail, with this error.
    open spec fn commit_fails(
        &self,
        id: Seq<char>,
        schema_version: SchemaVersion,
        position: P,
        state: S,
        error: Self::Error,
    ) -> bool {
        arbitrary()
    }

    /// The snapshot of `id`: found under the schema version it was saved under, stale under any
    /// other, absent if there is none.
    fn hydrate(&self, id: &str, schema_version: SchemaVersion) -> (r: Result<
        Hydrated<S, P>,
        Self::Error,
    >)
        requires
            self.valid(),
        ensures
            r matches Ok(hydrated) ==> answers(self, id@, schema_version, hydrated),
            r matches Err(e) ==> self.hydrate_fails(id@, schema_version, e),
    ;

    /// Saves state and position in one transaction: both are stored, or neither is.
    fn commit(
        &mut self,
        id: &str,
        schema_version: SchemaVersion,
        position: P,
        state: &S,
    ) -> (r: Result<(), Self::Error>)
        requires
            SnapshotModel::valid(&*old(self)),
        ensures
            SnapshotModel::valid(&*final(self)),
            r is Ok ==> saved(&*old(self), &*final(self), id@, schema_version, position, *state),
            r is Err ==> unchanged(&*old(self), &*final(self)),
            r matches Err(e) ==> SnapshotStore::commit_fails(
                &*old(self),
                id@,
                schema_version,
                position,
                *state,
                e,
            ),
    ;
}

/// A borrowed store holds what the store holds.
impl<S, P, T: SnapshotModel<S, P>> SnapshotModel<S, P> for &mut T {
    type Content = T::Content;

    open spec fn slots(&self) -> Map<Seq<char>, (SchemaVersion, P, T::Content)> {
        (**self).slots()
    }

    open spec fn valid(&self) -> bool {
        (**self).valid()
    }

    open spec fn keeps(&self, state: S, content: T::Content) -> bool {
        (**self).keeps(state, content)
    }

    open spec fn restores(&self, id: Seq<char>, content: T::Content, state: S) -> bool {
        (**self).restores(id, content, state)
    }
}

impl<S, P, T: SnapshotStore<S, P>> SnapshotStore<S, P> for &mut T {
    type Error = T::Error;

    open spec fn hydrate_fails(
        &self,
        id: Seq<char>,
        schema_version: SchemaVersion,
        error: T::Error,
    ) -> bool {
        (**self).hydrate_fails(id, schema_version, error)
    }

    open spec fn commit_fails(
        &self,
        id: Seq<char>,
        schema_version: SchemaVersion,
        position: P,
        state: S,
        error: T::Error,
    ) -> bool {
        (**self).commit_fails(id, schema_version, position, state, error)
    }

    fn hydrate(&self, id: &str, schema_version: SchemaVersion) -> (r: Result<
        Hydrated<S, P>,
        T::Error,
    >) {
        (**self).hydrate(id, schema_version)
    }

    fn commit(
        &mut self,
        id: &str,
        schema_version: SchemaVersion,
        position: P,
        state: &S,
    ) -> (r: Result<(), T::Error>) {
        let ghost before = **self;
        let r: Result<(), T::Error> = (**self).commit(id, schema_version, position, state);
        proof {
            if r is Ok {
                let content = choose|content: T::Content| #[trigger]
                    before.keeps(*state, content) && (**self).slots() == before.slots().insert(
                        id@,
                        (schema_version, position, content),
                    );
                assert(SnapshotModel::<S, P>::keeps(&*old(self), *state, content));
            }
        }
        r
    }
}

/// What a store answers to a hydrate of `id` under `schema_version`.
pub open spec fn answers<S, P, SS: SnapshotModel<S, P>>(
    store: &SS,
    id: Seq<char>,
    schema_version: SchemaVersion,
    hydrated: Hydrated<S, P>,
) -> bool {
    if !store.slots().dom().contains(id) {
        hydrated is Absent
    } else {
        let (stored_schema, position, content) = store.slots()[id];
        if stored_schema == schema_version {
            hydrated matches Hydrated::Found { position: at, state } && at == position
                && store.restores(id, content, state)
        } else {
            hydrated matches Hydrated::Stale { stored_schema: found } && found == stored_schema
        }
    }
}

/// The store keeps and restores states as before.
pub open spec fn same_terms<S, P, SS: SnapshotModel<S, P>>(before: &SS, after: &SS) -> bool {
    &&& forall|state: S, content: SS::Content|
        #[trigger] after.keeps(state, content) == before.keeps(state, content)
    &&& forall|id: Seq<char>, content: SS::Content, state: S|
        #[trigger] after.restores(id, content, state) == before.restores(id, content, state)
}

/// Nothing that the store holds changed.
pub open spec fn unchanged<S, P, SS: SnapshotModel<S, P>>(before: &SS, after: &SS) -> bool {
    &&& after.slots() == before.slots()
    &&& same_terms::<S, P, SS>(before, after)
}

/// `after` is `before` with `state` saved for `id` at `position`.
pub open spec fn saved<S, P, SS: SnapshotModel<S, P>>(
    before: &SS,
    after: &SS,
    id: Seq<char>,
    schema_version: SchemaVersion,
    position: P,
    state: S,
) -> bool {
    &&& exists|content: SS::Content|
        #[trigger] before.keeps(state, content) && after.slots() == before.slots().insert(
            id,
            (schema_version, position, content),
        )
    &&& same_terms::<S, P, SS>(before, after)
}

/// What a slice of names reads.
pub open spec fn name_views(names: Seq<&str>) -> Seq<Seq<char>> {
    Seq::new(names.len(), |i: int| names[i]@)
}

/// Decides when to persist.
pub trait PersistTrigger<Pos> {
    /// Whether state is to be persisted.
    open spec fn fires(&self, old_position: Option<Pos>, new_position: Pos, names: Seq<Seq<char>>) -> bool {
        arbitrary()
    }

    /// Whether state is to be persisted now: `old_position` is where it was last persisted,
    /// `new_position` is where it stands, and `event_names` are the events just processed.
    fn should_persist(
        &self,
        old_position: Option<Pos>,
        new_position: Pos,
        event_names: &[&str],
    ) -> (r: bool)
        ensures
            r == self.fires(old_position, new_position, name_views(event_names@)),
    ;
}

/// Persists once in every `n` events.
#[derive(Clone, Copy, Debug, PartialEq, Eq, Structural)]
pub struct EveryNEvents {
    n: u64,
}

impl EveryNEvents {
    #[verifier::type_invariant]
    spec fn nonzero(&self) -> bool {
        self.n > 0
    }

    /// The number of events between two snapshots.
    pub closed spec fn interval(&self) -> nat {
        self.n as nat
    }

    /// A trigger for every `n` events; `None` for zero.
    pub fn new(n: u64) -> (r: Option<EveryNEvents>)
        ensures
            n == 0 ==> r is None,
            n != 0 ==> r is Some && r->0.interval() == n,
    {
        if n == 0 {
            None
        } else {
            Some(EveryNEvents { n })
        }
    }
}

/// The number of whole intervals of `n` events up to a version; none for no version.
pub open spec fn bucket(version: Option<Version>, n: nat) -> int {
    match version {
        Some(v) => v@ as int / n as int,
        None => 0,
    }
}

impl PersistTrigger<Version> for EveryNEvents {
    open spec fn fires(
        &self,
        old_position: Option<Version>,
        new_position: Version,
        names: Seq<Seq<char>>,
    ) -> bool {
        bucket(Some(new_position), self.interval()) > bucket(old_position, self.interval())
    }

    fn should_persist(
        &self,
        old_position: Option<Version>,
        new_position: Version,
        event_names: &[&str],
    ) -> (r: bool) {
        proof {
            use_type_invariant(self);
        }
        let old_bucket: u64 = match old_position {
            Some(v) => v.as_u64() / self.n,
            None => 0,
        };
        let new_bucket: u64 = new_position.as_u64() / self.n;
        new_bucket > old_bucket
    }
}

/// Persists after events of chosen types.
#[derive(Debug)]
pub struct AfterEventTypes {
    types: Vec<&'static str>,
}

impl AfterEventTypes {
    /// The chosen types.
    pub closed spec fn chosen(&self) -> Seq<Seq<char>> {
        name_views(self.types@)
    }

    /// A trigger for events of any of the given types.
    pub fn new(types: &[&'static str]) -> (r: AfterEventTypes)
        ensures
            r.chosen() == name_views(types@),
    {
        let mut out: Vec<&'static str> = Vec::new();
        let mut i: usize = 0;
        while i < types.len()
            invariant
                0 <= i <= types.len(),
                out@ == types@.take(i as int),
            decreases types.len() - i,
        {
            out.push(types[i]);
            assert(types@.take(i as int).push(types@[i as int]) =~= types@.take(i + 1));
            i = i + 1;
        }
        assert(types@.take(types@.len() as int) =~= types@);
        AfterEventTypes { types: out }
    }

    /// Whether `name` is one of the chosen types.
    fn chooses(&self, name: &str) -> (r: bool)
        ensures
            r == self.chosen().contains(name@),
    {
        let mut i: usize = 0;
        while i < self.types.len()
            invariant
                0 <= i <= self.types.len(),
                forall|j: int| 0 <= j < i ==> (#[trigger] self.chosen()[j]) != name@,
            decreases self.types.len() - i,
        {
            assert(self.chosen()[i as int] == self.types@[i as int]@);
            if same_text(self.types[i], name) {
                return true;
            }
            i = i + 1;
        }
        false
    }
}

impl<Pos> PersistTrigger<Pos> for AfterEventTypes {
    open spec fn fires(
        &self,
        old_position: Option<Pos>,
        new_position: Pos,
        names: Seq<Seq<char>>,
    ) -> bool {
        exists|i: int| 0 <= i < names.len() && self.chosen().contains(#[trigger] names[i])
    }

    fn should_persist(
        &self,
        old_position: Option<Pos>,
        new_position: Pos,
        event_names: &[&str],
    ) -> (r: bool) {
        let ghost names = name_views(event_names@);
        let mut i: usize = 0;
        while i < event_names.len()
            invariant
                0 <= i <= event_names.len(),
                names == name_views(event_names@),
                forall|j: int| 0 <= j < i ==> !self.chosen().contains(#[trigger] names[j]),
            decreases event_names.len() - i,
        {
            assert(names[i as int] == event_names@[i as int]@);
            if self.chooses(event_names[i]) {
                return true;
            }
            i = i + 1;
        }
        false
    }
}

/// Bridges a store of raw bytes to typed state by a codec.
#[derive(Debug)]
pub struct CodecSnapshotStore<SS, C> {
    store: SS,
    codec: C,
}

/// Failure of the bridge.
#[derive(Debug)]
#[non_exhaustive]
pub enum CodecSnapshotStoreError<S, EncErr, DecErr> {
    /// The store of raw bytes failed.
    Store(S),
    /// The state could not be encoded.
    Encode(EncErr),
    /// The state could not be decoded.
    Decode(DecErr),
    /// The id is too long to stand on an envelope.
    EnvelopeSynthesis(ValueError),
}

/// The event that snapshot bytes stand on: `label` in place of the event type, and the first of
/// all versions.
pub open spec fn carrier(label: Seq<char>, bytes: Seq<u8>) -> EventView {
    EventView { version: 1, event_type: label, schema_version: 1, payload: bytes, metadata: None }
}

/// The envelope that carries snapshot bytes to a codec.
pub fn for_decode(label: &str, bytes: &[u8]) -> (r: Result<PersistedEnvelope, ValueError>)
    ensures
        label.spec_bytes().len() > MAX_EVENT_TYPE_LEN ==> r == Err::<
            PersistedEnvelope,
            ValueError,
        >(ValueError::EventTypeTooLong),
        label.spec_bytes().len() <= MAX_EVENT_TYPE_LEN ==> r is Ok && r->Ok_0@
            == carrier(label@, bytes@),
{
    match EventType::new(label) {
        Err(e) => Err(e),
        Ok(event_type) => Ok(
            PersistedEnvelope::new(
                Version::initial(),
                event_type,
                SchemaVersion::initial(),
                copy_octets(bytes),
                None,
            ),
        ),
    }
}

/// What the bridge may answer to a hydrate of the id `label`, once the store of raw bytes has
/// answered `reply`: only a snapshot that was found holds bytes to decode; the other answers pass
/// through, and so does the position.
pub open spec fn bridged<S, P, C: OwningCodec<S>, StoreErr, EncErr>(
    codec: C,
    label: &str,
    reply: Result<Hydrated<Vec<u8>, P>, StoreErr>,
    r: Result<Hydrated<S, P>, CodecSnapshotStoreError<StoreErr, EncErr, C::Error>>,
) -> bool {
    match reply {
        Err(e) => r matches Err(CodecSnapshotStoreError::Store(given)) && given == e,
        Ok(Hydrated::Absent) => r matches Ok(Hydrated::Absent),
        Ok(Hydrated::Stale { stored_schema }) => r matches Ok(Hydrated::Stale {
            stored_schema: given,
        }) && given == stored_schema,
        Ok(Hydrated::Found { position, state: bytes }) => if label.spec_bytes().len()
            > MAX_EVENT_TYPE_LEN {
            r matches Err(CodecSnapshotStoreError::EnvelopeSynthesis(e)) && e
                == ValueError::EventTypeTooLong
        } else {
            exists|env: PersistedEnvelope, decoded: Result<S, C::Error>|
                {
                    &&& env@ == carrier(label@, bytes@)
                    &&& #[trigger] call_ensures(C::decode, (&codec, &env), decoded)
                    &&& match decoded {
                        Ok(state) => r matches Ok(Hydrated::Found { position: given, state: found })
                            && given == position && found == state,
                        Err(e) => r matches Err(CodecSnapshotStoreError::Decode(given)) && given
                            == e,
                    }
                }
        },
    }
}

/// What the bridge may hand to the store of raw bytes for a commit of `state`.
pub open spec fn bytes_for<S, C: Encode<S>, StoreErr, DecErr>(
    codec: C,
    state: S,
    r: Result<Vec<u8>, CodecSnapshotStoreError<StoreErr, C::Error, DecErr>>,
) -> bool {
    exists|reply: Result<Bytes, C::Error>|
        {
            &&& #[trigger] call_ensures(C::encode, (&codec, &state), reply)
            &&& match reply {
                Ok(bytes) => r matches Ok(given) && given@ == octets(bytes),
                Err(e) => r matches Err(CodecSnapshotStoreError::Encode(given)) && given == e,
            }
        }
}

impl<SS, C> CodecSnapshotStore<SS, C> {
    /// The store of raw bytes behind the bridge.
    pub closed spec fn backend(&self) -> SS {
        self.store
    }

    /// The codec of the bridge.
    pub closed spec fn translator(&self) -> C {
        self.codec
    }

    /// The bridge over `store` by `codec`.
    pub fn new(store: SS, codec: C) -> (r: CodecSnapshotStore<SS, C>)
        ensures
            r.backend() == store,
            r.translator() == codec,
    {
        CodecSnapshotStore { store, codec }
    }

    /// Borrows the store of raw bytes.
    pub fn store(&self) -> (r: &SS)
        ensures
            *r == self.backend(),
    {
        &self.store
    }

    /// Takes the answer of the store of raw bytes to a hydrate for the id labelled `label`.
    pub fn hydrated<S, P, StoreErr, EncErr>(
        &self,
        label: &str,
        reply: Result<Hydrated<Vec<u8>, P>, StoreErr>,
    ) -> (r: Result<
        Hydrated<S, P>,
        CodecSnapshotStoreError<StoreErr, EncErr, <C as Decode<S>>::Error>,
    >) where C: OwningCodec<S>
        ensures
            bridged(self.translator(), label, reply, r),
    {
        let (position, bytes): (P, Vec<u8>) = match reply {
            Err(e) => {
                return Err(CodecSnapshotStoreError::Store(e));
            },
            Ok(Hydrated::Absent) => {
                return Ok(Hydrated::Absent);
            },
            Ok(Hydrated::Stale { stored_schema }) => {
                return Ok(Hydrated::Stale { stored_schema });
            },
            Ok(Hydrated::Found { position, state }) => (position, state),
        };
        let env: PersistedEnvelope = match for_decode(label, bytes.as_slice()) {
            Err(e) => {
                return Err(CodecSnapshotStoreError::EnvelopeSynthesis(e));
            },
            Ok(env) => env,
        };
        let decoded: Result<S, <C as Decode<S>>::Error> = self.codec.decode(&env);
        assert(call_ensures(<C as Decode<S>>::decode, (&self.translator(), &env), decoded));
        match decoded {
            Ok(state) => Ok(Hydrated::Found { position, state }),
            Err(e) => Err(CodecSnapshotStoreError::Decode(e)),
        }
    }

    /// The bytes to hand to the store of raw bytes for a commit of `state`.
    pub fn encoded<S, StoreErr, DecErr>(&self, state: &S) -> (r: Result<
        Vec<u8>,
        CodecSnapshotStoreError<StoreErr, <C as Encode<S>>::Error, DecErr>,
    >) where C: Encode<S>
        ensures
            bytes_for(self.translator(), *state, r),
    {
        let reply: Result<Bytes, <C as Encode<S>>::Error> = self.codec.encode(state);
        assert(call_ensures(<C as Encode<S>>::encode, (&self.translator(), state), reply));
        match reply {
            Ok(bytes) => Ok(copied(as_octets(&bytes))),
            Err(e) => Err(CodecSnapshotStoreError::Encode(e)),
        }
    }
}

/// The codec may encode `state` as `bytes`.
pub open spec fn encodes_to<S, C: Encode<S>>(codec: C, state: S, bytes: Seq<u8>) -> bool {
    exists|reply: Result<Bytes, C::Error>|
        #[trigger] call_ensures(C::encode, (&codec, &state), reply) && (reply matches Ok(encoded)
            && octets(encoded) == bytes)
}

/// The codec may decode `bytes` under `label` to `state`.
pub open spec fn decodes_to<S, C: OwningCodec<S>>(
    codec: C,
    label: Seq<char>,
    bytes: Seq<u8>,
    state: S,
) -> bool {
    exists|env: PersistedEnvelope, reply: Result<S, C::Error>|
        {
            &&& env@ == carrier(label, bytes)
            &&& #[trigger] call_ensures(C::decode, (&codec, &env), reply)
            &&& reply == Ok::<S, C::Error>(state)
        }
}

/// The codec may reject `bytes` under `label` with this error.
pub open spec fn rejects<S, C: OwningCodec<S>>(
    codec: C,
    label: Seq<char>,
    bytes: Seq<u8>,
    error: C::Error,
) -> bool {
    exists|env: PersistedEnvelope, reply: Result<S, C::Error>|
        {
            &&& env@ == carrier(label, bytes)
            &&& #[trigger] call_ensures(C::decode, (&codec, &env), reply)
            &&& reply == Err::<S, C::Error>(error)
        }
}

/// A store of raw bytes may fail to save what the codec encodes `state` to, with this error.
pub open spec fn bytes_fail<S, P, SS: SnapshotStore<Vec<u8>, P>, C: Encode<S>>(
    store: SS,
    codec: C,
    id: Seq<char>,
    schema_version: SchemaVersion,
    position: P,
    state: S,
    error: SS::Error,
) -> bool {
    exists|bytes: Vec<u8>|
        encodes_to(codec, state, bytes@) && #[trigger] store.commit_fails(
            id,
            schema_version,
            position,
            bytes,
            error,
        )
}

/// A snapshot is kept for `id` under a schema version.
pub open spec fn kept_under<P, T>(
    slots: Map<Seq<char>, (SchemaVersion, P, T)>,
    id: Seq<char>,
    schema_version: SchemaVersion,
) -> bool {
    slots.dom().contains(id) && slots[id].0 == schema_version
}

/// What the store of raw bytes holds, read through the codec.
impl<S, P, SS: SnapshotModel<Vec<u8>, P>, C: Encode<S> + OwningCodec<S>> SnapshotModel<
    S,
    P,
> for CodecSnapshotStore<SS, C> {
    type Content = SS::Content;

    open spec fn slots(&self) -> Map<Seq<char>, (SchemaVersion, P, SS::Content)> {
        self.backend().slots()
    }

    open spec fn valid(&self) -> bool {
        self.backend().valid()
    }

    open spec fn keeps(&self, state: S, content: SS::Content) -> bool {
        exists|bytes: Vec<u8>|
            encodes_to(self.translator(), state, bytes@) && #[trigger] self.backend().keeps(
                bytes,
                content,
            )
    }

    open spec fn restores(&self, id: Seq<char>, content: SS::Content, state: S) -> bool {
        exists|bytes: Vec<u8>|
            decodes_to(self.translator(), id, bytes@, state) && #[trigger] self.backend().restores(
                id,
                content,
                bytes,
            )
    }
}

/// Typed state over a store of raw bytes. The position passes through.
impl<S, P, SS: SnapshotStore<Vec<u8>, P>, C: Encode<S> + OwningCodec<S>> SnapshotStore<
    S,
    P,
> for CodecSnapshotStore<SS, C> {
    type Error = CodecSnapshotStoreError<
        SS::Error,
        <C as Encode<S>>::Error,
        <C as Decode<S>>::Error,
    >;

    /// The store of raw bytes fails; or there is a snapshot to decode, and the id is too long for
    /// an envelope or the codec rejects the bytes.
    open spec fn hydrate_fails(
        &self,
        id: Seq<char>,
        schema_version: SchemaVersion,
        error: Self::Error,
    ) -> bool {
        match error {
            CodecSnapshotStoreError::Store(e) => self.backend().hydrate_fails(
                id,
                schema_version,
                e,
            ),
            CodecSnapshotStoreError::Encode(_) => false,
            CodecSnapshotStoreError::Decode(e) => {
                &&& kept_under(self.backend().slots(), id, schema_version)
                &&& encode_utf8(id).len() <= MAX_EVENT_TYPE_LEN
                &&& exists|bytes: Vec<u8>|
                    rejects(self.translator(), id, bytes@, e) && #[trigger] self.backend().restores(
                        id,
                        self.backend().slots()[id].2,
                        bytes,
                    )
            },
            CodecSnapshotStoreError::EnvelopeSynthesis(e) => {
                &&& kept_under(self.backend().slots(), id, schema_version)
                &&& encode_utf8(id).len() > MAX_EVENT_TYPE_LEN
                &&& e == ValueError::EventTypeTooLong
            },
        }
    }

    /// The codec rejects the state, or the store of raw bytes fails to save what it was encoded to.
    open spec fn commit_fails(
        &self,
        id: Seq<char>,
        schema_version: SchemaVersion,
        position: P,
        state: S,
        error: Self::Error,
    ) -> bool {
        match error {
            CodecSnapshotStoreError::Store(e) => bytes_fail::<S, P, SS, C>(
                self.backend(),
                self.translator(),
                id,
                schema_version,
                position,
                state,
                e,
            ),
            CodecSnapshotStoreError::Encode(e) => call_ensures(
                <C as Encode<S>>::encode,
                (&self.translator(), &state),
                Err::<Bytes, <C as Encode<S>>::Error>(e),
            ),
            _ => false,
        }
    }

    fn hydrate(&self, id: &str, schema_version: SchemaVersion) -> (r: Result<
        Hydrated<S, P>,
        Self::Error,
    >)
        ensures
            exists|reply: Result<Hydrated<Vec<u8>, P>, SS::Error>|
                {
                    &&& #[trigger] call_ensures(
                        SS::hydrate,
                        (&self.backend(), id, schema_version),
                        reply,
                    )
                    &&& bridged(self.translator(), id, reply, r)
                },
    {
        let reply: Result<Hydrated<Vec<u8>, P>, SS::Error> = self.store.hydrate(
            id,
            schema_version,
        );
        assert(call_ensures(SS::hydrate, (&self.backend(), id, schema_version), reply));
        self.hydrated(id, reply)
    }

    fn commit(
        &mut self,
        id: &str,
        schema_version: SchemaVersion,
        position: P,
        state: &S,
    ) -> (r: Result<(), Self::Error>)
        ensures
            final(self).translator() == old(self).translator(),
            same_terms::<Vec<u8>, P, SS>(&old(self).backend(), &final(self).backend()),
    {
        let bytes: Vec<u8> = match self.encoded(state) {
            Err(e) => {
                return Err(e);
            },
            Ok(bytes) => bytes,
        };
        let reply: Result<(), SS::Error> = self.store.commit(id, schema_version, position, &bytes);
        proof {
            same_bridge::<S, P, SS, C>(old(self), self);
            assert(encodes_to(old(self).translator(), *state, bytes@));
            if reply is Err {
                assert(old(self).backend().commit_fails(
                    id@,
                    schema_version,
                    position,
                    bytes,
                    reply->Err_0,
                ));
                assert(bytes_fail::<S, P, SS, C>(
                    old(self).backend(),
                    old(self).translator(),
                    id@,
                    schema_version,
                    position,
                    *state,
                    reply->Err_0,
                ));
            }
            if reply is Ok {
                let content = choose|content: SS::Content|
                    #[trigger] old(self).backend().keeps(bytes, content) && self.backend().slots()
                        == old(self).backend().slots().insert(
                        id@,
                        (schema_version, position, content),
                    );
                assert(<Self as SnapshotModel<S, P>>::keeps(old(self), *state, content));
            }
        }
        match reply {
            Ok(()) => Ok(()),
            Err(e) => Err(CodecSnapshotStoreError::Store(e)),
        }
    }
}

/// A bridge keeps and restores states as before, if its store of raw bytes does.
proof fn same_bridge<S, P, SS: SnapshotModel<Vec<u8>, P>, C: Encode<S> + OwningCodec<S>>(
    before: &CodecSnapshotStore<SS, C>,
    after: &CodecSnapshotStore<SS, C>,
)
    requires
        after.translator() == before.translator(),
        same_terms::<Vec<u8>, P, SS>(&before.backend(), &after.backend()),
    ensures
        same_terms::<S, P, CodecSnapshotStore<SS, C>>(before, after),
{
    assert forall|state: S, content: SS::Content|
        #[trigger] after.keeps(state, content) == before.keeps(state, content) by {
        if after.keeps(state, content) {
            let bytes = choose|bytes: Vec<u8>|
                encodes_to(after.translator(), state, bytes@) && #[trigger] after.backend().keeps(
                    bytes,
                    content,
                );
            assert(before.backend().keeps(bytes, content));
        }
        if before.keeps(state, content) {
            let bytes = choose|bytes: Vec<u8>|
                encodes_to(before.translator(), state, bytes@) && #[trigger] before.backend().keeps(
                    bytes,
                    content,
                );
            assert(after.backend().keeps(bytes, content));
        }
    }
    assert forall|id: Seq<char>, content: SS::Content, state: S|
        #[trigger] after.restores(id, content, state) == before.restores(id, content, state) by {
        if after.restores(id, content, state) {
            let bytes = choose|bytes: Vec<u8>|
                decodes_to(after.translator(), id, bytes@, state)
                    && #[trigger] after.backend().restores(id, content, bytes);
            assert(before.backend().restores(id, content, bytes));
        }
        if before.restores(id, content, state) {
            let bytes = choose|bytes: Vec<u8>|
                decodes_to(before.translator(), id, bytes@, state)
                    && #[trigger] before.backend().restores(id, content, bytes);
            assert(after.backend().restores(id, content, bytes));
        }
    }
}

} // verus!
