//! Laws of snapshots and projections.

use crate::codec::{Decode, Encode, OwningCodec};
use crate::envelope::PersistedEnvelope;
use crate::id::Id;
use crate::octets::octets;
use crate::projection::{committed, deferred, saved_for, ProjectionView, Projector};
use crate::snapshots::TestSnapshots;
use crate::state::{
    answers, bucket, carrier, decodes_to, encodes_to, for_decode, rejects, same_terms, saved,
    unchanged, CodecSnapshotStore, CodecSnapshotStoreError, Hydrated, SnapshotModel, SnapshotStore,
};
use crate::value::{SchemaVersion, ValueError, MAX_EVENT_TYPE_LEN};
use crate::version::Version;
use bytes::Bytes;
use std::convert::Infallible;
use vstd::arithmetic::div_mod::lemma_fundamental_div_mod;
use vstd::prelude::*;
use vstd::utf8::*;

verus! {

/// Every `n` events: a snapshot is due exactly if a multiple of `n` lies behind the old version and
/// not behind the new one.
pub proof fn snapshot_is_due_at_each_multiple(old_version: Option<Version>, new_version: Version,
    n: nat)
    requires
        n > 0,
    ensures
        bucket(Some(new_version), n) > bucket(old_version, n) <==> exists|k: int|
            k > 0 && (match old_version {
                Some(v) => v@ as int,
                None => 0,
            }) < #[trigger] (k * n) <= new_version@,
{
    let low: int = match old_version {
        Some(v) => v@ as int,
        None => 0,
    };
    let high = new_version@ as int;
    let d = n as int;
    lemma_fundamental_div_mod(low, d);
    lemma_fundamental_div_mod(high, d);
    let a = low / d;
    let b = high / d;
    assert(bucket(old_version, n) == a) by {
        if old_version is None {
            assert(0int / d == 0) by (nonlinear_arith)
                requires
                    d > 0,
            ;
        }
    }
    assert(a >= 0) by (nonlinear_arith)
        requires
            a == low / d,
            low >= 0,
            d > 0,
    ;
    if b > a {
        assert(low < b * d <= high && b > 0) by (nonlinear_arith)
            requires
                b > a,
                a >= 0,
                d > 0,
                low == d * a + low % d,
                high == d * b + high % d,
                0 <= low % d < d,
                0 <= high % d < d,
        ;
        assert(low < b * n <= new_version@);
    }
    if exists|k: int| k > 0 && low < #[trigger] (k * n) <= new_version@ {
        let k = choose|k: int| k > 0 && low < #[trigger] (k * n) <= new_version@;
        assert(a < k && k <= b) by (nonlinear_arith)
            requires
                low < k * d,
                k * d <= high,
                d > 0,
                low == d * a + low % d,
                high == d * b + high % d,
                0 <= low % d < d,
                0 <= high % d < d,
        ;
    }
}

/// A flush behind any number of deferred events commits at the last of them and leaves nothing
/// pending.
pub proof fn flush_leaves_nothing_pending<I, P, Trig, Pos>(
    p: ProjectionView<I, P, Trig, Pos>,
    first: Pos,
    last: Pos,
)
    ensures
        deferred(deferred(p, first), last).pending == Some(last),
        deferred(deferred(p, first), last).checkpoint == p.checkpoint,
        committed(deferred(p, last), last).pending is None,
        committed(deferred(p, last), last).checkpoint == Some(last),
{
}

/// What was saved is found: the position as it was, and a state made of what the store kept of the
/// saved one.
pub proof fn snapshot_reads_back<S, P, SS: SnapshotModel<S, P>>(
    before: &SS,
    after: &SS,
    id: Seq<char>,
    schema_version: SchemaVersion,
    position: P,
    state: S,
    hydrated: Hydrated<S, P>,
)
    requires
        saved(before, after, id, schema_version, position, state),
        answers(after, id, schema_version, hydrated),
    ensures
        hydrated matches Hydrated::Found { position: at, state: found } && at == position && exists|
            content: SS::Content,
        |
            #[trigger] before.keeps(state, content) && after.restores(id, content, found),
{
    let content = choose|content: SS::Content|
        #[trigger] before.keeps(state, content) && after.slots() == before.slots().insert(
            id,
            (schema_version, position, content),
        );
    assert(after.slots()[id] == (schema_version, position, content));
    assert(before.keeps(state, content));
}

/// Under another schema version a snapshot is stale, and the answer names the one it was saved
/// under.
pub proof fn snapshot_goes_stale<S, P, SS: SnapshotModel<S, P>>(
    before: &SS,
    after: &SS,
    id: Seq<char>,
    schema_version: SchemaVersion,
    position: P,
    state: S,
    other: SchemaVersion,
    hydrated: Hydrated<S, P>,
)
    requires
        saved(before, after, id, schema_version, position, state),
        other != schema_version,
        answers(after, id, other, hydrated),
    ensures
        hydrated matches Hydrated::Stale { stored_schema } && stored_schema == schema_version,
{
    let content = choose|content: SS::Content|
        #[trigger] before.keeps(state, content) && after.slots() == before.slots().insert(
            id,
            (schema_version, position, content),
        );
    assert(after.slots()[id] == (schema_version, position, content));
}

/// A snapshot leaves every other id's answers as they were, and a failed one leaves all of them.
pub proof fn snapshots_are_isolated<S, P, SS: SnapshotModel<S, P>>(
    before: &SS,
    after: &SS,
    id: Seq<char>,
    schema_version: SchemaVersion,
    position: P,
    state: S,
    other: Seq<char>,
    asked: SchemaVersion,
    hydrated: Hydrated<S, P>,
)
    requires
        saved(before, after, id, schema_version, position, state) && other != id || unchanged::<
            S,
            P,
            SS,
        >(before, after),
    ensures
        answers(after, other, asked, hydrated) == answers(before, other, asked, hydrated),
{
    if saved(before, after, id, schema_version, position, state) && other != id {
        let content = choose|content: SS::Content|
            #[trigger] before.keeps(state, content) && after.slots() == before.slots().insert(
                id,
                (schema_version, position, content),
            );
        if before.slots().dom().contains(other) {
            assert(after.slots()[other] == before.slots()[other]);
        }
    }
    if before.slots().dom().contains(other) {
        let kept = before.slots()[other].2;
        match hydrated {
            Hydrated::Found { position: at, state: found } => {
                assert(after.restores(other, kept, found) == before.restores(other, kept, found));
            },
            _ => {},
        }
    }
}

/// A store of raw bytes gives back for `id` the bytes that it was given.
pub open spec fn gives_bytes_back<P, SS: SnapshotModel<Vec<u8>, P>>(
    store: SS,
    id: Seq<char>,
) -> bool {
    forall|bytes: Vec<u8>, content: SS::Content, given: Vec<u8>| #[trigger]
        store.keeps(bytes, content) && #[trigger] store.restores(id, content, given) ==> given@
            == bytes@
}

/// A codec decodes to `state` whatever it encodes `state` to, under the label `id`.
pub open spec fn decodes_back<S, C: Encode<S> + OwningCodec<S>>(
    codec: C,
    id: Seq<char>,
    state: S,
) -> bool {
    forall|env: PersistedEnvelope, bytes: Seq<u8>, reply: Result<S, <C as Decode<S>>::Error>|
        env@ == carrier(id, bytes) && #[trigger] encodes_to(codec, state, bytes)
            && #[trigger] call_ensures(<C as Decode<S>>::decode, (&codec, &env), reply) ==> reply
            == Ok::<S, <C as Decode<S>>::Error>(state)
}

/// What a snapshot store may answer to a hydrate: what it holds, or a failure.
pub open spec fn may_answer<S, P, SS: SnapshotStore<S, P>>(
    store: &SS,
    id: Seq<char>,
    schema_version: SchemaVersion,
    reply: Result<Hydrated<S, P>, SS::Error>,
) -> bool {
    match reply {
        Ok(hydrated) => answers(store, id, schema_version, hydrated),
        Err(e) => store.hydrate_fails(id, schema_version, e),
    }
}

/// Typed state reads back: what was committed for an id is found under its schema version, at its
/// position and equal to what was committed, and is stale under any other. The hydrate fails only
/// if the store of raw bytes does.
///
/// `later` is the store at any time since the commit, as long as nothing else was committed for
/// the id. The store of raw bytes gives back what it was given, the codec decodes what it encoded,
/// and the id fits an envelope.
pub proof fn typed_snapshot_reads_back<
    S,
    P,
    SS: SnapshotStore<Vec<u8>, P>,
    C: Encode<S> + OwningCodec<S>,
>(
    before: &CodecSnapshotStore<SS, C>,
    after: &CodecSnapshotStore<SS, C>,
    later: &CodecSnapshotStore<SS, C>,
    id: Seq<char>,
    schema_version: SchemaVersion,
    position: P,
    state: S,
    asked: SchemaVersion,
    reply: Result<
        Hydrated<S, P>,
        CodecSnapshotStoreError<SS::Error, <C as Encode<S>>::Error, <C as Decode<S>>::Error>,
    >,
)
    requires
        saved(before, after, id, schema_version, position, state),
        later.translator() == before.translator(),
        same_terms::<Vec<u8>, P, SS>(&before.backend(), &later.backend()),
        later.backend().slots().dom().contains(id),
        later.backend().slots()[id] == after.backend().slots()[id],
        gives_bytes_back(before.backend(), id),
        decodes_back(before.translator(), id, state),
        encode_utf8(id).len() <= MAX_EVENT_TYPE_LEN,
        may_answer(later, id, asked, reply),
    ensures
        match reply {
            Ok(hydrated) => hydrated == (if asked == schema_version {
                Hydrated::Found { position, state }
            } else {
                Hydrated::Stale { stored_schema: schema_version }
            }),
            Err(e) => e matches CodecSnapshotStoreError::Store(e) && later.backend().hydrate_fails(
                id,
                asked,
                e,
            ),
        },
{
    let content = choose|content: SS::Content|
        #[trigger] <CodecSnapshotStore<SS, C> as SnapshotModel<S, P>>::keeps(before, state, content)
            && <CodecSnapshotStore<SS, C> as SnapshotModel<S, P>>::slots(
                after) == <CodecSnapshotStore<
            SS,
            C,
        > as SnapshotModel<S, P>>::slots(before).insert(id, (schema_version, position, content));
    let bytes = choose|bytes: Vec<u8>|
        encodes_to(before.translator(), state, bytes@) && #[trigger] before.backend().keeps(
            bytes,
            content,
        );
    assert(later.backend().slots()[id] == (schema_version, position, content));
    match reply {
        Ok(Hydrated::Found { position: at, state: found }) => {
            let given = choose|given: Vec<u8>|
                decodes_to(later.translator(), id, given@, found)
                    && #[trigger] later.backend().restores(id, content, given);
            assert(before.backend().restores(id, content, given));
            assert(given@ == bytes@);
        },
        Err(CodecSnapshotStoreError::Decode(e)) => {
            let given = choose|given: Vec<u8>|
                rejects(later.translator(), id, given@, e) && #[trigger] later.backend().restores(
                    id,
                    content,
                    given,
                );
            assert(before.backend().restores(id, content, given));
            assert(given@ == bytes@);
        },
        _ => {},
    }
}

/// An id for which nothing was ever committed is absent, through a codec too, and the codec has no
/// part in it: the hydrate fails only if the store of raw bytes does.
pub proof fn untouched_id_is_absent<
    S,
    P,
    SS: SnapshotStore<Vec<u8>, P>,
    C: Encode<S> + OwningCodec<S>,
>(
    store: &CodecSnapshotStore<SS, C>,
    id: Seq<char>,
    asked: SchemaVersion,
    reply: Result<
        Hydrated<S, P>,
        CodecSnapshotStoreError<SS::Error, <C as Encode<S>>::Error, <C as Decode<S>>::Error>,
    >,
)
    requires
        !store.backend().slots().dom().contains(id),
        may_answer(store, id, asked, reply),
    ensures
        match reply {
            Ok(hydrated) => hydrated is Absent,
            Err(e) => e matches CodecSnapshotStoreError::Store(e) && store.backend().hydrate_fails(
                id,
                asked,
                e,
            ),
        },
{
}

/// A projection that is loaded again starts where its checkpoint is, from what was saved there.
pub proof fn checkpoint_describes_the_saved_state<
    I: Id,
    P: Projector,
    Trig,
    SS: SnapshotStore<P::State, Pos>,
    Pos,
>(
    p: ProjectionView<I, P, Trig, Pos>,
    before: SS,
    after: SS,
    position: Pos,
    state: P::State,
    hydrated: Hydrated<P::State, Pos>,
)
    requires
        saved_for(p, before, after, position, state),
        answers(&after, p.id.label(), p.schema_version, hydrated),
    ensures
        hydrated matches Hydrated::Found { position: at, .. } && committed(p, position).checkpoint
            == Some(at),
{
    snapshot_reads_back(
        &before,
        &after,
        p.id.label(),
        p.schema_version,
        position,
        state,
        hydrated,
    );
}

// ── What goes through a codec ───────────────────────────────────────────────────────────────────

/// The envelope that snapshot bytes stand on holds all of them, however many there are, and nothing
/// else: the label in place of the event type, the first version, no metadata. Only a label that is
/// too long for an envelope is refused.
pub proof fn carrying_envelope_holds_all_bytes(
    label: &str,
    bytes: &[u8],
    r: Result<PersistedEnvelope, ValueError>,
    payload: &[u8],
    name: &str,
    version: Version,
    schema_version: u32,
    metadata: Option<&[u8]>,
)
    requires
        call_ensures(for_decode, (label, bytes), r),
        r matches Ok(env) ==> {
            &&& call_ensures(PersistedEnvelope::payload, (&env,), payload)
            &&& call_ensures(PersistedEnvelope::event_type, (&env,), name)
            &&& call_ensures(PersistedEnvelope::version, (&env,), version)
            &&& call_ensures(PersistedEnvelope::schema_version, (&env,), schema_version)
            &&& call_ensures(PersistedEnvelope::metadata, (&env,), metadata)
        },
    ensures
        r is Ok <==> encode_utf8(label@).len() <= MAX_EVENT_TYPE_LEN,
        r is Ok ==> {
            &&& payload@ == bytes@
            &&& name@ == label@
            &&& version@ == 1
            &&& schema_version == 1
            &&& metadata is None
        },
        r matches Err(e) ==> e == ValueError::EventTypeTooLong,
{
}

/// A codec decodes to `state` every envelope whose payload is what it encodes `state` to.
pub open spec fn decodes_every_payload_of<S, C: Encode<S> + OwningCodec<S>>(
    codec: C,
    state: S,
) -> bool {
    forall|
        env: PersistedEnvelope,
        encoded: Result<Bytes, <C as Encode<S>>::Error>,
        reply: Result<S, <C as Decode<S>>::Error>,
    |
        #[trigger] call_ensures(<C as Encode<S>>::encode, (&codec, &state), encoded)
            && #[trigger] call_ensures(<C as Decode<S>>::decode, (&codec, &env), reply) && (
        encoded matches Ok(bytes) && octets(bytes) == env@.payload) ==> reply == Ok::<
            S,
            <C as Decode<S>>::Error,
        >(state)
}

/// What the bridge handed to the store of raw bytes for a commit comes back as the state, with the
/// position that the store has beside it.
pub proof fn bytes_of_a_commit_come_back_as_the_state<
    S,
    P,
    SS,
    C: Encode<S> + OwningCodec<S>,
    StoreErr,
    EncErr,
    DecErr,
>(
    bridge: &CodecSnapshotStore<SS, C>,
    state: &S,
    bytes: Vec<u8>,
    label: &str,
    position: P,
    stored: Vec<u8>,
    r: Result<Hydrated<S, P>, CodecSnapshotStoreError<StoreErr, EncErr, <C as Decode<S>>::Error>>,
)
    requires
        decodes_every_payload_of(bridge.translator(), *state),
        encode_utf8(label@).len() <= MAX_EVENT_TYPE_LEN,
        call_ensures(
            CodecSnapshotStore::<SS, C>::encoded::<S, StoreErr, DecErr>,
            (bridge, state),
            Ok(bytes),
        ),
        stored@ == bytes@,
        call_ensures(
            CodecSnapshotStore::<SS, C>::hydrated::<S, P, StoreErr, EncErr>,
            (bridge, label, Ok(Hydrated::Found { position, state: stored })),
            r,
        ),
    ensures
        r matches Ok(Hydrated::Found { position: at, state: found }) && at == position && found
            == *state,
{
}

/// Answers without bytes pass through the bridge as they are: a failure of the store, nothing
/// saved, and a stale snapshot with the schema version it was saved under. A codec that fails to
/// encode has its error handed on.
pub proof fn answers_without_bytes_pass_through<
    S,
    P,
    SS,
    C: Encode<S> + OwningCodec<S>,
    StoreErr,
    EncErr,
>(
    bridge: &CodecSnapshotStore<SS, C>,
    label: &str,
    reply: Result<Hydrated<Vec<u8>, P>, StoreErr>,
    r: Result<Hydrated<S, P>, CodecSnapshotStoreError<StoreErr, EncErr, <C as Decode<S>>::Error>>,
)
    requires
        call_ensures(
            CodecSnapshotStore::<SS, C>::hydrated::<S, P, StoreErr, EncErr>,
            (bridge, label, reply),
            r,
        ),
    ensures
        reply matches Err(e) ==> (r matches Err(CodecSnapshotStoreError::Store(given)) && given
            == e),
        reply matches Ok(Hydrated::Absent) ==> r matches Ok(Hydrated::Absent),
        reply matches Ok(Hydrated::Stale { stored_schema }) ==> (r matches Ok(Hydrated::Stale {
            stored_schema: given,
        }) && given == stored_schema),
        r matches Err(CodecSnapshotStoreError::Store(given)) ==> (reply matches Err(e) && e
            == given),
        r matches Ok(Hydrated::Absent) ==> reply matches Ok(Hydrated::Absent),
        !(r matches Err(CodecSnapshotStoreError::Encode(_))),
{
}

/// The codec was handed an envelope with these bytes as its payload, and answered `decoded`.
pub open spec fn decoded_from<S, C: OwningCodec<S>>(
    codec: C,
    bytes: Seq<u8>,
    decoded: Result<S, <C as Decode<S>>::Error>,
) -> bool {
    exists|env: PersistedEnvelope|
        env@.payload == bytes && #[trigger] call_ensures(
            <C as Decode<S>>::decode,
            (&codec, &env),
            decoded,
        )
}

/// A snapshot that the store of raw bytes found is handed to the codec, all its bytes, and nothing
/// else decides: what the codec makes of them is found, at the store's position, and what it rejects
/// is told as its error. Only an id that is too long for an envelope keeps the bytes from the codec.
pub proof fn found_bytes_are_handed_to_the_codec<
    S,
    P,
    SS,
    C: Encode<S> + OwningCodec<S>,
    StoreErr,
    EncErr,
>(
    bridge: &CodecSnapshotStore<SS, C>,
    label: &str,
    position: P,
    bytes: Vec<u8>,
    r: Result<Hydrated<S, P>, CodecSnapshotStoreError<StoreErr, EncErr, <C as Decode<S>>::Error>>,
)
    requires
        call_ensures(
            CodecSnapshotStore::<SS, C>::hydrated::<S, P, StoreErr, EncErr>,
            (bridge, label, Ok(Hydrated::Found { position, state: bytes })),
            r,
        ),
    ensures
        match r {
            Ok(Hydrated::Found { position: at, state }) => at == position && decoded_from::<S, C>(
                bridge.translator(),
                bytes@,
                Ok(state),
            ),
            Err(CodecSnapshotStoreError::Decode(e)) => decoded_from::<S, C>(
                bridge.translator(),
                bytes@,
                Err(e),
            ),
            Err(CodecSnapshotStoreError::EnvelopeSynthesis(e)) => e == ValueError::EventTypeTooLong
                && encode_utf8(label@).len() > MAX_EVENT_TYPE_LEN,
            _ => false,
        },
        encode_utf8(label@).len() > MAX_EVENT_TYPE_LEN ==> r matches Err(
            CodecSnapshotStoreError::EnvelopeSynthesis(_),
        ),
{
    if encode_utf8(label@).len() <= MAX_EVENT_TYPE_LEN {
        let (env, decoded) = choose|
            env: PersistedEnvelope,
            decoded: Result<S, <C as Decode<S>>::Error>,
        |
            {
                &&& env@ == carrier(label@, bytes@)
                &&& #[trigger] call_ensures(
                    <C as Decode<S>>::decode,
                    (&bridge.translator(), &env),
                    decoded,
                )
                &&& match decoded {
                    Ok(state) => r matches Ok(Hydrated::Found { position: given, state: found })
                        && given == position && found == state,
                    Err(e) => r matches Err(CodecSnapshotStoreError::Decode(given)) && given == e,
                }
            };
        assert(decoded_from::<S, C>(bridge.translator(), bytes@, decoded));
    }
}

/// Typed state survives a commit and a hydrate behind it: under its schema version it is found as
/// it was, at its position; under any other it is stale. The hydrate fails only if the store of raw
/// bytes does.
///
/// The store of raw bytes gives back what it was given, the codec decodes every payload that it
/// encoded, and the id fits an envelope.
pub proof fn committed_state_is_hydrated<
    S,
    P,
    SS: SnapshotStore<Vec<u8>, P>,
    C: Encode<S> + OwningCodec<S>,
>(
    store: &mut CodecSnapshotStore<SS, C>,
    id: &str,
    schema_version: SchemaVersion,
    position: P,
    state: &S,
    same_id: &str,
    asked: SchemaVersion,
    reply: Result<
        Hydrated<S, P>,
        CodecSnapshotStoreError<SS::Error, <C as Encode<S>>::Error, <C as Decode<S>>::Error>,
    >,
)
    requires
        gives_bytes_back(old(store).backend(), id@),
        decodes_every_payload_of(old(store).translator(), *state),
        encode_utf8(id@).len() <= MAX_EVENT_TYPE_LEN,
        call_ensures(
            <CodecSnapshotStore<SS, C> as SnapshotStore<S, P>>::commit,
            (store, id, schema_version, position, state),
            Ok(()),
        ),
        same_id@ == id@,
        call_ensures(
            <CodecSnapshotStore<SS, C> as SnapshotStore<S, P>>::hydrate,
            (&*final(store), same_id, asked),
            reply,
        ),
    ensures
        match reply {
            Ok(hydrated) => hydrated == (if asked == schema_version {
                Hydrated::Found { position, state: *state }
            } else {
                Hydrated::Stale { stored_schema: schema_version }
            }),
            Err(e) => e matches CodecSnapshotStoreError::Store(_),
        },
{
    let codec = old(store).translator();
    assert(decodes_back(codec, id@, *state)) by {
        assert forall|
            env: PersistedEnvelope,
            bytes: Seq<u8>,
            decoded: Result<S, <C as Decode<S>>::Error>,
        |
            env@ == carrier(id@, bytes) && #[trigger] encodes_to(codec, *state, bytes)
                && #[trigger] call_ensures(
                <C as Decode<S>>::decode,
                (&codec, &env),
                decoded,
            ) implies decoded == Ok::<S, <C as Decode<S>>::Error>(*state) by {
            let encoded = choose|encoded: Result<Bytes, <C as Encode<S>>::Error>|
                #[trigger] call_ensures(<C as Encode<S>>::encode, (&codec, state), encoded) && (
                encoded matches Ok(buffer) && octets(buffer) == bytes);
            assert(call_ensures(<C as Encode<S>>::encode, (&codec, state), encoded));
        }
    }
    typed_snapshot_reads_back(
        &*old(store),
        &*final(store),
        &*final(store),
        id@,
        schema_version,
        position,
        *state,
        asked,
        reply,
    );
}

/// A bridge is over the store it was given. A commit that fails leaves every snapshot as it was; it
/// fails with the codec's error only if the codec failed to encode the state.
pub proof fn failed_commit_saves_nothing<
    S,
    P,
    SS: SnapshotStore<Vec<u8>, P>,
    C: Encode<S> + OwningCodec<S>,
>(
    backend: SS,
    codec: C,
    bridge: CodecSnapshotStore<SS, C>,
    read: &SS,
    store: &mut CodecSnapshotStore<SS, C>,
    id: &str,
    schema_version: SchemaVersion,
    position: P,
    state: &S,
    e: CodecSnapshotStoreError<SS::Error, <C as Encode<S>>::Error, <C as Decode<S>>::Error>,
)
    requires
        call_ensures(CodecSnapshotStore::<SS, C>::new, (backend, codec), bridge),
        call_ensures(CodecSnapshotStore::<SS, C>::store, (&bridge,), read),
        call_ensures(
            <CodecSnapshotStore<SS, C> as SnapshotStore<S, P>>::commit,
            (store, id, schema_version, position, state),
            Err(e),
        ),
    ensures
        *read == backend,
        final(store).backend().slots() == old(store).backend().slots(),
        e is Encode || e is Store,
        e matches CodecSnapshotStoreError::Encode(given) ==> call_ensures(
            <C as Encode<S>>::encode,
            (&old(store).translator(), state),
            Err::<Bytes, <C as Encode<S>>::Error>(given),
        ),
{
    assert(<CodecSnapshotStore<SS, C> as SnapshotModel<S, P>>::slots(&*final(store))
        == final(store).backend().slots());
    assert(<CodecSnapshotStore<SS, C> as SnapshotModel<S, P>>::slots(&*old(store))
        == old(store).backend().slots());
}

/// Two answers of a store of raw bytes say the same.
pub open spec fn same_answer<P>(a: Hydrated<Vec<u8>, P>, b: Hydrated<Vec<u8>, P>) -> bool {
    match (a, b) {
        (Hydrated::Absent, Hydrated::Absent) => true,
        (Hydrated::Stale { stored_schema: x }, Hydrated::Stale { stored_schema: y }) => x == y,
        (
            Hydrated::Found { position: x, state: s },
            Hydrated::Found { position: y, state: t },
        ) => x == y && s@ == t@,
        _ => false,
    }
}

/// Snapshots in memory: a commit is always taken, and from then on the id has what was committed,
/// byte for byte and at its position, whatever was there before; every other id has what it had.
pub proof fn memory_holds_the_last_commit<P: Copy>(
    store: &mut TestSnapshots<P>,
    id: &str,
    schema_version: SchemaVersion,
    position: P,
    state: &Vec<u8>,
    r: Result<(), Infallible>,
    asked_id: &str,
    asked: SchemaVersion,
    earlier: Result<Hydrated<Vec<u8>, P>, Infallible>,
    reply: Result<Hydrated<Vec<u8>, P>, Infallible>,
)
    requires
        call_ensures(
            <TestSnapshots<P> as SnapshotStore<Vec<u8>, P>>::commit,
            (store, id, schema_version, position, state),
            r,
        ),
        call_ensures(
            <TestSnapshots<P> as SnapshotStore<Vec<u8>, P>>::hydrate,
            (&*old(store), asked_id, asked),
            earlier,
        ),
        call_ensures(
            <TestSnapshots<P> as SnapshotStore<Vec<u8>, P>>::hydrate,
            (&*final(store), asked_id, asked),
            reply,
        ),
    ensures
        r is Ok,
        earlier is Ok,
        reply is Ok,
        asked_id@ == id@ && asked == schema_version ==> (reply->Ok_0 matches Hydrated::Found {
            position: at,
            state: found,
        } && at == position && found@ == state@),
        asked_id@ == id@ && asked != schema_version ==> reply->Ok_0 == (Hydrated::<
            Vec<u8>,
            P,
        >::Stale { stored_schema: schema_version }),
        asked_id@ != id@ ==> same_answer(earlier->Ok_0, reply->Ok_0),
{
}

/// A fresh store of snapshots in memory has nothing for any id.
pub proof fn fresh_memory_is_empty<P: Copy>(
    store: TestSnapshots<P>,
    id: &str,
    asked: SchemaVersion,
    reply: Result<Hydrated<Vec<u8>, P>, Infallible>,
)
    requires
        call_ensures(TestSnapshots::<P>::new, (), store),
        call_ensures(
            <TestSnapshots<P> as SnapshotStore<Vec<u8>, P>>::hydrate,
            (&store, id, asked),
            reply,
        ),
    ensures
        reply matches Ok(Hydrated::Absent),
{
}

/// Position and state are taken out of a snapshot that was found, and of nothing else.
pub proof fn only_a_found_snapshot_has_parts<S, P>(
    hydrated: Hydrated<S, P>,
    r: Option<(P, S)>,
)
    requires
        call_ensures(Hydrated::<S, P>::into_found, (hydrated,), r),
    ensures
        r is Some <==> hydrated is Found,
        r matches Some((position, state)) ==> hydrated == (Hydrated::Found { position, state }),
{
}

} // verus!
