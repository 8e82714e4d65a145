//! Laws of the values: what goes in comes out.

use crate::channel::{armed, next_generation, observed_by};
use crate::domain::{AggregateState, CounterEvent, CounterState, DomainEvent, TestId};
use crate::envelope::{pending_views, persist, PendingBatch, PendingEnvelope, PersistedEnvelope};
use crate::id::Id;
use crate::metadata::MetadataProvider;
use crate::octets::{
    copied, decimal, decimal_octets, numbered, numbered_text, octets, same_octets, same_text,
};
use crate::step::Step;
use crate::stream_key::StreamKey;
use crate::value::{
    schema_version_of_view, value_event_type, EventType, Metadata, SchemaVersion, ValueError,
};
use crate::version::{group_version, Version};
use bytes::Bytes;
use tokio::sync::watch;
use vstd::prelude::*;
use vstd::string::*;
use vstd::utf8::*;

verus! {

broadcast use group_version;

/// A stored envelope reads as the parts it was made of: version, name, schema version, payload and
/// metadata, which is there if and only if it was given.
pub proof fn stored_envelope_reads_as_its_parts(
    version: Version,
    event_type: EventType,
    schema_version: SchemaVersion,
    payload: Bytes,
    metadata: Option<Metadata>,
    env: PersistedEnvelope,
    read: (Version, &str, u32, &[u8], Option<&[u8]>, Option<Bytes>),
    name: &str,
    number: u32,
    given: Bytes,
)
    requires
        call_ensures(
            PersistedEnvelope::new,
            (version, event_type, schema_version, payload, metadata),
            env,
        ),
        call_ensures(EventType::as_str, (&event_type,), name),
        call_ensures(SchemaVersion::as_u32, (schema_version,), number),
        metadata matches Some(m) ==> call_ensures(Metadata::to_bytes, (&m,), given),
        call_ensures(PersistedEnvelope::version, (&env,), read.0),
        call_ensures(PersistedEnvelope::event_type, (&env,), read.1),
        call_ensures(PersistedEnvelope::schema_version, (&env,), read.2),
        call_ensures(PersistedEnvelope::payload, (&env,), read.3),
        call_ensures(PersistedEnvelope::metadata, (&env,), read.4),
        call_ensures(PersistedEnvelope::metadata_bytes, (&env,), read.5),
    ensures
        read.0@ == version@,
        read.1@ == name@,
        read.2 == number,
        read.3@ == octets(payload),
        read.4 is Some <==> metadata is Some,
        read.5 is Some <==> metadata is Some,
        read.4 matches Some(m) ==> m@ == octets(given),
        read.5 matches Some(m) ==> octets(m) == octets(given),
{
}

/// Storing an event keeps every part of it; so does taking a stored event up again, and so does a
/// clone of either.
pub proof fn storing_keeps_every_part(
    pending: PendingEnvelope,
    stored: PersistedEnvelope,
    again: PendingEnvelope,
    pending_clone: PendingEnvelope,
    stored_clone: PersistedEnvelope,
    version: Version,
    stored_version: Version,
)
    requires
        call_ensures(persist, (&pending,), stored),
        call_ensures(PendingEnvelope::from_persisted, (&stored,), again),
        call_ensures(<PendingEnvelope as Clone>::clone, (&pending,), pending_clone),
        call_ensures(<PersistedEnvelope as Clone>::clone, (&stored,), stored_clone),
        call_ensures(PendingEnvelope::version, (&pending,), version),
        call_ensures(PersistedEnvelope::version, (&stored,), stored_version),
    ensures
        stored@ == pending@,
        again@ == pending@,
        pending_clone@ == pending@,
        stored_clone@ == stored@,
        stored_version@ == version@,
{
}

/// A stored event reads as the parts that the pending one was made of.
pub proof fn stored_event_reads_as_it_was_written(
    version: Version,
    event_type: EventType,
    schema_version: SchemaVersion,
    payload: Bytes,
    metadata: Option<Metadata>,
    pending: PendingEnvelope,
    stored: PersistedEnvelope,
    read: (Version, &str, u32, &[u8], Option<&[u8]>),
)
    requires
        call_ensures(
            PendingEnvelope::new,
            (version, event_type, schema_version, payload, metadata),
            pending,
        ),
        call_ensures(persist, (&pending,), stored),
        call_ensures(PersistedEnvelope::version, (&stored,), read.0),
        call_ensures(PersistedEnvelope::event_type, (&stored,), read.1),
        call_ensures(PersistedEnvelope::schema_version, (&stored,), read.2),
        call_ensures(PersistedEnvelope::payload, (&stored,), read.3),
        call_ensures(PersistedEnvelope::metadata, (&stored,), read.4),
    ensures
        read.0@ == version@,
        read.1@ == event_type@,
        read.2 == schema_version@,
        read.3@ == octets(payload),
        read.4 is Some <==> metadata is Some,
        read.4 matches Some(m) ==> m@ == metadata->0@,
{
}

/// A batch holds the events of its slice, one for one and in order, and there is one for every slice
/// but the empty one.
pub proof fn batch_holds_its_slice(
    envelopes: &[PendingEnvelope],
    r: Option<PendingBatch<'_>>,
    held: Vec<PendingEnvelope>,
)
    requires
        call_ensures(PendingBatch::<'_>::new, (envelopes,), r),
        r matches Some(batch) ==> call_ensures(PendingBatch::<'_>::to_vec, (&batch,), held),
    ensures
        r is Some <==> envelopes@.len() > 0,
        r matches Some(batch) ==> {
            &&& batch@.len() == envelopes@.len()
            &&& held@.len() == envelopes@.len()
            &&& forall|i: int|
                0 <= i < envelopes@.len() ==> (#[trigger] held@[i])@ == envelopes@[i]@ && batch@[i]
                    == envelopes@[i]@
        },
{
    if let Some(batch) = r {
        let views = pending_views(held@);
        assert(views.len() == held@.len());
        assert forall|i: int| 0 <= i < envelopes@.len() implies (#[trigger] held@[i])@
            == envelopes@[i]@ && batch@[i] == envelopes@[i]@ by {
            assert(views[i] == held@[i]@);
        }
    }
}

/// A batch of a first event and others holds the first one first; a batch of one holds that one.
pub proof fn batch_holds_its_parts(
    head: &PendingEnvelope,
    tail: &[PendingEnvelope],
    batch: PendingBatch<'_>,
    held: Vec<PendingEnvelope>,
    single: PendingBatch<'_>,
)
    requires
        call_ensures(PendingBatch::<'_>::from_parts, (head, tail), batch),
        call_ensures(PendingBatch::<'_>::to_vec, (&batch,), held),
        call_ensures(PendingBatch::<'_>::of, (head,), single),
    ensures
        held@.len() == tail@.len() + 1,
        held@[0]@ == head@,
        forall|i: int| 0 <= i < tail@.len() ==> held@[i + 1]@ == (#[trigger] tail@[i])@,
        single@.len() == 1,
        single@[0] == head@,
{
    let views = pending_views(held@);
    assert(views.len() == held@.len());
    assert(views[0] == held@[0]@);
    assert forall|i: int| 0 <= i < tail@.len() implies held@[i + 1]@ == (
    #[trigger] tail@[i])@ by {
        assert(views[i + 1] == held@[i + 1]@);
    }
}

/// Every version has a number from 1 on, and every such number its version. The next version is one
/// further on; behind the last number there is none.
pub proof fn versions_are_the_numbers_from_one(
    number: u64,
    made: Option<Version>,
    version: Version,
    read: u64,
    first: Version,
    next: Option<Version>,
)
    requires
        call_ensures(Version::new, (number,), made),
        call_ensures(Version::as_u64, (version,), read),
        call_ensures(Version::initial, (), first),
        call_ensures(Version::next, (version,), next),
    ensures
        made is None <==> number == 0,
        made matches Some(v) ==> v@ == number,
        read == version@,
        read >= 1,
        made == Some(version) ==> read == number,
        first@ == 1,
        next is None <==> read == u64::MAX,
        next matches Some(v) ==> v@ == read + 1,
{
}

/// Every schema version has a number from 1 on, and every such number its schema version.
pub proof fn schema_versions_are_the_numbers_from_one(
    number: u32,
    made: Option<SchemaVersion>,
    version: SchemaVersion,
    read: u32,
    first: SchemaVersion,
)
    requires
        call_ensures(SchemaVersion::from_u32, (number,), made),
        call_ensures(SchemaVersion::as_u32, (version,), read),
        call_ensures(SchemaVersion::initial, (), first),
    ensures
        made is None <==> number == 0,
        made == Some(version) ==> read == number,
        read >= 1,
        first == version <==> read == 1,
{
    schema_version_of_view(first, version);
}

/// An event type reads as the name it was made of, from text or from bytes. A name of more than
/// 65535 bytes is too long; bytes that are no text are refused.
pub proof fn event_type_reads_as_its_name(
    name: &str,
    named: Result<EventType, ValueError>,
    bytes: Bytes,
    spelled: Result<EventType, ValueError>,
    data: &[u8],
    validated: Result<EventType, ValueError>,
    read: &str,
    read_spelled: &str,
)
    requires
        call_ensures(EventType::new, (name,), named),
        named matches Ok(t) ==> call_ensures(EventType::as_str, (&t,), read),
        call_ensures(EventType::from_bytes, (bytes,), spelled),
        spelled matches Ok(t) ==> call_ensures(EventType::as_str, (&t,), read_spelled),
        data@ == octets(bytes),
        call_ensures(value_event_type, (data,), validated),
    ensures
        named is Ok <==> encode_utf8(name@).len() <= 65535,
        named is Ok ==> read@ == name@,
        named matches Err(e) ==> e == ValueError::EventTypeTooLong,
        spelled is Ok <==> octets(bytes).len() <= 65535 && valid_utf8(octets(bytes)),
        spelled is Ok ==> encode_utf8(read_spelled@) == octets(bytes),
        spelled matches Err(e) ==> e == (if octets(bytes).len() > 65535 {
            ValueError::EventTypeTooLong
        } else {
            ValueError::EventTypeNotUtf8
        }),
        validated is Ok <==> spelled is Ok,
        validated matches Ok(t) ==> t@ == spelled->Ok_0@,
        validated matches Err(e) ==> spelled == Err::<EventType, ValueError>(e),
{
    if let Ok(t) = validated {
        encode_utf8_decode_utf8(t@);
        encode_utf8_decode_utf8(spelled->Ok_0@);
    }
}

/// Metadata reads as the bytes it was made of. There is none for no bytes, nor for more than a frame
/// can hold.
pub proof fn metadata_reads_as_its_bytes(
    bytes: Bytes,
    made: Result<Metadata, ValueError>,
    copy: Metadata,
    read: &[u8],
    handle: Bytes,
)
    requires
        call_ensures(Metadata::from_bytes, (bytes,), made),
        made matches Ok(m) ==> {
            &&& call_ensures(<Metadata as Clone>::clone, (&m,), copy)
            &&& call_ensures(Metadata::as_slice, (&copy,), read)
            &&& call_ensures(Metadata::to_bytes, (&copy,), handle)
        },
    ensures
        made is Ok <==> 1 <= octets(bytes).len() <= 4294967294,
        made is Ok ==> read@ == octets(bytes) && octets(handle) == octets(bytes),
        made matches Err(e) ==> e == (if octets(bytes).len() == 0 {
            ValueError::MetadataEmpty
        } else {
            ValueError::MetadataTooLong
        }),
{
}

/// A stream's key reads as the bytes it was made of, whatever they are, and two keys name the same
/// stream exactly if their bytes are the same.
pub proof fn keys_are_their_bytes(
    bytes: &[u8],
    key: StreamKey,
    read: &[u8],
    other_bytes: &[u8],
    other: StreamKey,
    copy: StreamKey,
    same: bool,
)
    requires
        call_ensures(StreamKey::from_slice, (bytes,), key),
        call_ensures(StreamKey::as_bytes, (&key,), read),
        call_ensures(StreamKey::from_slice, (other_bytes,), other),
        call_ensures(<StreamKey as Clone>::clone, (&other,), copy),
        call_ensures(StreamKey::same, (&key, &copy), same),
    ensures
        read@ == bytes@,
        same <==> bytes@ == other_bytes@,
{
}

/// Bytes and texts are the same exactly if they are of one length and agree everywhere; a copy is
/// the same.
pub proof fn sameness_is_byte_for_byte(
    a: &[u8],
    b: &[u8],
    r: bool,
    s: &str,
    t: &str,
    same: bool,
    copy: Vec<u8>,
)
    requires
        call_ensures(same_octets, (a, b), r),
        call_ensures(same_text, (s, t), same),
        call_ensures(copied, (a,), copy),
    ensures
        r <==> a@.len() == b@.len() && forall|i: int|
            0 <= i < a@.len() ==> (#[trigger] a@[i]) == b@[i],
        same <==> s@ == t@,
        copy@ == a@,
{
    if a@.len() == b@.len() && forall|i: int| 0 <= i < a@.len() ==> (#[trigger] a@[i]) == b@[i] {
        assert(a@ =~= b@);
    }
}

/// The number that ASCII digits spell.
pub open spec fn spelled_number(digits: Seq<u8>) -> nat
    decreases digits.len(),
{
    if digits.len() == 0 {
        0
    } else {
        (spelled_number(digits.drop_last()) * 10 + (digits.last() - 48)) as nat
    }
}

proof fn digits_spell(n: nat)
    ensures
        decimal_octets(n).len() >= 1,
        spelled_number(decimal_octets(n)) == n,
        forall|i: int|
            0 <= i < decimal_octets(n).len() ==> 48 <= (#[trigger] decimal_octets(n)[i]) <= 57,
        n > 0 ==> decimal_octets(n)[0] != 48,
        n == 0 ==> decimal_octets(n).len() == 1,
    decreases n,
{
    let digits = decimal_octets(n);
    if n < 10 {
        reveal_with_fuel(spelled_number, 2);
        assert(digits.drop_last() =~= Seq::empty());
    } else {
        digits_spell(n / 10);
        let rest = decimal_octets(n / 10);
        assert(digits.drop_last() =~= rest);
        assert forall|i: int| 0 <= i < digits.len() implies 48 <= (#[trigger] digits[i])
            <= 57 by {
            if i < rest.len() {
                assert(digits[i] == rest[i]);
            }
        }
        assert(digits[0] == rest[0]);
    }
}

/// The digits of a number are ASCII digits that spell it, without a leading zero.
pub proof fn digits_spell_their_number(n: u64, r: Vec<u8>)
    requires
        call_ensures(decimal, (n,), r),
    ensures
        r@.len() >= 1,
        forall|i: int| 0 <= i < r@.len() ==> 48 <= (#[trigger] r@[i]) <= 57,
        spelled_number(r@) == n,
        n > 0 ==> r@[0] != 48,
        n == 0 ==> r@.len() == 1,
{
    digits_spell(n as nat);
}

/// A numbered name is its prefix and the digits of its number, as bytes and as text; names with the
/// same prefix are the same only for the same number.
pub proof fn numbered_names_differ(
    prefix: &[u8],
    n: u64,
    r: Vec<u8>,
    m: u64,
    other: Vec<u8>,
    text: String,
    digits: Vec<u8>,
)
    requires
        call_ensures(numbered, (prefix, n), r),
        call_ensures(numbered, (prefix, m), other),
        call_ensures(numbered_text, (prefix, n), text),
        call_ensures(decimal, (n,), digits),
    ensures
        r@ == prefix@ + digits@,
        encode_utf8(text@) == r@,
        r@ == other@ <==> n == m,
{
    digits_spell(n as nat);
    digits_spell(m as nat);
    let k = prefix@.len() as int;
    if r@ == other@ {
        assert(r@.skip(k) =~= decimal_octets(n as nat));
        assert(other@.skip(k) =~= decimal_octets(m as nat));
    }
}

/// An id reads as the text it was made of; its label is that text, and its stream is named by it.
pub proof fn id_reads_as_its_text(
    text: String,
    id: TestId,
    copy: TestId,
    read: &str,
    label: &str,
    key: StreamKey,
)
    requires
        call_ensures(TestId::new, (text,), id),
        call_ensures(<TestId as Clone>::clone, (&id,), copy),
        call_ensures(TestId::as_str, (&copy,), read),
        call_ensures(<TestId as Id>::to_label, (&copy,), label),
        call_ensures(TestId::key, (&copy,), key),
    ensures
        read@ == text@,
        label@ == text@,
        key@ == encode_utf8(text@),
{
}

/// Numbered ids have different labels and different streams for different numbers.
pub proof fn numbered_ids_differ(n: u64, a: TestId, m: u64, b: TestId)
    requires
        call_ensures(TestId::numbered, (n,), a),
        call_ensures(TestId::numbered, (m,), b),
    ensures
        a@ == b@ <==> n == m,
        encode_utf8(a@).len() >= 3,
        encode_utf8(a@)[0] == 112,
        encode_utf8(a@)[1] == 45,
        spelled_number(encode_utf8(a@).skip(2)) == n,
{
    digits_spell(n as nat);
    digits_spell(m as nat);
    assert(encode_utf8(a@).skip(2) =~= decimal_octets(n as nat));
    assert(encode_utf8(b@).skip(2) =~= decimal_octets(m as nat));
    if n == m {
        encode_utf8_decode_utf8(a@);
        encode_utf8_decode_utf8(b@);
    }
}

/// The counter starts at 0. Incrementing and decrementing move it by one and undo each other, and
/// setting it forgets what it was.
pub proof fn counter_counts(
    start: CounterState,
    default: CounterState,
    state: CounterState,
    up: CounterState,
    back: CounterState,
    v: i64,
    set: CounterState,
)
    requires
        call_ensures(<CounterState as AggregateState>::initial, (), start),
        call_ensures(<CounterState as Default>::default, (), default),
        state.value < i64::MAX,
        call_ensures(
            <CounterState as AggregateState>::apply,
            (state, &CounterEvent::Incremented),
            up,
        ),
        call_ensures(
            <CounterState as AggregateState>::apply,
            (up, &CounterEvent::Decremented),
            back,
        ),
        call_ensures(
            <CounterState as AggregateState>::apply,
            (state, &CounterEvent::SetTo(v)),
            set,
        ),
    ensures
        start.value == 0,
        default.value == 0,
        up.value == state.value + 1,
        back.value == state.value,
        set.value == v,
{
}

/// A step is the boundary or an event; mapping it turns the event into what the function makes of
/// it and leaves the boundary.
pub proof fn mapping_keeps_the_boundary<T, U, F: FnOnce(T) -> U>(
    step: Step<T>,
    f: F,
    mapped: Step<U>,
    before: bool,
    after: bool,
)
    requires
        call_ensures(Step::<T>::map::<U, F>, (step, f), mapped),
        call_ensures(Step::<T>::is_caught_up, (&step,), before),
        call_ensures(Step::<U>::is_caught_up, (&mapped,), after),
    ensures
        before <==> (step matches Step::CaughtUp),
        after == before,
        step matches Step::Event(item) ==> (mapped matches Step::Event(made) && call_ensures(
            f,
            (item,),
            made,
        )),
{
}

/// Without a provider no event has metadata; a closure's metadata is what the closure answers for
/// that version, that event and that payload.
pub proof fn providers_answer_for_their_event<
    E,
    F: Fn(Version, &E, &Bytes) -> Option<Metadata>,
>(f: &F, version: Version, event: &E, payload: &Bytes, none: Option<Metadata>,
    some: Option<Metadata>)
    requires
        call_ensures(<() as MetadataProvider<E>>::metadata, (&(), version, event, payload), none),
        call_ensures(<F as MetadataProvider<E>>::metadata, (f, version, event, payload), some),
    ensures
        none is None,
        call_ensures(*f, (version, event, payload), some),
{
}

/// An event of the counter is named after its kind, whatever it carries.
pub proof fn events_are_named_after_their_kind(event: &CounterEvent, name: &'static str)
    requires
        call_ensures(<CounterEvent as DomainEvent>::name, (event,), name),
    ensures
        *event is Incremented ==> name@ == "Incremented"@,
        *event is Decremented ==> name@ == "Decremented"@,
        *event is SetTo ==> name@ == "Set"@,
{
}

/// The next generation is one further on, and never the same.
pub proof fn generations_count_up(generation: u64, r: u64)
    requires
        call_ensures(next_generation, (generation,), r),
    ensures
        r == (generation + 1) % 0x1_0000_0000_0000_0000,
        r != generation,
{
}

/// A receiver that is armed anew stays on its channel.
pub proof fn arming_keeps_the_channel(rx: &watch::Receiver<u64>, r: watch::Receiver<u64>)
    requires
        call_ensures(armed, (rx,), r),
    ensures
        observed_by(r) == observed_by(*rx),
{
}

} // verus!
