//! Events on their way into a store and out of it.

use crate::octets::{as_octets, octets, optional_octets, share_octets};
use crate::value::{EventType, Metadata, SchemaVersion};
use crate::version::{version_of_view, Version};
use bytes::Bytes;
use vstd::prelude::*;

verus! {

/// What an envelope carries.
#[verifier::ext_equal]
pub struct EventView {
    pub version: nat,
    pub event_type: Seq<char>,
    pub schema_version: nat,
    pub payload: Seq<u8>,
    pub metadata: Option<Seq<u8>>,
}

/// The bytes of optional metadata.
pub open spec fn metadata_octets(metadata: Option<Metadata>) -> Option<Seq<u8>> {
    match metadata {
        Some(m) => Some(m@),
        None => None,
    }
}

fn copy_metadata(metadata: &Option<Metadata>) -> (r: Option<Metadata>)
    ensures
        metadata_octets(r) == metadata_octets(*metadata),
{
    match metadata {
        Some(m) => Some(m.clone()),
        None => None,
    }
}

/// An event that a caller wants to append.
#[derive(Debug, PartialEq, Eq)]
pub struct PendingEnvelope {
    version: Version,
    event_type: EventType,
    schema_version: SchemaVersion,
    payload: Bytes,
    metadata: Option<Metadata>,
}

impl View for PendingEnvelope {
    type V = EventView;

    closed spec fn view(&self) -> EventView {
        EventView {
            version: self.version@,
            event_type: self.event_type@,
            schema_version: self.schema_version@,
            payload: octets(self.payload),
            metadata: metadata_octets(self.metadata),
        }
    }
}

impl Clone for PendingEnvelope {
    fn clone(&self) -> (r: PendingEnvelope)
        ensures
            r@ == self@,
    {
        PendingEnvelope {
            version: self.version,
            event_type: self.event_type.clone(),
            schema_version: self.schema_version,
            payload: share_octets(&self.payload),
            metadata: copy_metadata(&self.metadata),
        }
    }
}

impl PendingEnvelope {
    /// The envelope with the given parts.
    pub fn new(
        version: Version,
        event_type: EventType,
        schema_version: SchemaVersion,
        payload: Bytes,
        metadata: Option<Metadata>,
    ) -> (r: PendingEnvelope)
        ensures
            r@ == (EventView {
                version: version@,
                event_type: event_type@,
                schema_version: schema_version@,
                payload: octets(payload),
                metadata: metadata_octets(metadata),
            }),
    {
        PendingEnvelope { version, event_type, schema_version, payload, metadata }
    }

    /// The envelope that appends a stored event once more, version and all.
    pub fn from_persisted(event: &PersistedEnvelope) -> (r: PendingEnvelope)
        ensures
            r@ == event@,
    {
        PendingEnvelope {
            version: event.version,
            event_type: event.event_type.clone(),
            schema_version: event.schema_version,
            payload: share_octets(&event.payload),
            metadata: copy_metadata(&event.metadata),
        }
    }

    /// The version the event is to have in its stream.
    pub fn version(&self) -> (r: Version)
        ensures
            r@ == self@.version,
            r@ > 0,
    {
        let _number: u64 = self.version.as_u64();
        self.version
    }
}

/// An event as a store hands it back.
#[derive(Debug, PartialEq, Eq)]
pub struct PersistedEnvelope {
    version: Version,
    event_type: EventType,
    schema_version: SchemaVersion,
    payload: Bytes,
    metadata: Option<Metadata>,
}

impl View for PersistedEnvelope {
    type V = EventView;

    closed spec fn view(&self) -> EventView {
        EventView {
            version: self.version@,
            event_type: self.event_type@,
            schema_version: self.schema_version@,
            payload: octets(self.payload),
            metadata: metadata_octets(self.metadata),
        }
    }
}

impl Clone for PersistedEnvelope {
    fn clone(&self) -> (r: PersistedEnvelope)
        ensures
            r@ == self@,
    {
        PersistedEnvelope {
            version: self.version,
            event_type: self.event_type.clone(),
            schema_version: self.schema_version,
            payload: share_octets(&self.payload),
            metadata: copy_metadata(&self.metadata),
        }
    }
}

impl PersistedEnvelope {
    /// The envelope with the given parts.
    pub fn new(
        version: Version,
        event_type: EventType,
        schema_version: SchemaVersion,
        payload: Bytes,
        metadata: Option<Metadata>,
    ) -> (r: PersistedEnvelope)
        ensures
            r@ == (EventView {
                version: version@,
                event_type: event_type@,
                schema_version: schema_version@,
                payload: octets(payload),
                metadata: metadata_octets(metadata),
            }),
    {
        PersistedEnvelope { version, event_type, schema_version, payload, metadata }
    }

    /// The event's version in its stream.
    pub fn version(&self) -> (r: Version)
        ensures
            r@ == self@.version,
            r@ > 0,
    {
        let _number: u64 = self.version.as_u64();
        self.version
    }

    /// The name of the event's type.
    pub fn event_type(&self) -> (r: &str)
        ensures
            r@ == self@.event_type,
    {
        self.event_type.as_str()
    }

    /// The number of the event's schema version.
    pub fn schema_version(&self) -> (r: u32)
        ensures
            r == self@.schema_version,
    {
        self.schema_version.as_u32()
    }

    /// The payload bytes.
    pub fn payload(&self) -> (r: &[u8])
        ensures
            r@ == self@.payload,
    {
        as_octets(&self.payload)
    }

    /// The metadata bytes, if the event carries any.
    pub fn metadata(&self) -> (r: Option<&[u8]>)
        ensures
            r is Some <==> self@.metadata is Some,
            r matches Some(m) ==> m@ == self@.metadata->0,
    {
        match &self.metadata {
            Some(m) => Some(m.as_slice()),
            None => None,
        }
    }

    /// Another handle to the metadata bytes, if the event carries any.
    pub fn metadata_bytes(&self) -> (r: Option<Bytes>)
        ensures
            optional_octets(r) == self@.metadata,
    {
        match &self.metadata {
            Some(m) => Some(m.to_bytes()),
            None => None,
        }
    }
}

/// The stored form of a pending event: every part is kept.
pub fn persist(env: &PendingEnvelope) -> (r: PersistedEnvelope)
    ensures
        r@ == env@,
{
    PersistedEnvelope {
        version: env.version,
        event_type: env.event_type.clone(),
        schema_version: env.schema_version,
        payload: share_octets(&env.payload),
        metadata: copy_metadata(&env.metadata),
    }
}

/// An envelope's version is a `u64`.
pub proof fn pending_version_fits(env: PendingEnvelope)
    ensures
        env@.version <= u64::MAX,
{
    version_of_view(env.version);
}

/// What a slice of pending envelopes carries.
pub open spec fn pending_views(envelopes: Seq<PendingEnvelope>) -> Seq<EventView> {
    Seq::new(envelopes.len(), |i: int| envelopes[i]@)
}

/// What a sequence of stored envelopes carries.
pub open spec fn persisted_views(envelopes: Seq<PersistedEnvelope>) -> Seq<EventView> {
    Seq::new(envelopes.len(), |i: int| envelopes[i]@)
}

/// A batch of pending events that is never empty.
#[derive(Clone, Copy, Debug)]
pub struct PendingBatch<'a> {
    head: &'a PendingEnvelope,
    tail: &'a [PendingEnvelope],
}

impl<'a> View for PendingBatch<'a> {
    type V = Seq<EventView>;

    closed spec fn view(&self) -> Seq<EventView> {
        seq![self.head@] + pending_views(self.tail@)
    }
}

/// A batch holds at least one event.
pub broadcast proof fn batch_not_empty(batch: PendingBatch<'_>)
    ensures
        #[trigger] batch@.len() >= 1,
{
}

impl<'a> PendingBatch<'a> {
    /// The batch of one event followed by the events of a slice.
    pub fn from_parts(head: &'a PendingEnvelope, tail: &'a [PendingEnvelope]) -> (r: PendingBatch<
        'a,
    >)
        ensures
            r@ == seq![head@] + pending_views(tail@),
    {
        PendingBatch { head, tail }
    }

    /// The batch of one event.
    pub fn of(only: &'a PendingEnvelope) -> (r: PendingBatch<'a>)
        ensures
            r@ == seq![only@],
    {
        let r = PendingBatch { head: only, tail: &[] };
        assert(r@ =~= seq![only@]);
        r
    }

    /// The batch of a slice's events; `None` when the slice is empty.
    pub fn new(envelopes: &'a [PendingEnvelope]) -> (r: Option<PendingBatch<'a>>)
        ensures
            r is None <==> envelopes@.len() == 0,
            r matches Some(batch) ==> batch@ == pending_views(envelopes@),
    {
        if envelopes.len() == 0 {
            None
        } else {
            let (first, tail): (&[PendingEnvelope], &[PendingEnvelope]) = envelopes.split_at(1);
            let r = PendingBatch { head: &first[0], tail };
            assert(r@ =~= pending_views(envelopes@));
            Some(r)
        }
    }

    /// The batch's events, in order.
    pub fn to_vec(&self) -> (r: Vec<PendingEnvelope>)
        ensures
            pending_views(r@) == self@,
    {
        let mut out: Vec<PendingEnvelope> = Vec::new();
        out.push(self.head.clone());
        let mut i: usize = 0;
        while i < self.tail.len()
            invariant
                0 <= i <= self.tail.len(),
                out@.len() == i + 1,
                forall|j: int| 0 <= j < out@.len() ==> (#[trigger] out@[j])@ == self@[j],
            decreases self.tail.len() - i,
        {
            out.push(self.tail[i].clone());
            i = i + 1;
        }
        assert(pending_views(out@) =~= self@);
        out
    }
}

} // verus!
