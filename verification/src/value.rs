//! Validated values of an event envelope.

use crate::octets::{as_octets, copied, copy_octets, octets, share_octets, text_of};
use bytes::Bytes;
use vstd::prelude::*;
use vstd::string::*;
use vstd::utf8::*;

verus! {

/// The longest event type name, in UTF-8 bytes.
pub const MAX_EVENT_TYPE_LEN: usize = 65535;

/// The longest metadata, in bytes: the length one past it marks absent metadata.
pub const MAX_METADATA_LEN: usize = 4294967294;

/// Why a value was refused.
#[derive(Clone, Copy, Debug, PartialEq, Eq, Structural)]
pub enum ValueError {
    /// The event type name is longer than [`MAX_EVENT_TYPE_LEN`] bytes.
    EventTypeTooLong,
    /// The event type name is not valid UTF-8.
    EventTypeNotUtf8,
    /// Metadata that is present has at least one byte.
    MetadataEmpty,
    /// The metadata is longer than [`MAX_METADATA_LEN`] bytes.
    MetadataTooLong,
}

/// The name of an event's type: text of at most [`MAX_EVENT_TYPE_LEN`] bytes.
#[derive(Debug, PartialEq, Eq, Hash)]
pub struct EventType {
    text: String,
}

impl View for EventType {
    type V = Seq<char>;

    closed spec fn view(&self) -> Seq<char> {
        self.text@
    }
}

impl Clone for EventType {
    fn clone(&self) -> (r: EventType)
        ensures
            r@ == self@,
    {
        proof {
            use_type_invariant(self);
        }
        EventType { text: self.text.clone() }
    }
}

impl EventType {
    #[verifier::type_invariant]
    spec fn fits(&self) -> bool {
        encode_utf8(self.text@).len() <= MAX_EVENT_TYPE_LEN
    }

    /// The event type that `bytes` spell out.
    pub fn from_bytes(bytes: Bytes) -> (r: Result<EventType, ValueError>)
        ensures
            octets(bytes).len() > MAX_EVENT_TYPE_LEN ==> r == Err::<EventType, ValueError>(
                ValueError::EventTypeTooLong,
            ),
            octets(bytes).len() <= MAX_EVENT_TYPE_LEN && !valid_utf8(octets(bytes)) ==> r == Err::<
                EventType,
                ValueError,
            >(ValueError::EventTypeNotUtf8),
            octets(bytes).len() <= MAX_EVENT_TYPE_LEN && valid_utf8(octets(bytes)) ==> (r is Ok
                && encode_utf8(r->Ok_0@) == octets(bytes)),
    {
        let raw: &[u8] = as_octets(&bytes);
        if raw.len() > MAX_EVENT_TYPE_LEN {
            return Err(ValueError::EventTypeTooLong);
        }
        match text_of(copied(raw)) {
            Some(text) => Ok(EventType { text }),
            None => Err(ValueError::EventTypeNotUtf8),
        }
    }

    /// The event type named `name`.
    pub fn new(name: &str) -> (r: Result<EventType, ValueError>)
        ensures
            name.spec_bytes().len() > MAX_EVENT_TYPE_LEN ==> r == Err::<EventType, ValueError>(
                ValueError::EventTypeTooLong,
            ),
            name.spec_bytes().len() <= MAX_EVENT_TYPE_LEN ==> r is Ok && r->Ok_0@ == name@,
    {
        if name.as_bytes().len() > MAX_EVENT_TYPE_LEN {
            Err(ValueError::EventTypeTooLong)
        } else {
            Ok(EventType { text: name.to_owned() })
        }
    }

    /// The name as text.
    pub fn as_str(&self) -> (r: &str)
        ensures
            r@ == self@,
            encode_utf8(self@).len() <= MAX_EVENT_TYPE_LEN,
    {
        proof {
            use_type_invariant(self);
        }
        self.text.as_str()
    }
}

/// The version of an event's schema: a nonzero `u32`, counted from 1.
#[derive(Clone, Copy, Debug, PartialEq, Eq, PartialOrd, Ord, Hash, Structural)]
pub struct SchemaVersion {
    value: u32,
}

impl View for SchemaVersion {
    type V = nat;

    closed spec fn view(&self) -> nat {
        self.value as nat
    }
}

/// A schema version is determined by its number.
pub broadcast proof fn schema_version_of_view(a: SchemaVersion, b: SchemaVersion)
    ensures
        #![trigger a@, b@]
        a@ == b@ ==> a == b,
{
}

impl SchemaVersion {
    #[verifier::type_invariant]
    spec fn nonzero(&self) -> bool {
        self.value > 0
    }

    /// The first schema version.
    pub fn initial() -> (r: SchemaVersion)
        ensures
            r@ == 1,
    {
        SchemaVersion { value: 1 }
    }

    /// The schema version numbered `value`; `None` for zero.
    pub fn from_u32(value: u32) -> (r: Option<SchemaVersion>)
        ensures
            value == 0 ==> r is None,
            value != 0 ==> r is Some && r->0@ == value,
    {
        if value == 0 {
            None
        } else {
            Some(SchemaVersion { value })
        }
    }

    /// The schema version's number.
    pub fn as_u32(self) -> (r: u32)
        ensures
            r == self@,
            r > 0,
    {
        proof {
            use_type_invariant(&self);
        }
        self.value
    }
}

/// Bytes that travel beside an event's payload. Present metadata is never empty.
#[derive(Debug, PartialEq, Eq, Hash)]
pub struct Metadata {
    bytes: Bytes,
}

impl View for Metadata {
    type V = Seq<u8>;

    closed spec fn view(&self) -> Seq<u8> {
        octets(self.bytes)
    }
}

impl Clone for Metadata {
    fn clone(&self) -> (r: Metadata)
        ensures
            r@ == self@,
    {
        proof {
            use_type_invariant(self);
        }
        Metadata { bytes: share_octets(&self.bytes) }
    }
}

impl Metadata {
    #[verifier::type_invariant]
    spec fn fits(&self) -> bool {
        0 < octets(self.bytes).len() <= MAX_METADATA_LEN
    }

    /// Metadata that carries `bytes`.
    pub fn from_bytes(bytes: Bytes) -> (r: Result<Metadata, ValueError>)
        ensures
            octets(bytes).len() == 0 ==> r == Err::<Metadata, ValueError>(
                ValueError::MetadataEmpty,
            ),
            octets(bytes).len() > MAX_METADATA_LEN ==> r == Err::<Metadata, ValueError>(
                ValueError::MetadataTooLong,
            ),
            0 < octets(bytes).len() <= MAX_METADATA_LEN ==> r is Ok && r->Ok_0@ == octets(bytes),
    {
        let len: usize = as_octets(&bytes).len();
        if len == 0 {
            Err(ValueError::MetadataEmpty)
        } else if len > MAX_METADATA_LEN {
            Err(ValueError::MetadataTooLong)
        } else {
            Ok(Metadata { bytes })
        }
    }

    /// Another handle to the metadata's bytes.
    pub fn to_bytes(&self) -> (r: Bytes)
        ensures
            octets(r) == self@,
            self@.len() > 0,
    {
        proof {
            use_type_invariant(self);
        }
        share_octets(&self.bytes)
    }

    /// The metadata's bytes.
    pub fn as_slice(&self) -> (r: &[u8])
        ensures
            r@ == self@,
            r@.len() > 0,
    {
        proof {
            use_type_invariant(self);
        }
        as_octets(&self.bytes)
    }
}

/// Feeds `data` to the event type validator and reports its verdict.
pub fn value_event_type(data: &[u8]) -> (r: Result<EventType, ValueError>)
    ensures
        r is Ok <==> data@.len() <= MAX_EVENT_TYPE_LEN && valid_utf8(data@),
        r matches Ok(name) ==> encode_utf8(name@) == data@,
        r matches Err(e) ==> e == (if data@.len() > MAX_EVENT_TYPE_LEN {
            ValueError::EventTypeTooLong
        } else {
            ValueError::EventTypeNotUtf8
        }),
{
    EventType::from_bytes(copy_octets(data))
}

} // verus!
