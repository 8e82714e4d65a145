//! The rows that the conformance checks feed to a store and expect back.

use crate::envelope::{EventView, PendingEnvelope, PersistedEnvelope};
use crate::id::Id;
use crate::octets::{copied, copy_octets, same_octets, same_text, take_octets};
use crate::store::AllPosition;
use crate::stream_key::StreamKey;
use crate::value::{EventType, Metadata, SchemaVersion, MAX_EVENT_TYPE_LEN, MAX_METADATA_LEN};
use crate::version::Version;
use vstd::prelude::*;
use vstd::string::*;
use vstd::utf8::*;

verus! {

/// One event as plain values. All of them must come back byte for byte.
#[derive(Debug, PartialEq, Eq)]
pub struct ConformanceRow {
    /// The event's version.
    pub version: u64,
    /// The name of the event's type.
    pub event_type: String,
    /// The number of the schema version.
    pub schema_version: u32,
    /// The payload.
    pub payload: Vec<u8>,
    /// The metadata, if any.
    pub metadata: Option<Vec<u8>>,
}

/// The bytes of optional metadata.
pub open spec fn optional_view(metadata: Option<Vec<u8>>) -> Option<Seq<u8>> {
    match metadata {
        Some(m) => Some(m@),
        None => None,
    }
}

impl View for ConformanceRow {
    type V = EventView;

    open spec fn view(&self) -> EventView {
        EventView {
            version: self.version as nat,
            event_type: self.event_type@,
            schema_version: self.schema_version as nat,
            payload: self.payload@,
            metadata: optional_view(self.metadata),
        }
    }
}

/// What a sequence of rows carries.
pub open spec fn row_views(rows: Seq<ConformanceRow>) -> Seq<EventView> {
    Seq::new(rows.len(), |i: int| rows[i]@)
}

/// A row with schema version 1 and without metadata.
pub open spec fn plain_row(version: nat, event_type: Seq<char>, payload: Seq<u8>) -> EventView {
    EventView { version, event_type, schema_version: 1, payload, metadata: None }
}

/// Whether a row can stand in an envelope.
pub open spec fn row_valid(row: EventView) -> bool {
    &&& 1 <= row.version
    &&& encode_utf8(row.event_type).len() <= MAX_EVENT_TYPE_LEN
    &&& 1 <= row.schema_version
    &&& row.metadata matches Some(m) ==> 0 < m.len() <= MAX_METADATA_LEN
}

impl ConformanceRow {
    /// A row with schema version 1 and without metadata.
    pub fn new(version: u64, event_type: &str, payload: Vec<u8>) -> (r: ConformanceRow)
        ensures
            r@ == plain_row(version as nat, event_type@, payload@),
    {
        ConformanceRow {
            version,
            event_type: event_type.to_owned(),
            schema_version: 1,
            payload,
            metadata: None,
        }
    }

    /// The row under another schema version.
    pub fn with_schema_version(self, schema_version: u32) -> (r: ConformanceRow)
        ensures
            r@ == (EventView { schema_version: schema_version as nat, ..self@ }),
    {
        ConformanceRow {
            version: self.version,
            event_type: self.event_type,
            schema_version,
            payload: self.payload,
            metadata: self.metadata,
        }
    }

    /// The row with metadata.
    pub fn with_metadata(self, metadata: Vec<u8>) -> (r: ConformanceRow)
        ensures
            r@ == (EventView { metadata: Some(metadata@), ..self@ }),
    {
        ConformanceRow {
            version: self.version,
            event_type: self.event_type,
            schema_version: self.schema_version,
            payload: self.payload,
            metadata: Some(metadata),
        }
    }

    /// Whether two rows carry the same.
    pub fn same(&self, other: &ConformanceRow) -> (r: bool)
        ensures
            r == (self@ == other@),
    {
        let metadata: bool = match (&self.metadata, &other.metadata) {
            (Some(a), Some(b)) => same_octets(a.as_slice(), b.as_slice()),
            (None, None) => true,
            _ => false,
        };
        self.version == other.version && self.schema_version == other.schema_version && metadata
            && same_text(self.event_type.as_str(), other.event_type.as_str()) && same_octets(
            self.payload.as_slice(),
            other.payload.as_slice(),
        )
    }
}

/// Whether two runs of rows carry the same.
pub fn same_rows(a: &[ConformanceRow], b: &[ConformanceRow]) -> (r: bool)
    ensures
        r == (row_views(a@) == row_views(b@)),
{
    if a.len() != b.len() {
        assert(row_views(a@).len() != row_views(b@).len());
        return false;
    }
    let mut i: usize = 0;
    while i < a.len()
        invariant
            0 <= i <= a.len(),
            a.len() == b.len(),
            forall|j: int| 0 <= j < i ==> row_views(a@)[j] == row_views(b@)[j],
        decreases a.len() - i,
    {
        if !a[i].same(&b[i]) {
            assert(row_views(a@)[i as int] != row_views(b@)[i as int]);
            return false;
        }
        i = i + 1;
    }
    assert(row_views(a@) =~= row_views(b@));
    true
}

/// The id of a subscription or a snapshot.
#[derive(Debug, PartialEq, Eq, Hash)]
pub struct SubId {
    text: String,
}

impl View for SubId {
    type V = Seq<char>;

    closed spec fn view(&self) -> Seq<char> {
        self.text@
    }
}

impl SubId {
    /// The id that reads `s`.
    pub fn new(s: &str) -> (r: SubId)
        ensures
            r@ == s@,
    {
        SubId { text: s.to_owned() }
    }

    /// The stream of the same name.
    pub fn key(&self) -> (r: StreamKey)
        ensures
            r@ == encode_utf8(self@),
    {
        StreamKey::from_slice(self.text.as_str().as_bytes())
    }

    /// The id as text.
    pub fn as_str(&self) -> (r: &str)
        ensures
            r@ == self@,
    {
        self.text.as_str()
    }
}

impl Id for SubId {
    open spec fn label(&self) -> Seq<char> {
        self@
    }

    fn to_label(&self) -> (r: &str) {
        self.as_str()
    }
}

/// The envelope that a row describes.
pub fn envelope_for(row: &ConformanceRow) -> (r: PendingEnvelope)
    requires
        row_valid(row@),
    ensures
        r@ == row@,
{
    let name: &str = row.event_type.as_str();
    let metadata: Option<Metadata> = match &row.metadata {
        None => None,
        Some(m) => Metadata::from_bytes(take_octets(copied(m.as_slice()))).ok(),
    };
    match (
        Version::new(row.version),
        EventType::new(name),
        SchemaVersion::from_u32(row.schema_version),
    ) {
        (Some(version), Ok(event_type), Some(schema_version)) => PendingEnvelope::new(
            version,
            event_type,
            schema_version,
            copy_octets(row.payload.as_slice()),
            metadata,
        ),
        _ => {
            assert(false);
            vstd::pervasive::unreached()
        },
    }
}

/// A stored event as a row.
pub fn row_of(env: &PersistedEnvelope) -> (r: ConformanceRow)
    ensures
        r@ == env@,
{
    ConformanceRow {
        version: env.version().as_u64(),
        event_type: env.event_type().to_owned(),
        schema_version: env.schema_version(),
        payload: copied(env.payload()),
        metadata: match env.metadata() {
            Some(m) => Some(copied(m)),
            None => None,
        },
    }
}

/// Each position lies before every later one.
pub open spec fn places_increase<P: AllPosition>(positions: Seq<(P, Vec<u8>)>) -> bool {
    forall|i: int, j: int|
        0 <= i < j < positions.len() ==> positions[i].0.ordinal() < positions[j].0.ordinal()
}

/// Whether positions strictly increase.
pub fn assert_strictly_increasing<P: AllPosition>(positions: &[(P, Vec<u8>)]) -> (r: bool)
    ensures
        r == places_increase(positions@),
{
    let mut i: usize = 1;
    while i < positions.len()
        invariant
            1 <= i,
            i <= positions.len() || positions.len() == 0,
            forall|j: int, k: int|
                0 <= j < k < i && k < positions@.len() ==> positions@[j].0.ordinal()
                    < positions@[k].0.ordinal(),
        decreases positions.len() - i,
    {
        if !positions[i - 1].0.precedes(positions[i].0) {
            assert(!(positions@[i - 1].0.ordinal() < positions@[i as int].0.ordinal()));
            return false;
        }
        i = i + 1;
    }
    true
}

} // verus!
