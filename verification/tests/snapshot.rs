//! Snapshot stores, and the bridge from bytes to typed state.

use bytes::Bytes;
use mnesis::codec::{Decode, Encode};
use mnesis::envelope::PersistedEnvelope;
use mnesis::snapshots::TestSnapshots;
use mnesis::state::{
    for_decode, CodecSnapshotStore, CodecSnapshotStoreError, Hydrated, SnapshotModel, SnapshotStore,
};
use mnesis::value::{SchemaVersion, ValueError};
use mnesis::version::Version;

fn schema(n: u32) -> SchemaVersion {
    SchemaVersion::from_u32(n).unwrap()
}

fn version(n: u64) -> Version {
    Version::new(n).unwrap()
}

#[derive(Debug, PartialEq, Eq)]
struct TooLarge;

/// One digit as one byte of text. Nothing above nine can be written.
#[derive(Debug, Clone, Copy)]
struct DigitCodec;
impl Encode<u64> for DigitCodec {
    type Error = TooLarge;
    fn encode(&self, value: &u64) -> Result<Bytes, TooLarge> {
        match u8::try_from(*value) {
            Ok(digit) if digit < 10 => Ok(Bytes::copy_from_slice(&[b'0' + digit])),
            _ => Err(TooLarge),
        }
    }
}
impl Decode<u64> for DigitCodec {
    type Output<'a> = u64;
    type Error = String;
    fn decode<'a>(&'a self, env: &'a PersistedEnvelope) -> Result<u64, String> {
        match env.payload() {
            [b] if b.is_ascii_digit() => Ok(u64::from(*b - b'0')),
            _ => Err(format!("no digit in a {}", env.event_type())),
        }
    }
}

#[test]
fn a_snapshot_reads_back_under_its_schema_version_only() {
    let mut store: TestSnapshots<Version> = TestSnapshots::new();
    assert_eq!(store.hydrate("a", schema(1)), Ok(Hydrated::Absent));
    store
        .commit("a", schema(1), version(5), &vec![1, 2, 3])
        .unwrap();
    assert_eq!(
        store.hydrate("a", schema(1)),
        Ok(Hydrated::Found {
            position: version(5),
            state: vec![1, 2, 3]
        })
    );
    assert_eq!(
        store.hydrate("a", schema(2)),
        Ok(Hydrated::Stale {
            stored_schema: schema(1)
        })
    );
}

#[test]
fn the_latest_snapshot_wins_and_other_ids_stay() {
    let mut store: TestSnapshots<Version> = TestSnapshots::new();
    store.commit("a", schema(1), version(1), &vec![1]).unwrap();
    store.commit("b", schema(1), version(2), &vec![2]).unwrap();
    store.commit("a", schema(3), version(9), &vec![9]).unwrap();
    assert_eq!(
        store.hydrate("a", schema(3)).unwrap().into_found(),
        Some((version(9), vec![9]))
    );
    assert_eq!(store.hydrate("a", schema(1)).unwrap().into_found(), None);
    assert_eq!(
        store.hydrate("b", schema(1)).unwrap().into_found(),
        Some((version(2), vec![2]))
    );
}

#[test]
fn typed_state_goes_through_its_codec() {
    let mut store = CodecSnapshotStore::new(TestSnapshots::<Version>::new(), DigitCodec);
    store.commit("n", schema(1), version(4), &7u64).unwrap();
    // The bytes underneath are the codec's.
    assert_eq!(
        store.store().hydrate("n", schema(1)),
        Ok(Hydrated::Found {
            position: version(4),
            state: b"7".to_vec()
        })
    );
    let found: Hydrated<u64, Version> = store.hydrate("n", schema(1)).unwrap();
    assert_eq!(found.into_found(), Some((version(4), 7)));
    let stale: Hydrated<u64, Version> = store.hydrate("n", schema(2)).unwrap();
    assert_eq!(
        stale,
        Hydrated::Stale {
            stored_schema: schema(1)
        }
    );
    let absent: Hydrated<u64, Version> = store.hydrate("other", schema(1)).unwrap();
    assert_eq!(absent, Hydrated::Absent);
}

#[test]
fn a_state_that_cannot_be_encoded_leaves_the_store_alone() {
    let mut store = CodecSnapshotStore::new(TestSnapshots::<Version>::new(), DigitCodec);
    store.commit("n", schema(1), version(4), &7u64).unwrap();
    match store.commit("n", schema(1), version(5), &12u64) {
        Err(CodecSnapshotStoreError::Encode(e)) => assert_eq!(e, TooLarge),
        other => panic!("expected Encode, got {other:?}"),
    }
    let found: Hydrated<u64, Version> = store.hydrate("n", schema(1)).unwrap();
    assert_eq!(found.into_found(), Some((version(4), 7)));
}

#[test]
fn bytes_that_cannot_be_decoded_are_a_decode_error() {
    let mut raw = TestSnapshots::<Version>::new();
    raw.commit("n", schema(1), version(1), &b"x".to_vec())
        .unwrap();
    let store = CodecSnapshotStore::new(raw, DigitCodec);
    let read: Result<Hydrated<u64, Version>, _> = store.hydrate("n", schema(1));
    match read {
        Err(CodecSnapshotStoreError::Decode(e)) => assert_eq!(e, "no digit in a n"),
        other => panic!("expected Decode, got {other:?}"),
    }
}

#[test]
fn a_failing_store_shows_through_the_bridge() {
    let store = CodecSnapshotStore::new((), DigitCodec);
    let read: Result<Hydrated<u64, Version>, CodecSnapshotStoreError<&str, TooLarge, String>> =
        store.hydrated("n", Err("offline"));
    assert!(matches!(
        read,
        Err(CodecSnapshotStoreError::Store("offline"))
    ));
}

#[test]
fn an_id_too_long_for_a_label_is_an_envelope_error() {
    let label = "x".repeat(65536);
    assert!(matches!(
        for_decode(&label, b"1"),
        Err(ValueError::EventTypeTooLong)
    ));
    let env = for_decode(&label[..65535], b"1").expect("the longest label fits");
    assert_eq!(env.payload(), b"1");
    assert_eq!(env.event_type().len(), 65535);
    assert_eq!(env.version(), Version::initial());
    assert_eq!(env.schema_version(), 1);
    assert_eq!(env.metadata(), None);

    let store = CodecSnapshotStore::new((), DigitCodec);
    let read: Result<Hydrated<u64, Version>, CodecSnapshotStoreError<&str, TooLarge, String>> =
        store.hydrated(
            &label,
            Ok(Hydrated::Found {
                position: version(1),
                state: b"1".to_vec(),
            }),
        );
    assert!(matches!(read, Err(CodecSnapshotStoreError::EnvelopeSynthesis(_))));
}

#[test]
fn a_state_is_encoded_before_it_is_stored() {
    let store = CodecSnapshotStore::new((), DigitCodec);
    let bytes: Result<Vec<u8>, CodecSnapshotStoreError<&str, TooLarge, String>> =
        store.encoded(&3u64);
    assert_eq!(bytes.unwrap(), b"3".to_vec());
}

#[test]
fn a_borrowed_store_is_the_store() {
    fn save<SS: SnapshotStore<Vec<u8>, Version>>(mut store: SS, state: u8) -> bool {
        store
            .commit("a", schema(1), version(1), &vec![state])
            .is_ok()
            && store.hydrate("a", schema(1)).is_ok()
    }
    let mut store: TestSnapshots<Version> = TestSnapshots::new();
    assert!(save(&mut store, 4));
    assert_eq!(
        store.hydrate("a", schema(1)).unwrap().into_found(),
        Some((version(1), vec![4]))
    );
}

/// A store of raw bytes that is out of order.
#[derive(Debug)]
struct Broken;
impl SnapshotModel<Vec<u8>, Version> for Broken {
    type Content = ();
}
impl SnapshotStore<Vec<u8>, Version> for Broken {
    type Error = &'static str;
    fn hydrate(
        &self,
        _id: &str,
        _schema_version: SchemaVersion,
    ) -> Result<Hydrated<Vec<u8>, Version>, &'static str> {
        Err("unreadable")
    }
    fn commit(
        &mut self,
        _id: &str,
        _schema_version: SchemaVersion,
        _position: Version,
        _state: &Vec<u8>,
    ) -> Result<(), &'static str> {
        Err("disk full")
    }
}

#[test]
fn the_bridge_hands_on_what_its_store_answered() {
    let mut store = CodecSnapshotStore::new(Broken, DigitCodec);
    let read: Result<Hydrated<u64, Version>, _> = store.hydrate("n", schema(1));
    assert!(matches!(
        read,
        Err(CodecSnapshotStoreError::Store("unreadable"))
    ));
    assert!(matches!(
        store.commit("n", schema(1), version(1), &7u64),
        Err(CodecSnapshotStoreError::Store("disk full"))
    ));
    // A state that cannot be encoded never gets to the store.
    assert!(matches!(
        store.commit("n", schema(1), version(1), &12u64),
        Err(CodecSnapshotStoreError::Encode(TooLarge))
    ));
}
