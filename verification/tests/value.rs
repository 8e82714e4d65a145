//! The values that an event is made of.

use std::sync::Arc;

use bytes::Bytes;
use mnesis::domain::{AggregateState, CounterEvent, CounterState, DomainEvent, TestId};
use mnesis::envelope::{PendingBatch, PendingEnvelope, PersistedEnvelope};
use mnesis::id::Id;
use mnesis::metadata::MetadataProvider;
use mnesis::octets::{copied, decimal, numbered, numbered_text, same_octets, same_text};
use mnesis::store::RawEventStore;
use mnesis::stream_key::StreamKey;
use mnesis::test_support::TestStore;
use mnesis::value::{
    value_event_type as parse_event_type, EventType, Metadata, SchemaVersion, ValueError,
    MAX_EVENT_TYPE_LEN, MAX_METADATA_LEN,
};
use mnesis::version::Version;
use parking_lot::Mutex;

// ── Event types ────────────────────────────────────────────────────────────

#[test]
fn value_event_type() {
    // Every byte alone, every pair with a leading byte, and runs at the length limit: nothing may
    // do worse than be refused.
    for a in 0..=255u8 {
        let parsed = parse_event_type(&[a]);
        assert_eq!(parsed.is_ok(), std::str::from_utf8(&[a]).is_ok());
        for b in 0..=255u8 {
            let pair = [a, b];
            match (parse_event_type(&pair), std::str::from_utf8(&pair)) {
                (Ok(name), Ok(text)) => assert_eq!(name.as_str(), text),
                (Err(e), Err(_)) => assert_eq!(e, ValueError::EventTypeNotUtf8),
                (got, _) => panic!("{pair:?} gave {got:?}"),
            }
        }
    }
    assert!(parse_event_type(&vec![b'x'; MAX_EVENT_TYPE_LEN]).is_ok());
    assert_eq!(
        parse_event_type(&vec![b'x'; MAX_EVENT_TYPE_LEN + 1]),
        Err(ValueError::EventTypeTooLong)
    );
}

#[test]
fn an_empty_event_type_parses() {
    assert_eq!(parse_event_type(&[]).unwrap().as_str(), "");
}

#[test]
fn event_types_are_measured_in_bytes() {
    let name = "\u{e9}".repeat(32768); // two bytes each
    assert_eq!(EventType::new(&name), Err(ValueError::EventTypeTooLong));
    let fits = "\u{e9}".repeat(32767);
    assert_eq!(EventType::new(&fits).unwrap().as_str(), fits);
    assert_eq!(
        EventType::from_bytes(Bytes::from_static("Gr\u{fc}n".as_bytes()))
            .unwrap()
            .as_str(),
        "Gr\u{fc}n"
    );
}

// ── Metadata ───────────────────────────────────────────────────────────────

#[test]
fn metadata_constructor_rejects_empty() {
    let err = Metadata::from_bytes(Bytes::new()).expect_err("empty metadata rejected");
    assert!(matches!(err, ValueError::MetadataEmpty));
}

#[test]
fn metadata_keeps_its_bytes() {
    let m = Metadata::from_bytes(Bytes::from_static(b"who")).unwrap();
    assert_eq!(m.as_slice(), b"who");
    assert_eq!(m.to_bytes(), Bytes::from_static(b"who"));
    assert_eq!(m.clone(), m);
    assert_eq!(MAX_METADATA_LEN, 4294967294);
    assert_ne!(ValueError::MetadataTooLong, ValueError::MetadataEmpty);
}

#[derive(Debug, Clone, PartialEq, Eq)]
enum CtrEvent {
    Added(u64),
    Cleared,
}

/// Saves events with what the provider makes of each, and reads the stream back.
fn saved<P: MetadataProvider<CtrEvent>>(provider: &P, events: &[CtrEvent]) -> Vec<PersistedEnvelope> {
    let mut version = Version::initial();
    let mut envs = Vec::new();
    for event in events {
        let (name, byte) = match event {
            CtrEvent::Added(n) => ("Added", u8::try_from(*n % 251).unwrap_or(0)),
            CtrEvent::Cleared => ("Cleared", 255),
        };
        let payload = Bytes::copy_from_slice(&[byte]);
        let metadata = provider.metadata(version, event, &payload);
        envs.push(PendingEnvelope::new(
            version,
            EventType::new(name).unwrap(),
            SchemaVersion::initial(),
            payload,
            metadata,
        ));
        version = version.next().unwrap();
    }
    let mut store = TestStore::new();
    let key = StreamKey::from_slice(b"ctr");
    store
        .append(&key, None, PendingBatch::new(&envs).unwrap())
        .unwrap();
    store.read_stream(&key, Version::initial()).unwrap()
}

#[test]
fn provider_metadata_round_trips_with_exact_versions() {
    let observed: Arc<Mutex<Vec<Version>>> = Arc::new(Mutex::new(Vec::new()));
    let provider = {
        let observed = Arc::clone(&observed);
        move |version: Version, event: &CtrEvent, _payload: &Bytes| {
            observed.lock().push(version);
            let n = version.as_u64();
            let bytes = match event {
                CtrEvent::Added(a) => format!("v{n}:Added{a}").into_bytes(),
                CtrEvent::Cleared => format!("v{n}:Cleared").into_bytes(),
            };
            Some(Metadata::from_bytes(Bytes::from(bytes)).expect("valid metadata"))
        }
    };
    let envs = saved(
        &provider,
        &[CtrEvent::Added(10), CtrEvent::Added(20), CtrEvent::Cleared],
    );
    assert_eq!(envs.len(), 3);

    let want_meta = [
        b"v1:Added10".as_slice(),
        b"v2:Added20".as_slice(),
        b"v3:Cleared".as_slice(),
    ];
    for (env, want) in envs.iter().zip(want_meta.iter()) {
        assert_eq!(env.metadata_bytes().unwrap().as_ref(), *want);
    }

    let versions = observed.lock().clone();
    assert_eq!(
        versions,
        vec![
            Version::initial(),
            Version::new(2).unwrap(),
            Version::new(3).unwrap()
        ]
    );
}

#[test]
fn default_provider_leaves_metadata_absent() {
    let envs = saved(&(), &[CtrEvent::Added(1), CtrEvent::Added(2)]);
    assert_eq!(envs.len(), 2);
    for env in &envs {
        assert!(
            env.metadata().is_none(),
            "default provider must produce absent metadata"
        );
    }
}

#[test]
fn provider_mixed_some_and_none_per_event() {
    let provider = |_version: Version, event: &CtrEvent, _payload: &Bytes| match event {
        CtrEvent::Added(_) => None,
        CtrEvent::Cleared => {
            Some(Metadata::from_bytes(Bytes::from_static(b"reset-marker")).expect("valid"))
        }
    };
    let envs = saved(
        &provider,
        &[CtrEvent::Added(1), CtrEvent::Added(2), CtrEvent::Cleared],
    );
    assert_eq!(envs.len(), 3);
    assert!(envs[0].metadata().is_none());
    assert!(envs[1].metadata().is_none());
    assert_eq!(envs[2].metadata_bytes().unwrap().as_ref(), b"reset-marker");
}

#[test]
fn provider_large_metadata_round_trips() {
    let large_payload: Vec<u8> = (0..4_096u32)
        .map(|i| u8::try_from(i % 251).unwrap_or(0))
        .collect();
    let provider = {
        let large_payload = large_payload.clone();
        move |_version: Version, _event: &CtrEvent, _payload: &Bytes| {
            Some(Metadata::from_bytes(Bytes::from(large_payload.clone())).expect("valid"))
        }
    };
    let envs = saved(&provider, &[CtrEvent::Added(1)]);
    assert_eq!(envs.len(), 1);
    assert_eq!(
        envs[0].metadata_bytes().unwrap().as_ref(),
        large_payload.as_slice()
    );
}

// ── Versions ───────────────────────────────────────────────────────────────

#[test]
fn versions_count_from_one_to_the_end() {
    assert_eq!(Version::new(0), None);
    assert_eq!(Version::initial().as_u64(), 1);
    assert_eq!(Version::initial().next(), Version::new(2));
    assert_eq!(Version::new(u64::MAX).unwrap().next(), None);
    assert!(Version::new(2) < Version::new(3));
}

#[test]
fn schema_versions_count_from_one() {
    assert_eq!(SchemaVersion::from_u32(0), None);
    assert_eq!(SchemaVersion::initial().as_u32(), 1);
    assert_eq!(
        SchemaVersion::from_u32(u32::MAX).map(SchemaVersion::as_u32),
        Some(u32::MAX)
    );
}

// ── Keys and bytes ─────────────────────────────────────────────────────────

#[test]
fn keys_go_by_their_bytes() {
    let key = StreamKey::from_slice(b"order-1");
    assert_eq!(key.as_bytes(), b"order-1");
    assert!(key.same(&key.clone()));
    assert!(!key.same(&StreamKey::from_slice(b"order-")));
    assert!(!key.same(&StreamKey::from_slice(b"order-2")));
    assert!(StreamKey::from_slice(b"").as_bytes().is_empty());
}

#[test]
fn bytes_and_text_compare_by_content() {
    assert!(same_octets(b"", b""));
    assert!(same_octets(b"abc", b"abc"));
    assert!(!same_octets(b"abc", b"abd"));
    assert!(!same_octets(b"abc", b"ab"));
    assert!(same_text("Gr\u{fc}n", "Gr\u{fc}n"));
    assert!(!same_text("Grun", "Gr\u{fc}n"));
    assert_eq!(copied(b"xyz"), b"xyz".to_vec());
}

#[test]
fn numbers_are_written_in_decimal() {
    assert_eq!(decimal(0), b"0".to_vec());
    assert_eq!(decimal(10), b"10".to_vec());
    assert_eq!(decimal(u64::MAX), b"18446744073709551615".to_vec());
    assert_eq!(numbered(b"test-", 7), b"test-7".to_vec());
    assert_eq!(numbered_text(b"test-", 120), "test-120");
}

// ── The counter domain ─────────────────────────────────────────────────────

#[test]
fn test_ids_have_text_and_key() {
    let id = TestId::new("abc".to_string());
    assert_eq!(id.as_str(), "abc");
    assert_eq!(id.to_label(), "abc");
    assert_eq!(id.key().as_bytes(), b"abc");
    assert_eq!(id.clone(), id);
    assert_eq!(TestId::numbered(42).as_str(), "p-42");
}

#[test]
fn counter_events_have_names() {
    assert_eq!(CounterEvent::Incremented.name(), "Incremented");
    assert_eq!(CounterEvent::Decremented.name(), "Decremented");
    assert_eq!(CounterEvent::SetTo(7).name(), "Set");
}

#[test]
fn a_counter_counts() {
    let state = CounterState::initial();
    assert_eq!(CounterState::default(), state);
    assert_eq!(state.value, 0);
    let state = state.apply(&CounterEvent::Incremented);
    let state = state.apply(&CounterEvent::Incremented);
    let state = state.apply(&CounterEvent::Decremented);
    assert_eq!(state.value, 1);
    assert_eq!(state.apply(&CounterEvent::SetTo(-5)).value, -5);
}
