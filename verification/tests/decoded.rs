//! Decoding raw items, one at a time.

use std::cell::RefCell;

use bytes::Bytes;
use mnesis::codec::Decode;
use mnesis::decoded::{
    decode_item, decode_step, drop_phase, events, fold_one, for_each_decoded, DecodeStreamError,
    Decoded, FoldDecodedError, RawItem,
};
use mnesis::envelope::PersistedEnvelope;
use mnesis::step::Step;
use mnesis::stream_key::StreamKey;
use mnesis::value::{EventType, Metadata, SchemaVersion};
use mnesis::version::Version;

#[derive(Debug)]
struct OctetCodec;
impl Decode<u8> for OctetCodec {
    type Output<'a> = u8;
    type Error = &'static str;
    fn decode<'a>(&'a self, env: &'a PersistedEnvelope) -> Result<u8, &'static str> {
        match env.payload() {
            [b] => Ok(*b),
            _ => Err("one byte expected"),
        }
    }
}

fn env(version: u64, payload: &'static [u8], metadata: Option<&'static [u8]>) -> PersistedEnvelope {
    PersistedEnvelope::new(
        Version::new(version).unwrap(),
        EventType::new("E").unwrap(),
        SchemaVersion::initial(),
        Bytes::from_static(payload),
        metadata.map(|m| Metadata::from_bytes(Bytes::from_static(m)).unwrap()),
    )
}

#[test]
fn a_decoded_event_keeps_version_and_metadata() {
    let item: Result<PersistedEnvelope, &str> = Ok(env(3, b"x", Some(b"who")));
    let d: Decoded<u8> = decode_item(&OctetCodec, item).unwrap();
    assert_eq!(d.event, b'x');
    assert_eq!(d.version, Version::new(3).unwrap());
    assert_eq!(d.metadata, Some(Bytes::from_static(b"who")));
}

#[test]
fn a_tagged_item_keeps_its_tags() {
    let key = StreamKey::from_slice(b"s");
    let item: Result<(u64, StreamKey, PersistedEnvelope), &str> =
        Ok((17, key.clone(), env(1, b"x", None)));
    let (position, stream, d): (u64, StreamKey, Decoded<u8>) =
        decode_item(&OctetCodec, item).unwrap();
    assert_eq!(position, 17);
    assert_eq!(stream, key);
    assert_eq!(d.event, b'x');
    assert_eq!(d.metadata, None);
}

#[test]
fn read_and_decode_failures_stay_apart() {
    let unread: Result<PersistedEnvelope, &str> = Err("offline");
    let read: Result<Decoded<u8>, _> = decode_item(&OctetCodec, unread);
    assert!(matches!(read, Err(DecodeStreamError::Read("offline"))));
    let bad: Result<PersistedEnvelope, &str> = Ok(env(1, b"xy", None));
    let read: Result<Decoded<u8>, _> = decode_item(&OctetCodec, bad);
    assert!(matches!(
        read,
        Err(DecodeStreamError::Decode("one byte expected"))
    ));
}

#[test]
fn the_boundary_passes_a_decoder_untouched() {
    let boundary: Result<Step<PersistedEnvelope>, &str> = Ok(Step::CaughtUp);
    let step: Step<Decoded<u8>> = decode_step(&OctetCodec, boundary).unwrap();
    assert!(step.is_caught_up());
    let unread: Result<Step<PersistedEnvelope>, &str> = Err("offline");
    let read: Result<Step<Decoded<u8>>, _> = decode_step(&OctetCodec, unread);
    assert!(matches!(read, Err(DecodeStreamError::Read("offline"))));
}

#[test]
fn dropping_the_phase_keeps_events_and_errors_in_order() {
    let items: Vec<Result<Step<u8>, &str>> = vec![
        Ok(Step::Event(1)),
        Ok(Step::CaughtUp),
        Err("offline"),
        Ok(Step::Event(2)),
    ];
    assert_eq!(events(items), vec![Ok(1), Err("offline"), Ok(2)]);
    let boundary: Result<Step<u8>, &str> = Ok(Step::CaughtUp);
    assert_eq!(drop_phase(boundary), None);
    let event: Result<Step<u8>, &str> = Ok(Step::Event(9));
    assert_eq!(drop_phase(event), Some(Ok(9)));
}

#[test]
fn a_step_maps_its_event_only() {
    assert_eq!(Step::Event(3).map(|n: u8| n + 1), Step::Event(4));
    let boundary: Step<u8> = Step::CaughtUp;
    assert_eq!(boundary.map(|n: u8| n + 1), Step::CaughtUp);
}

#[test]
fn a_fold_stops_at_the_first_failure() {
    let seen = RefCell::new(Vec::new());
    let take = |d: Decoded<u8>| -> Result<(), &'static str> {
        if d.event == b'!' {
            return Err("enough");
        }
        seen.borrow_mut().push(d.event);
        Ok(())
    };
    let whole: Vec<Result<PersistedEnvelope, &str>> =
        vec![Ok(env(1, b"a", None)), Ok(env(2, b"b", None))];
    let done: Result<(), FoldDecodedError<&str, &str, &str>> =
        for_each_decoded(whole, &OctetCodec, &take);
    assert!(done.is_ok());
    assert_eq!(*seen.borrow(), b"ab".to_vec());

    let handler: Vec<Result<PersistedEnvelope, &str>> =
        vec![Ok(env(1, b"c", None)), Ok(env(2, b"!", None)), Ok(env(3, b"d", None))];
    let ended = for_each_decoded(handler, &OctetCodec, &take);
    assert!(matches!(ended, Err(FoldDecodedError::Handler("enough"))));
    let decode: Vec<Result<PersistedEnvelope, &str>> =
        vec![Ok(env(1, b"", None)), Ok(env(2, b"e", None))];
    let ended = for_each_decoded(decode, &OctetCodec, &take);
    assert!(matches!(
        ended,
        Err(FoldDecodedError::Decode("one byte expected"))
    ));
    let read: Vec<Result<PersistedEnvelope, &str>> = vec![Err("offline")];
    let ended = for_each_decoded(read, &OctetCodec, &take);
    assert!(matches!(ended, Err(FoldDecodedError::Read("offline"))));
    assert_eq!(*seen.borrow(), b"abc".to_vec());
}

#[test]
fn one_event_is_folded_at_a_time() {
    let take = |d: Decoded<u8>| -> Result<(), u8> { Err(d.event) };
    let ended: Result<(), FoldDecodedError<&str, &str, u8>> =
        fold_one(&OctetCodec, &take, &env(1, b"z", None));
    assert!(matches!(ended, Err(FoldDecodedError::Handler(b'z'))));
}

#[test]
fn a_raw_item_shows_its_envelope() {
    let one = env(4, b"x", None);
    let shown: &PersistedEnvelope = RawItem::<u8>::envelope(&one);
    assert_eq!(shown.version(), Version::new(4).unwrap());
}

/// Decodes to the part of the payload behind the colon, without copying it.
#[derive(Debug)]
struct WindowCodec;
impl Decode<Vec<u8>> for WindowCodec {
    type Output<'a> = &'a [u8];
    type Error = &'static str;
    fn decode<'a>(&'a self, env: &'a PersistedEnvelope) -> Result<&'a [u8], &'static str> {
        let payload = env.payload();
        match payload.iter().position(|b| *b == b':') {
            Some(at) => Ok(&payload[at + 1..]),
            None => Err("no colon"),
        }
    }
}

#[test]
fn a_fold_takes_codecs_that_borrow_the_envelope() {
    let seen: RefCell<Vec<(u64, usize)>> = RefCell::new(Vec::new());
    let one = env(7, b"key:value", None);
    let start = one.payload().as_ptr();
    let take = |d: Decoded<&[u8]>| -> Result<(), &'static str> {
        assert_eq!(d.event, b"value");
        let offset = d.event.as_ptr() as usize - start as usize;
        seen.borrow_mut().push((d.version.as_u64(), offset));
        Ok(())
    };
    let done: Result<(), FoldDecodedError<&str, &str, &str>> =
        fold_one(&WindowCodec, &take, &one);
    assert!(done.is_ok());
    assert_eq!(*seen.borrow(), vec![(7, 4)], "the window lies in the payload");

    let ended: Result<(), FoldDecodedError<&str, &str, &str>> =
        fold_one(&WindowCodec, &take, &env(8, b"plain", None));
    assert!(matches!(ended, Err(FoldDecodedError::Decode("no colon"))));
}

#[test]
fn decoding_and_dropping_the_phase_commute() {
    let items = || -> Vec<Result<Step<PersistedEnvelope>, &'static str>> {
        vec![
            Ok(Step::Event(env(1, b"a", None))),
            Ok(Step::CaughtUp),
            Err("offline"),
            Ok(Step::Event(env(2, b"", None))),
            Ok(Step::Event(env(3, b"c", None))),
        ]
    };
    let shown = |r: &Result<Decoded<u8>, DecodeStreamError<&str, &str>>| format!("{r:?}");
    let first: Vec<String> = events(
        items()
            .into_iter()
            .map(|item| decode_step(&OctetCodec, item))
            .collect(),
    )
    .iter()
    .map(shown)
    .collect();
    let second: Vec<String> = events(items())
        .into_iter()
        .map(|item| decode_item(&OctetCodec, item))
        .map(|r| shown(&r))
        .collect();
    assert_eq!(first, second);
    assert_eq!(first.len(), 4);
}
