//! Subscriptions: backlog, one boundary, live events.

use std::sync::Arc;
use std::time::Duration;

use bytes::Bytes;
use mnesis::codec::{Decode, Encode};
use mnesis::decoded::{decode_item, decode_step, events, DecodeStreamError, Decoded};
use mnesis::domain::DomainEvent;
use mnesis::envelope::{PendingBatch, PendingEnvelope, PersistedEnvelope};
use mnesis::notifiers::{NotifyError, StreamNotifiers};
use mnesis::step::Step;
use mnesis::store::{RawEventStore, Store};
use mnesis::stream_key::StreamKey;
use mnesis::subscription::{
    catch_up, catch_up_all, scan_from, LiveCursor, LoopAction, Subscription, CATCHUP_CHUNK,
};
use mnesis::test_support::{TestAllPos, TestStore, TestStoreError, TestWakeReg};
use mnesis::value::{EventType, SchemaVersion};
use mnesis::version::Version;
use mnesis::wake::{WakeRegistration, WakeSource};
use parking_lot::Mutex;
use tokio::runtime::Builder;
use tokio::sync::Barrier;
use tokio::time::timeout;

const TIMEOUT: Duration = Duration::from_secs(2);

#[derive(Debug, Clone, PartialEq)]
enum Money {
    Deposited { amount: u64 },
}
impl DomainEvent for Money {
    fn name(&self) -> &'static str {
        match self {
            Self::Deposited { .. } => "Deposited",
        }
    }
}

/// The amount in decimal digits.
#[derive(Debug, Clone, Copy)]
struct MoneyCodec;
impl Encode<Money> for MoneyCodec {
    type Error = std::convert::Infallible;
    fn encode(&self, value: &Money) -> Result<Bytes, Self::Error> {
        let Money::Deposited { amount } = value;
        Ok(Bytes::from(amount.to_string().into_bytes()))
    }
}
impl Decode<Money> for MoneyCodec {
    type Output<'a> = Money;
    type Error = String;
    fn decode<'a>(&'a self, env: &'a PersistedEnvelope) -> Result<Money, String> {
        let text = std::str::from_utf8(env.payload()).map_err(|e| e.to_string())?;
        let amount = text.parse::<u64>().map_err(|e| e.to_string())?;
        Ok(Money::Deposited { amount })
    }
}

fn sk(id: &str) -> StreamKey {
    StreamKey::from_slice(id.as_bytes())
}

fn version(v: u64) -> Version {
    Version::new(v).unwrap()
}

fn envelope(v: u64, name: &str, payload: Bytes) -> PendingEnvelope {
    PendingEnvelope::new(
        version(v),
        EventType::new(name).unwrap(),
        SchemaVersion::initial(),
        payload,
        None,
    )
}

fn money_envelope(v: u64, event: &Money) -> PendingEnvelope {
    envelope(v, event.name(), MoneyCodec.encode(event).unwrap())
}

fn append(store: &mut TestStore, id: &str, v: u64, ev: &Money) {
    let one = money_envelope(v, ev);
    store
        .append(&sk(id), Version::new(v - 1), PendingBatch::of(&one))
        .unwrap();
}

fn append_bad(store: &mut TestStore, id: &str, v: u64) {
    let bad = envelope(v, "Deposited", Bytes::from_static(b"not json"));
    store
        .append(&sk(id), Version::new(v - 1), PendingBatch::of(&bad))
        .unwrap();
}

fn deposited(amount: u64) -> Money {
    Money::Deposited { amount }
}

/// What a subscription to one stream hands out until it would wait.
fn steps(
    store: &TestStore,
    id: &str,
    cursor: &mut LiveCursor<Version>,
) -> Vec<Step<PersistedEnvelope>> {
    let drained = catch_up(store, &sk(id), cursor);
    assert_eq!(drained.failure, None);
    drained.steps
}

type AllItem = (TestAllPos, StreamKey, PersistedEnvelope);

fn all_steps(store: &TestStore, cursor: &mut LiveCursor<TestAllPos>) -> Vec<Step<AllItem>> {
    let drained = catch_up_all(store, cursor);
    assert_eq!(drained.failure, None);
    drained.steps
}

type DecodedStep = Result<Step<Decoded<Money>>, DecodeStreamError<TestStoreError, String>>;

fn decoded(
    store: &TestStore,
    id: &str,
    cursor: &mut LiveCursor<Version>,
) -> Vec<DecodedStep> {
    steps(store, id, cursor)
        .into_iter()
        .map(|step| decode_step(&MoneyCodec, Ok(step)))
        .collect()
}

// ── One stream ─────────────────────────────────────────────────────────────

#[test]
fn subscribe_decoded_replays_then_caught_up_then_live() {
    let mut store = TestStore::new();
    append(&mut store, "acct-1", 1, &deposited(100));
    append(&mut store, "acct-1", 2, &deposited(200));

    let mut cursor = LiveCursor::new(None);
    let mut seen = decoded(&store, "acct-1", &mut cursor).into_iter();

    // Two decoded replay events in version order.
    for (v, amt) in [(1u64, 100u64), (2, 200)] {
        match seen.next().unwrap().unwrap() {
            Step::Event(d) => {
                assert_eq!(d.version, version(v));
                assert_eq!(d.event, deposited(amt));
            }
            Step::CaughtUp => panic!("caught up before backlog drained"),
        }
    }
    // Then exactly one CaughtUp.
    let marker = seen.next().unwrap().unwrap();
    assert!(marker.is_caught_up(), "got {marker:?}");
    assert!(seen.next().is_none());

    // A live append is a further Event.
    append(&mut store, "acct-1", 3, &deposited(300));
    let mut live = decoded(&store, "acct-1", &mut cursor).into_iter();
    match live.next().unwrap().unwrap() {
        Step::Event(d) => assert_eq!(d.version, version(3)),
        Step::CaughtUp => panic!("CaughtUp emitted twice"),
    }
    assert!(live.next().is_none());
}

#[test]
fn subscribe_decoded_empty_backlog_is_immediately_caught_up() {
    let store = TestStore::new();
    let mut cursor = LiveCursor::new(None);
    let first = decoded(&store, "empty", &mut cursor)
        .into_iter()
        .next()
        .unwrap()
        .unwrap();
    assert!(
        first.is_caught_up(),
        "empty backlog must yield CaughtUp first, got {first:?}"
    );
}

#[test]
fn subscribe_decoded_corrupt_payload_surfaces_decode() {
    let mut store = TestStore::new();
    append_bad(&mut store, "bad", 1);

    let mut cursor = LiveCursor::new(None);
    let item = decoded(&store, "bad", &mut cursor)
        .into_iter()
        .next()
        .unwrap();
    assert!(
        matches!(item, Err(DecodeStreamError::Decode(_))),
        "got {item:?}"
    );
}

/// The next run of steps, waiting for a wake where there is none yet.
async fn pump(
    store: &Mutex<TestStore>,
    registration: &TestWakeReg,
    id: &str,
    cursor: &mut LiveCursor<Version>,
) -> Vec<Step<PersistedEnvelope>> {
    loop {
        let mut wait = registration.arm();
        let run = steps(&store.lock(), id, cursor);
        if !run.is_empty() {
            return run;
        }
        timeout(TIMEOUT, wait.changed())
            .await
            .expect("timed out waiting for a wake")
            .expect("the store is alive");
    }
}

#[test]
fn subscribe_decoded_caught_up_once_under_concurrent_writes() {
    let runtime = Builder::new_multi_thread()
        .worker_threads(2)
        .enable_time()
        .build()
        .unwrap();
    runtime.block_on(async {
        let store = Arc::new(Mutex::new(TestStore::new()));
        append(&mut store.lock(), "lin", 1, &deposited(1));
        let registration = store.lock().register(Some(b"lin")).unwrap();

        // The single replay event, then the CaughtUp marker.
        let mut cursor = LiveCursor::new(None);
        let first = pump(&store, &registration, "lin", &mut cursor).await;
        assert_eq!(first.len(), 2);
        assert!(matches!(&first[0], Step::Event(e) if e.version() == version(1)));
        assert!(first[1].is_caught_up());

        // A concurrent writer appends v2..=v5 after a rendezvous.
        let barrier = Arc::new(Barrier::new(2));
        let wb = Arc::clone(&barrier);
        let ws = Arc::clone(&store);
        let writer = tokio::spawn(async move {
            wb.wait().await;
            for v in 2..=5u64 {
                append(&mut ws.lock(), "lin", v, &deposited(v));
            }
        });
        barrier.wait().await;

        let mut versions = Vec::new();
        while versions.len() < 4 {
            for step in pump(&store, &registration, "lin", &mut cursor).await {
                match decode_step(&MoneyCodec, Ok::<_, TestStoreError>(step)).unwrap() {
                    Step::Event(d) => versions.push(d.version.as_u64()),
                    Step::CaughtUp => panic!("CaughtUp emitted more than once"),
                }
            }
        }
        writer.await.unwrap();
        assert_eq!(
            versions,
            vec![2, 3, 4, 5],
            "live events strictly monotonic, no dup/gap, no second CaughtUp"
        );
    });
}

#[test]
fn subscribe_emits_exactly_one_caughtup_across_a_large_multi_chunk_backlog() {
    const N: u64 = 2600; // more than twice the chunk of 1024
    let mut store = TestStore::new();

    // One append of the whole backlog.
    let envs: Vec<PendingEnvelope> = (1..=N)
        .map(|v| money_envelope(v, &deposited(v)))
        .collect();
    store
        .append(&sk("big"), None, PendingBatch::new(&envs).unwrap())
        .unwrap();

    let mut cursor = LiveCursor::new(None);
    let mut caughtup_count = 0u32;
    let mut caughtup_after: Option<u64> = None;
    let mut last_version = 0u64;
    let run = steps(&store, "big", &mut cursor);
    assert_eq!(run.len(), 2601);
    for step in run {
        match step {
            Step::Event(env) => {
                let v = env.version().as_u64();
                assert_eq!(v, last_version + 1, "backlog must arrive in strict order");
                assert_eq!(
                    caughtup_count, 0,
                    "no event may follow CaughtUp during catch-up"
                );
                last_version = v;
            }
            Step::CaughtUp => {
                caughtup_count += 1;
                caughtup_after = Some(last_version);
            }
        }
    }
    assert_eq!(
        caughtup_count, 1,
        "exactly one CaughtUp across the whole backlog"
    );
    assert_eq!(
        caughtup_after,
        Some(N),
        "CaughtUp lands after the final backlog event, not mid-scan"
    );
    assert_eq!(last_version, N, "every backlog event was delivered");

    // Behind the boundary: two live appends each arrive as Event, no further CaughtUp.
    append(&mut store, "big", N + 1, &deposited(1));
    append(&mut store, "big", N + 2, &deposited(2));
    let live = steps(&store, "big", &mut cursor);
    assert_eq!(live.len(), 2);
    for (step, expected) in live.into_iter().zip([N + 1, N + 2]) {
        match step {
            Step::Event(env) => assert_eq!(env.version().as_u64(), expected),
            Step::CaughtUp => panic!("CaughtUp must be emitted only once, ever"),
        }
    }
}

// ── All streams ────────────────────────────────────────────────────────────

#[test]
fn subscribe_all_replays_position_order_then_one_caughtup_then_live() {
    let mut store = TestStore::new();
    // Interleave across two streams so that the order is store-wide, not per stream.
    append(&mut store, "a", 1, &deposited(1));
    append(&mut store, "b", 1, &deposited(2));
    append(&mut store, "a", 2, &deposited(3));

    let mut cursor = LiveCursor::new(None);
    let mut positions = Vec::new();
    let mut keys = Vec::new();
    let mut caughtup_count = 0u32;
    for step in all_steps(&store, &mut cursor) {
        match step {
            Step::Event((pos, key, _env)) => {
                assert_eq!(
                    caughtup_count, 0,
                    "no $all event may follow CaughtUp during catch-up"
                );
                positions.push(pos.as_u64());
                keys.push(key);
            }
            Step::CaughtUp => caughtup_count += 1,
        }
    }
    assert_eq!(caughtup_count, 1, "exactly one CaughtUp over $all catch-up");
    assert_eq!(positions.len(), 3, "all three seeded events replayed");
    assert!(
        positions.windows(2).all(|w| w[0] < w[1]),
        "$all positions strictly ascending: {positions:?}"
    );
    let key_bytes: Vec<&[u8]> = keys.iter().map(StreamKey::as_bytes).collect();
    assert_eq!(
        key_bytes,
        vec![b"a".as_slice(), b"b".as_slice(), b"a".as_slice()],
        "$all items must carry the stream key they were appended to"
    );

    // Live append on a third stream: a strictly greater position.
    append(&mut store, "c", 1, &deposited(9));
    let live = all_steps(&store, &mut cursor);
    assert_eq!(live.len(), 1);
    match live.into_iter().next().unwrap() {
        Step::Event((pos, key, _)) => {
            assert!(
                pos.as_u64() > *positions.last().unwrap(),
                "live $all position must exceed the last catch-up position"
            );
            assert_eq!(
                key.as_bytes(),
                b"c",
                "live $all item must carry the appended stream's key"
            );
        }
        Step::CaughtUp => panic!("CaughtUp emitted twice"),
    }
}

#[test]
fn subscribe_all_decoded_preserves_position_tag_and_phase() {
    let mut store = TestStore::new();
    append(&mut store, "a", 1, &deposited(100));

    let mut cursor = LiveCursor::new(None);
    let mut seen = all_steps(&store, &mut cursor)
        .into_iter()
        .map(|step| decode_step(&MoneyCodec, Ok::<_, TestStoreError>(step)).unwrap());

    match seen.next().unwrap() {
        Step::Event((pos, key, d)) => {
            assert_eq!(pos.as_u64(), 1);
            assert_eq!(d.event, deposited(100));
            assert_eq!(d.version, version(1));
            assert_eq!(
                key.as_bytes(),
                b"a",
                "decode must preserve the stream-key tag"
            );
        }
        Step::CaughtUp => panic!("event must precede CaughtUp"),
    }
    assert!(
        seen.next().unwrap().is_caught_up(),
        "expected CaughtUp after the single backlog event"
    );
}

// ── Resumption ─────────────────────────────────────────────────────────────

#[test]
fn subscribe_resume_from_checkpoint_replays_only_the_tail_then_caughtup() {
    let mut store = TestStore::new();
    for v in 1..=3 {
        append(&mut store, "resume", v, &deposited(v));
    }

    let mut cursor = LiveCursor::new(Some(version(2)));
    let mut seen = steps(&store, "resume", &mut cursor).into_iter();

    // Strictly after v2: only v3 replays, then CaughtUp.
    match seen.next().unwrap() {
        Step::Event(env) => assert_eq!(env.version().as_u64(), 3, "resume must skip v1, v2"),
        Step::CaughtUp => panic!("v3 must replay before CaughtUp"),
    }
    assert!(
        seen.next().unwrap().is_caught_up(),
        "CaughtUp after the tail"
    );
}

#[test]
fn subscribe_resume_from_head_is_immediately_caught_up() {
    let mut store = TestStore::new();
    for v in 1..=3 {
        append(&mut store, "head", v, &deposited(v));
    }

    let mut cursor = LiveCursor::new(Some(version(3)));
    let first = steps(&store, "head", &mut cursor);
    assert_eq!(first.len(), 1);
    assert!(
        first[0].is_caught_up(),
        "resume from head must yield CaughtUp first with no re-delivery"
    );
    // The next item must be a genuinely live append, not a replay of history.
    append(&mut store, "head", 4, &deposited(4));
    let live = steps(&store, "head", &mut cursor);
    assert_eq!(live.len(), 1);
    match live.into_iter().next().unwrap() {
        Step::Event(env) => assert_eq!(env.version().as_u64(), 4),
        Step::CaughtUp => panic!("CaughtUp emitted twice"),
    }
}

// ── Dropping the phase ─────────────────────────────────────────────────────

fn bare(run: Vec<Step<PersistedEnvelope>>) -> Vec<PersistedEnvelope> {
    let items: Vec<Result<Step<PersistedEnvelope>, TestStoreError>> =
        run.into_iter().map(Ok).collect();
    events(items).into_iter().map(Result::unwrap).collect()
}

#[test]
fn events_strips_the_phase_yielding_bare_envelopes_in_order() {
    let mut store = TestStore::new();
    for v in 1..=3 {
        append(&mut store, "ev", v, &deposited(v));
    }

    let mut cursor = LiveCursor::new(None);
    let seen: Vec<u64> = bare(steps(&store, "ev", &mut cursor))
        .iter()
        .map(|env| env.version().as_u64())
        .collect();
    assert_eq!(seen, vec![1, 2, 3]);
    append(&mut store, "ev", 4, &deposited(4));
    let live: Vec<u64> = bare(steps(&store, "ev", &mut cursor))
        .iter()
        .map(|env| env.version().as_u64())
        .collect();
    assert_eq!(live, vec![4], "live event flows through events() too");
}

#[test]
fn events_then_decoded_yields_plain_decoded_without_phase() {
    let mut store = TestStore::new();
    append(&mut store, "evd", 1, &deposited(111));

    let mut cursor = LiveCursor::new(None);
    let env = bare(steps(&store, "evd", &mut cursor))
        .into_iter()
        .next()
        .unwrap();
    let d: Decoded<Money> = decode_item(&MoneyCodec, Ok::<_, TestStoreError>(env)).unwrap();
    assert_eq!(d.event, deposited(111));
    assert_eq!(d.version, version(1));
}

#[test]
fn decode_error_item_is_not_swallowed_by_the_phase_marker() {
    let mut store = TestStore::new();
    // One good event, then one payload that cannot be decoded.
    append(&mut store, "errphase", 1, &deposited(1));
    append_bad(&mut store, "errphase", 2);

    let mut cursor = LiveCursor::new(None);
    let mut seen = decoded(&store, "errphase", &mut cursor).into_iter();

    // v1 decodes as an Event...
    match seen.next().unwrap().unwrap() {
        Step::Event(d) => assert_eq!(d.version, version(1)),
        Step::CaughtUp => panic!("v1 must decode before the boundary"),
    }
    // ...v2 surfaces as an Err(Decode), not as CaughtUp.
    let item = seen.next().unwrap();
    assert!(
        matches!(item, Err(DecodeStreamError::Decode(_))),
        "a decode failure mid-backlog must be Err(Decode), got {item:?}"
    );
}

// ── Concurrency over all streams ───────────────────────────────────────────

#[test]
fn subscribe_all_caughtup_once_under_concurrent_multistream_writes() {
    let runtime = Builder::new_multi_thread()
        .worker_threads(4)
        .enable_time()
        .build()
        .unwrap();
    runtime.block_on(async {
        let store = Arc::new(Mutex::new(TestStore::new()));
        let registration = store.lock().register(None).unwrap();
        let mut cursor = LiveCursor::new(None);
        // The initial (empty) backlog: immediate CaughtUp.
        let first = all_steps(&store.lock(), &mut cursor);
        assert_eq!(first.len(), 1);
        assert!(first[0].is_caught_up(), "empty $all backlog: CaughtUp first");

        let barrier = Arc::new(Barrier::new(3));
        let mk = |name: &'static str| {
            let s = Arc::clone(&store);
            let b = Arc::clone(&barrier);
            tokio::spawn(async move {
                b.wait().await;
                for v in 1..=10u64 {
                    append(&mut s.lock(), name, v, &deposited(v));
                }
            })
        };
        let w1 = mk("x");
        let w2 = mk("y");
        barrier.wait().await;

        // All 20 live events; positions strictly increasing, no second CaughtUp.
        let mut prev = 0u64;
        let mut count = 0;
        while count < 20 {
            let mut wait = registration.arm();
            let run = all_steps(&store.lock(), &mut cursor);
            if run.is_empty() {
                timeout(TIMEOUT, wait.changed())
                    .await
                    .expect("timed out waiting for a wake")
                    .expect("the store is alive");
            }
            for step in run {
                match step {
                    Step::Event((pos, _, _)) => {
                        let p = pos.as_u64();
                        assert!(
                            p > prev,
                            "$all positions strictly increasing: {p} after {prev}"
                        );
                        prev = p;
                        count += 1;
                    }
                    Step::CaughtUp => panic!("CaughtUp must be emitted exactly once"),
                }
            }
        }
        w1.await.unwrap();
        w2.await.unwrap();
    });
}

// ── The loop, one decision at a time ───────────────────────────────────────

#[test]
fn the_loop_waits_only_behind_an_armed_empty_scan() {
    let mut cursor: LiveCursor<u64> = LiveCursor::new(Some(4));
    assert_eq!(cursor.next_action(), LoopAction::Scan { behind: Some(4) });
    assert!(cursor.on_scan(Vec::<(u64, ())>::new()).is_empty());
    assert_eq!(cursor.next_action(), LoopAction::Arm);
    cursor.on_armed();
    assert_eq!(cursor.next_action(), LoopAction::Scan { behind: Some(4) });
    // An event that came between the scan and the arming is found.
    assert_eq!(
        cursor.on_scan(vec![(7, "late")]),
        vec![Step::Event((7, "late"))]
    );
    assert_eq!(cursor.position(), Some(7));
    assert_eq!(cursor.next_action(), LoopAction::Scan { behind: Some(7) });
    assert!(cursor.on_scan(Vec::<(u64, ())>::new()).is_empty());
    cursor.on_armed();
    assert_eq!(
        cursor.on_scan(Vec::<(u64, ())>::new()),
        vec![Step::CaughtUp],
        "the boundary stands behind the first confirmed end"
    );
    assert_eq!(cursor.next_action(), LoopAction::Wait);
    cursor.on_wake();
    assert_eq!(cursor.next_action(), LoopAction::Scan { behind: Some(7) });
    assert!(cursor.on_scan(Vec::<(u64, ())>::new()).is_empty());
    cursor.on_armed();
    assert!(
        cursor.on_scan(Vec::<(u64, ())>::new()).is_empty(),
        "the boundary comes once"
    );
    assert_eq!(cursor.next_action(), LoopAction::Wait);
}

#[test]
fn one_scan_hands_out_at_most_a_chunk() {
    assert_eq!(CATCHUP_CHUNK, 1024);
    let mut cursor: LiveCursor<u64> = LiveCursor::new(None);
    let found: Vec<(u64, ())> = (1..=2000).map(|n| (n, ())).collect();
    let run = cursor.on_scan(found);
    assert_eq!(run.len(), 1024);
    assert_eq!(cursor.position(), Some(1024));
    assert_eq!(
        cursor.next_action(),
        LoopAction::Scan {
            behind: Some(1024)
        }
    );
}

#[test]
fn a_subscription_at_the_last_version_has_nothing_to_read() {
    let store = TestStore::new();
    let mut cursor = LiveCursor::new(Version::new(u64::MAX));
    let run = steps(&store, "s", &mut cursor);
    assert_eq!(run.len(), 1);
    assert!(run[0].is_caught_up());
    assert_eq!(cursor.position(), Version::new(u64::MAX));
}

#[test]
fn two_runs_join_without_a_seam() {
    let mut store = TestStore::new();
    for v in 1..=3 {
        append(&mut store, "s", v, &deposited(v));
    }
    let mut cursor = LiveCursor::new(None);
    let mut joined = bare(steps(&store, "s", &mut cursor));
    for v in 4..=6 {
        append(&mut store, "s", v, &deposited(v));
    }
    joined.extend(bare(steps(&store, "s", &mut cursor)));
    let mut whole = LiveCursor::new(None);
    assert_eq!(joined, bare(steps(&store, "s", &mut whole)));
    assert_eq!(cursor.position(), whole.position());
}

#[test]
fn a_handle_opens_subscriptions_of_both_kinds() {
    let mut raw = TestStore::new();
    append(&mut raw, "a", 1, &deposited(1));
    append(&mut raw, "b", 1, &deposited(2));
    let first = raw.read_all(None).unwrap()[0].0;
    let store = Store::new(raw);
    let subscription = Subscription::new(&store);
    assert!(Arc::ptr_eq(subscription.store(), store.arc()));

    let mut wakes = StreamNotifiers::new();
    let mut one = subscription
        .subscribe(&mut wakes, &sk("a"), None)
        .expect("registers");
    assert_eq!(wakes.active_streams(), 1, "the stream has a registration");
    let mut seen = wakes.arm(one.registration());
    assert!(!seen.has_changed().expect("open"));
    wakes.wake(b"a");
    assert!(seen.has_changed().expect("open"), "a commit ends the wait");
    seen.mark_unchanged();
    let run = one.drain();
    assert_eq!(run.steps.len(), 2);
    assert!(run.failure.is_none());
    assert!(one.drain().steps.is_empty(), "the boundary comes once");

    let mut all = subscription
        .subscribe_all(&mut wakes, Some(first))
        .expect("registers");
    let seen = wakes.arm(all.registration());
    wakes.wake(b"b");
    assert!(seen.has_changed().expect("open"), "any commit ends the wait");
    let run = all.drain();
    assert_eq!(run.steps.len(), 2);
    match &run.steps[0] {
        Step::Event((_, key, _)) => assert_eq!(key, &sk("b")),
        Step::CaughtUp => panic!("the event of b comes first"),
    }
}

#[test]
fn a_failed_registration_fails_the_subscription() {
    let store = Store::new(TestStore::new());
    let subscription = Subscription::new(&store);
    let refused: Result<(), NotifyError> = Err(NotifyError::SubscriberOverflow);
    match subscription.subscribe_with(refused, &sk("a"), None) {
        Err(e) => assert_eq!(e, NotifyError::SubscriberOverflow),
        Ok(_) => panic!("expected the failure of the registration"),
    }
    match subscription.subscribe_all_with(refused, None) {
        Err(e) => assert_eq!(e, NotifyError::SubscriberOverflow),
        Ok(_) => panic!("expected the failure of the registration"),
    }
}

#[test]
fn a_read_starts_behind_what_was_seen() {
    assert_eq!(scan_from(None), Version::new(1));
    assert_eq!(scan_from(Version::new(7)), Version::new(8));
    assert_eq!(scan_from(Version::new(u64::MAX)), None);
}

#[test]
fn many_runs_join_without_seam_and_mark_the_boundary_once() {
    let mut store = TestStore::new();
    let mut cursor = LiveCursor::new(None);
    let mut joined = Vec::new();
    for run in 0..4u64 {
        for v in 1..=run {
            let version = run * (run - 1) / 2 + v;
            append(&mut store, "s", version, &deposited(version));
        }
        joined.extend(steps(&store, "s", &mut cursor));
    }
    let marks = joined.iter().filter(|step| step.is_caught_up()).count();
    assert_eq!(marks, 1, "one boundary over all runs");
    assert!(joined[0].is_caught_up(), "the first run found nothing");
    let mut whole = LiveCursor::new(None);
    assert_eq!(bare(joined), bare(steps(&store, "s", &mut whole)));
}

#[test]
fn a_store_arms_a_wait_that_ends_with_the_next_commit() {
    let mut store = TestStore::new();
    let registration = store.register(Some(b"s")).expect("cannot fail");
    append(&mut store, "s", 1, &deposited(1));
    let wait = store.arm(&registration);
    assert!(!wait.has_changed().expect("open"), "what was there counts as seen");
    append(&mut store, "s", 2, &deposited(2));
    assert!(wait.has_changed().expect("open"), "the next commit ends the wait");
}

#[test]
fn many_runs_over_all_streams_join_without_seam() {
    let mut store = TestStore::new();
    append(&mut store, "a", 1, &deposited(1));
    let mut cursor: LiveCursor<TestAllPos> = LiveCursor::new(None);
    let mut joined = all_steps(&store, &mut cursor);
    assert_eq!(joined.len(), 2, "the backlog and the boundary");
    assert!(joined[1].is_caught_up());
    joined.extend(all_steps(&store, &mut cursor));
    assert_eq!(joined.len(), 2, "a run that finds nothing adds nothing");
    append(&mut store, "b", 1, &deposited(2));
    joined.extend(all_steps(&store, &mut cursor));
    append(&mut store, "a", 2, &deposited(3));
    append(&mut store, "b", 2, &deposited(4));
    joined.extend(all_steps(&store, &mut cursor));
    let places: Vec<Option<u64>> = joined
        .iter()
        .map(|step| match step {
            Step::Event((position, _, _)) => Some(position.as_u64()),
            Step::CaughtUp => None,
        })
        .collect();
    assert_eq!(places, vec![Some(1), None, Some(2), Some(3), Some(4)]);
}
