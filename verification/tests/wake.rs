//! The wake registry: who is woken, who is not, and when an entry goes.

use std::sync::Arc;
use std::time::Duration;

use mnesis::channel::{armed, next_generation};
use mnesis::envelope::{PendingBatch, PendingEnvelope};
use mnesis::notifiers::{NotifyError, StreamNotifiers};
use mnesis::store::RawEventStore;
use mnesis::stream_key::StreamKey;
use mnesis::test_support::TestStore;
use mnesis::value::{EventType, SchemaVersion};
use mnesis::version::Version;
use mnesis::wake::{WakeRegistration, WakeSource};
use parking_lot::Mutex;
use tokio::runtime::{Builder, Runtime};
use tokio::sync::{watch, Barrier};
use tokio::time::timeout;

/// Far longer than any real scheduling delay: a timeout here is a lost wake.
const MUST_WAKE: Duration = Duration::from_secs(5);
/// Short bound for the negative: this wait must not end.
const MUST_NOT_WAKE: Duration = Duration::from_millis(150);

fn single() -> Runtime {
    Builder::new_current_thread()
        .enable_time()
        .build()
        .expect("runtime")
}

fn multi() -> Runtime {
    Builder::new_multi_thread()
        .worker_threads(4)
        .enable_time()
        .build()
        .expect("runtime")
}

async fn woken(wait: &mut watch::Receiver<u64>) -> bool {
    matches!(timeout(MUST_WAKE, wait.changed()).await, Ok(Ok(())))
}

async fn stays_asleep(wait: &mut watch::Receiver<u64>) -> bool {
    timeout(MUST_NOT_WAKE, wait.changed()).await.is_err()
}

// ── Sequence ───────────────────────────────────────────────────────────────

#[test]
fn register_then_wake_resolves_armed_wait() {
    single().block_on(async {
        let mut reg = StreamNotifiers::new();
        let registration = reg.register(Some(b"s1")).unwrap();
        assert_eq!(reg.active_streams(), 1);

        let mut wait = registration.arm(); // seen generation pinned now
        reg.wake(b"s1");
        assert!(
            woken(&mut wait).await,
            "armed wait must resolve after wake()"
        );
    });
}

#[test]
fn register_wake_drop_sequence_leaves_no_entry() {
    let mut reg = StreamNotifiers::new();
    let registration = reg.register(Some(b"s1")).unwrap();
    reg.wake(b"s1"); // live registration, none armed: nothing to end
    assert_eq!(reg.active_streams(), 1);
    reg.release(registration);
    assert_eq!(reg.active_streams(), 0);
}

// ── Lifecycle ──────────────────────────────────────────────────────────────

#[test]
fn refcount_reap_at_zero() {
    single().block_on(async {
        let mut reg = StreamNotifiers::new();
        let r1 = reg.register(Some(b"k")).unwrap();
        let r2 = reg.register(Some(b"k")).unwrap();
        // One stream entry, not two.
        assert_eq!(reg.active_streams(), 1);
        // Both registrations watch the same entry.
        let mut w1 = r1.arm();
        let mut w2 = r2.arm();
        reg.wake(b"k");
        assert!(woken(&mut w1).await, "first armed wait must resolve");
        assert!(woken(&mut w2).await, "second armed wait must resolve");

        reg.release(r1);
        assert_eq!(reg.active_streams(), 1); // one registration remains
        reg.release(r2);
        assert_eq!(reg.active_streams(), 0); // reaped at zero
    });
}

#[test]
fn reregister_after_reap_is_fresh() {
    let mut reg = StreamNotifiers::new();
    let first = reg.register(Some(b"k")).unwrap();
    reg.wake(b"k");
    assert_eq!(reg.generation(b"k"), 1);
    reg.release(first);
    assert_eq!(reg.active_streams(), 0);

    let _second = reg.register(Some(b"k")).unwrap();
    assert_eq!(reg.active_streams(), 1);
    assert_eq!(
        reg.generation(b"k"),
        0,
        "reaped entry must not be reused: re-register must build a fresh entry"
    );
}

#[test]
fn distinct_streams_are_independent() {
    let mut reg = StreamNotifiers::new();
    let a = reg.register(Some(b"a")).unwrap();
    let b = reg.register(Some(b"b")).unwrap();
    assert_eq!(reg.active_streams(), 2);
    reg.release(a);
    assert_eq!(reg.active_streams(), 1);
    reg.release(b);
    assert_eq!(reg.active_streams(), 0);
}

// ── Boundary ───────────────────────────────────────────────────────────────

#[test]
fn wake_with_no_subscribers_is_noop() {
    let mut reg = StreamNotifiers::new();
    reg.wake(b"never-subscribed");
    assert_eq!(reg.active_streams(), 0);
}

#[test]
fn empty_key_is_valid() {
    single().block_on(async {
        let mut reg = StreamNotifiers::new();
        let registration = reg.register(Some(b"")).unwrap();
        assert_eq!(reg.active_streams(), 1);
        let mut wait = registration.arm();
        reg.wake(b"");
        assert!(woken(&mut wait).await, "empty-key armed wait must resolve");
        reg.release(registration);
        assert_eq!(reg.active_streams(), 0);
    });
}

#[test]
fn wake_is_isolated_per_stream() {
    single().block_on(async {
        let mut reg = StreamNotifiers::new();
        let registration = reg.register(Some(b"A")).unwrap();
        let mut wait = registration.arm();

        // Wrong stream: must not resolve the wait on "A".
        reg.wake(b"B");
        assert!(
            stays_asleep(&mut wait).await,
            "a wake for stream B must not resolve a wait on stream A"
        );

        // Right stream: now it resolves.
        reg.wake(b"A");
        assert!(woken(&mut wait).await, "wait must resolve on its own stream");
    });
}

// ── Isolation ──────────────────────────────────────────────────────────────

#[test]
fn concurrent_churn_leaves_no_orphan() {
    multi().block_on(async {
        let reg = Arc::new(Mutex::new(StreamNotifiers::new()));
        let key: &[u8] = b"race";
        let workers = 16usize;
        let iterations = 200usize;
        let barrier = Arc::new(Barrier::new(workers + 1));

        let mut handles = Vec::with_capacity(workers + 1);
        for _ in 0..workers {
            let reg = Arc::clone(&reg);
            let barrier = Arc::clone(&barrier);
            handles.push(tokio::spawn(async move {
                barrier.wait().await; // all workers start together
                for _ in 0..iterations {
                    let registration = reg.lock().register(Some(key)).unwrap();
                    reg.lock().wake(key);
                    reg.lock().release(registration);
                }
            }));
        }
        // A concurrent waker on the same key throughout the churn.
        {
            let reg = Arc::clone(&reg);
            let barrier = Arc::clone(&barrier);
            handles.push(tokio::spawn(async move {
                barrier.wait().await;
                for _ in 0..(workers * iterations) {
                    reg.lock().wake(key);
                }
            }));
        }
        for h in handles {
            h.await.unwrap();
        }
        assert_eq!(
            reg.lock().active_streams(),
            0,
            "concurrent register/release/wake churn orphaned a registry entry"
        );
    });
}

#[test]
fn wake_increments_stream_generation() {
    let mut reg = StreamNotifiers::new();
    let _registration = reg.register(Some(b"s1")).unwrap();
    let before = reg.generation(b"s1");
    reg.wake(b"s1");
    let after = reg.generation(b"s1");
    assert_eq!(
        after,
        before + 1,
        "wake must bump the stream generation by 1"
    );
}

#[test]
fn wake_increments_all_generation() {
    let mut reg = StreamNotifiers::new();
    let before = reg.all_generation();
    reg.wake(b"any-stream");
    assert_eq!(reg.all_generation(), before + 1);
}

#[test]
fn generations_are_independent_per_stream() {
    let mut reg = StreamNotifiers::new();
    let _a = reg.register(Some(b"a")).unwrap();
    let _b = reg.register(Some(b"b")).unwrap();
    let a_before = reg.generation(b"a");
    let b_before = reg.generation(b"b");
    reg.wake(b"a");
    assert_eq!(
        reg.generation(b"a"),
        a_before + 1,
        "wake(a) must bump a's generation"
    );
    assert_eq!(
        reg.generation(b"b"),
        b_before,
        "wake(a) must not touch b's generation"
    );
}

#[test]
fn generation_of_unknown_stream_is_zero() {
    let reg = StreamNotifiers::new();
    assert_eq!(reg.generation(b"never"), 0);
}

#[test]
fn armed_wait_never_loses_a_concurrent_wake() {
    multi().block_on(async {
        for _ in 0..50 {
            let reg = Arc::new(Mutex::new(StreamNotifiers::new()));
            let registration = reg.lock().register(Some(b"k")).unwrap();
            let mut wait = registration.arm(); // armed before the race
            let start = Arc::new(Barrier::new(2));

            let start_prod = Arc::clone(&start);
            let reg_prod = Arc::clone(&reg);
            let prod = tokio::spawn(async move {
                start_prod.wait().await;
                reg_prod.lock().wake(b"k");
            });

            start.wait().await;
            assert!(
                woken(&mut wait).await,
                "an armed wait must not lose a concurrent wake"
            );
            prod.await.unwrap();
        }
    });
}

#[test]
fn all_registration_wakes_on_any_stream() {
    single().block_on(async {
        let mut reg = StreamNotifiers::new();
        let registration = reg.register(None).unwrap();
        let mut wait = registration.arm();
        reg.wake(b"any-stream");
        assert!(
            woken(&mut wait).await,
            "$all must wake on any stream wake"
        );
    });
}

fn arm_and_wake<W>(src: &mut W) -> (watch::Receiver<u64>, watch::Receiver<u64>)
where
    W: WakeSource,
    W::Registration: WakeRegistration<Wait = watch::Receiver<u64>>,
    W::Error: std::fmt::Debug,
{
    let per_stream = src.register(Some(b"k")).unwrap();
    let all = src.register(None).unwrap();
    let waits = (per_stream.arm(), all.arm());
    src.wake(b"k");
    waits
}

#[test]
fn trait_wake_routes_to_stream_and_all() {
    single().block_on(async {
        let mut reg = StreamNotifiers::new();
        let (mut wait_stream, mut wait_all) = arm_and_wake(&mut reg);
        assert!(
            woken(&mut wait_stream).await,
            "trait wake must rouse the per-stream registration"
        );
        assert!(
            woken(&mut wait_all).await,
            "trait wake must rouse the $all registration"
        );

        let mut store = TestStore::new();
        let (mut wait_stream, mut wait_all) = arm_and_wake(&mut store);
        assert!(woken(&mut wait_stream).await);
        assert!(woken(&mut wait_all).await);
    });
}

#[test]
fn dropping_registration_reaps_entry() {
    let mut reg = StreamNotifiers::new();
    let registration = reg.register(Some(b"s")).unwrap();
    assert_eq!(
        reg.active_streams(),
        1,
        "register(Some) must create one entry"
    );
    reg.release(registration);
    assert_eq!(
        reg.active_streams(),
        0,
        "releasing the registration must reap the entry"
    );
}

// ── Further cases ──────────────────────────────────────────────────────────

#[test]
fn registering_for_all_streams_makes_no_entry() {
    let mut reg = StreamNotifiers::new();
    let registration = reg.register(None).unwrap();
    assert_eq!(reg.active_streams(), 0);
    reg.release(registration);
    assert_eq!(reg.active_streams(), 0);
}

#[test]
fn releasing_one_registration_keeps_the_others() {
    let mut reg = StreamNotifiers::new();
    let r1 = reg.register(Some(b"k")).unwrap();
    let r2 = reg.register(Some(b"k")).unwrap();
    reg.wake(b"k");
    reg.release(r1);
    assert_eq!(reg.generation(b"k"), 1, "the entry keeps its generation");
    let wait = r2.arm();
    reg.wake(b"k");
    assert!(wait.has_changed().unwrap());
}

#[test]
fn releasing_an_unknown_stream_changes_nothing() {
    let mut reg = StreamNotifiers::new();
    let _kept = reg.register(Some(b"k")).unwrap();
    reg.release_entry(b"other");
    assert_eq!(reg.active_streams(), 1);
    reg.release_entry(b"k");
    assert_eq!(reg.active_streams(), 0);
}

#[test]
fn a_wake_before_arming_is_already_seen() {
    let mut reg = StreamNotifiers::new();
    let registration = reg.register(Some(b"k")).unwrap();
    reg.wake(b"k");
    let wait = registration.arm();
    assert!(!wait.has_changed().unwrap());
    reg.wake(b"k");
    assert!(wait.has_changed().unwrap());
}

#[test]
fn the_registry_arms_a_wait_on_either_target() {
    let mut reg = StreamNotifiers::new();
    let one = reg.register(Some(b"k")).unwrap();
    let all = reg.register(None).unwrap();
    reg.wake(b"k");
    let wait_one = reg.arm(&one);
    let wait_all = reg.arm(&all);
    assert!(!wait_one.has_changed().unwrap());
    assert!(!wait_all.has_changed().unwrap());
    reg.wake(b"other");
    assert!(!wait_one.has_changed().unwrap());
    assert!(wait_all.has_changed().unwrap());
    for n in 2..=5 {
        reg.wake(b"k");
        assert!(wait_one.has_changed().unwrap());
        assert_eq!(reg.generation(b"k"), n);
    }
    assert_eq!(*wait_one.borrow(), 5);
    assert_eq!(*wait_all.borrow(), 6);
}

#[test]
fn a_wait_on_an_entry_that_is_gone_ends() {
    single().block_on(async {
        let mut reg = StreamNotifiers::new();
        let held = reg.register(Some(b"k")).unwrap();
        reg.release_entry(b"k");
        let mut wait = reg.arm(&held);
        assert!(
            wait.changed().await.is_err(),
            "nobody can wake it any more, so it must not hang"
        );
    });
}

#[test]
fn generations_wrap_and_never_repeat_at_once() {
    assert_eq!(next_generation(0), 1);
    assert_eq!(next_generation(41), 42);
    assert_eq!(next_generation(u64::MAX), 0);
}

#[test]
fn an_armed_receiver_counts_only_later_changes() {
    let (tx, rx) = watch::channel(0u64);
    tx.send_replace(5);
    assert!(rx.has_changed().unwrap());
    let fresh = armed(&rx);
    assert!(!fresh.has_changed().unwrap());
    assert_eq!(*fresh.borrow(), 5);
    tx.send_replace(6);
    assert!(fresh.has_changed().unwrap());
}

#[test]
fn a_commit_wakes_the_store_s_waiters() {
    let mut store = TestStore::new();
    let registration = store.register(Some(b"other")).unwrap();
    let wait = registration.arm();
    let one = PendingEnvelope::new(
        Version::initial(),
        EventType::new("E").unwrap(),
        SchemaVersion::initial(),
        bytes::Bytes::from_static(b"p"),
        None,
    );
    let key = StreamKey::from_slice(b"s");
    store
        .append(&key, None, PendingBatch::of(&one))
        .expect("append");
    assert!(wait.has_changed().unwrap(), "any commit wakes every waiter");

    let wait = registration.arm();
    store
        .append(&key, None, PendingBatch::of(&one))
        .expect_err("stale");
    assert!(
        !wait.has_changed().unwrap(),
        "a refused append wakes nobody"
    );
}

#[test]
fn a_full_registry_has_a_name_for_it() {
    assert_eq!(
        NotifyError::SubscriberOverflow,
        NotifyError::SubscriberOverflow
    );
}
