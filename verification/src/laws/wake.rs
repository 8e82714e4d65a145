//! Laws of the wake registry.

use crate::notifiers::{live, reaped, registered, released, shown_generation, woken, NotifiersView};
use vstd::prelude::*;

verus! {

/// A registration that is given back leaves no trace.
pub proof fn register_then_release_restores(
    before: NotifiersView,
    after: NotifiersView,
    stream: Seq<u8>,
)
    requires
        reaped(before),
        registered(before, after, stream),
    ensures
        released(after, stream) == before,
{
    let back = released(after, stream);
    assert(after.entries.dom().contains(stream));
    assert forall|key: Seq<u8>| #[trigger] back.entries.dom().contains(
        key,
    ) == before.entries.dom().contains(key) by {
        if key == stream {
            assert(before.entries.dom().contains(stream) <==> live(before, stream) >= 1);
        }
    }
    assert forall|key: Seq<u8>| before.entries.dom().contains(key)
        implies #[trigger] back.entries[key]
        == before.entries[key] by {
        if key == stream {
            assert(live(before, stream) >= 1);
            assert(back.entries[stream] =~= before.entries[stream]);
        } else {
            assert(after.entries[key] == before.entries[key]);
        }
    }
    assert(back.entries =~= before.entries);
}

/// Each registration counts one up and each release one down, for its stream alone.
pub proof fn registrations_are_counted(
    before: NotifiersView,
    after: NotifiersView,
    stream: Seq<u8>,
    other: Seq<u8>,
)
    requires
        registered(before, after, stream),
    ensures
        live(after, stream) == live(before, stream) + 1,
        other != stream ==> live(after, other) == live(before, other),
        live(released(before, stream), stream) == (if live(before, stream) == 0 {
            0
        } else {
            live(before, stream) - 1
        }) as nat,
        other != stream ==> live(released(before, stream), other) == live(before, other),
{
    if other != stream && before.entries.dom().contains(other) {
        assert(after.entries[other] == before.entries[other]);
    }
}

/// The last registration takes its entry along, and the next one for the same stream starts anew,
/// at generation 0.
pub proof fn reregistration_is_fresh(
    before: NotifiersView,
    after: NotifiersView,
    stream: Seq<u8>,
)
    requires
        live(before, stream) <= 1,
        registered(released(before, stream), after, stream),
        reaped(before),
    ensures
        !released(before, stream).entries.dom().contains(stream),
        shown_generation(released(before, stream), stream) == 0,
        after.entries[stream].generation == 0,
        after.entries[stream].subscribers == 1,
{
    if live(before, stream) == 0 {
        assert(!before.entries.dom().contains(stream));
    }
}

/// An earlier release of one of several registrations keeps the entry and its generation.
pub proof fn release_keeps_the_others(n: NotifiersView, stream: Seq<u8>)
    requires
        live(n, stream) >= 2,
    ensures
        released(n, stream).entries.dom() == n.entries.dom(),
        shown_generation(released(n, stream), stream) == shown_generation(n, stream),
{
    assert(released(n, stream).entries.dom() =~= n.entries.dom());
}

/// A wake reaches its stream and all streams together, and nothing else: both counters change, and
/// no other stream's does.
pub proof fn wake_is_isolated(n: NotifiersView, stream: Seq<u8>, other: Seq<u8>)
    ensures
        woken(n, stream).all_generation != n.all_generation,
        n.entries.dom().contains(stream) ==> shown_generation(woken(n, stream), stream)
            != shown_generation(n, stream),
        other != stream ==> shown_generation(woken(n, stream), other) == shown_generation(
            n,
            other,
        ),
        live(woken(n, stream), other) == live(n, other),
        woken(n, stream).all_channel == n.all_channel,
        n.entries.dom().contains(other) ==> woken(n, stream).entries[other].channel
            == n.entries[other].channel,
{
}

/// The registry behind a run of wakes, one stream after the other.
pub open spec fn woken_by(n: NotifiersView, wakes: Seq<Seq<u8>>) -> NotifiersView
    decreases wakes.len(),
{
    if wakes.len() == 0 {
        n
    } else {
        woken(woken_by(n, wakes.drop_last()), wakes.last())
    }
}

/// How many of the wakes are for `stream`.
pub open spec fn wakes_of(wakes: Seq<Seq<u8>>, stream: Seq<u8>) -> nat
    decreases wakes.len(),
{
    if wakes.len() == 0 {
        0
    } else {
        wakes_of(wakes.drop_last(), stream) + (if wakes.last() == stream {
            1nat
        } else {
            0nat
        })
    }
}

/// The generation `k` wakes behind `generation`.
pub open spec fn generation_behind(generation: u64, k: nat) -> int {
    (generation + k) % 0x1_0000_0000_0000_0000
}

/// Every wake counts one up, for its stream and for all streams, and no wake is lost or counted
/// twice. The channels stay.
pub proof fn wakes_are_counted(n: NotifiersView, wakes: Seq<Seq<u8>>, stream: Seq<u8>)
    ensures
        woken_by(n, wakes).entries.dom() == n.entries.dom(),
        n.entries.dom().contains(stream) ==> {
            &&& woken_by(n, wakes).entries[stream].channel == n.entries[stream].channel
            &&& shown_generation(woken_by(n, wakes), stream) == generation_behind(
                shown_generation(n, stream),
                wakes_of(wakes, stream),
            )
        },
        woken_by(n, wakes).all_channel == n.all_channel,
        woken_by(n, wakes).all_generation == generation_behind(n.all_generation, wakes.len()),
    decreases wakes.len(),
{
    if wakes.len() > 0 {
        let earlier = wakes.drop_last();
        wakes_are_counted(n, earlier, stream);
        let before = woken_by(n, earlier);
        assert(woken(before, wakes.last()).entries.dom() =~= before.entries.dom());
    }
}

/// A wait that was armed never loses a wake: what the wait counts as seen is what the counter
/// showed at the arming, and behind any run of wakes the counter shows something else as soon as
/// one of them was for the stream. Wakes of other streams leave the wait alone. A wait on all
/// streams sees every wake, whether or not its stream has an entry. Only a run of `u64::MAX + 1`
/// wakes or more can bring a counter back to where it was.
pub proof fn armed_wait_sees_every_wake(n: NotifiersView, wakes: Seq<Seq<u8>>, stream: Seq<u8>)
    requires
        wakes.len() <= u64::MAX,
    ensures
        n.entries.dom().contains(stream) ==> (shown_generation(woken_by(n, wakes), stream)
            != shown_generation(n, stream) <==> wakes_of(wakes, stream) > 0),
        woken_by(n, wakes).all_generation != n.all_generation <==> wakes.len() > 0,
{
    wakes_are_counted(n, wakes, stream);
    wakes_within(wakes, stream);
}

proof fn wakes_within(wakes: Seq<Seq<u8>>, stream: Seq<u8>)
    ensures
        wakes_of(wakes, stream) <= wakes.len(),
    decreases wakes.len(),
{
    if wakes.len() > 0 {
        wakes_within(wakes.drop_last(), stream);
    }
}

/// A wake of a stream that nobody registered for makes no entry.
pub proof fn wake_without_registrations_makes_no_entry(n: NotifiersView, stream: Seq<u8>)
    requires
        live(n, stream) == 0,
        reaped(n),
    ensures
        woken(n, stream).entries == n.entries,
        shown_generation(woken(n, stream), stream) == 0,
{
    assert(!n.entries.dom().contains(stream));
}

/// No operation leaves an entry without a registration, or a registration without an entry.
pub proof fn entries_follow_registrations(
    before: NotifiersView,
    after: NotifiersView,
    stream: Seq<u8>,
)
    requires
        reaped(before),
        registered(before, after, stream),
    ensures
        reaped(after),
        reaped(released(before, stream)),
        reaped(woken(before, stream)),
{
    assert forall|key: Seq<u8>| #[trigger] after.entries.dom().contains(key) <==> live(after, key)
        >= 1 by {
        if key != stream && before.entries.dom().contains(key) {
            assert(after.entries[key] == before.entries[key]);
            assert(live(before, key) >= 1);
        }
    }
    let less = released(before, stream);
    assert forall|key: Seq<u8>| #[trigger] less.entries.dom().contains(key) <==> live(less, key)
        >= 1 by {
        assert(before.entries.dom().contains(key) <==> live(before, key) >= 1);
    }
    let later = woken(before, stream);
    assert forall|key: Seq<u8>| #[trigger] later.entries.dom().contains(key) <==> live(later, key)
        >= 1 by {
        assert(before.entries.dom().contains(key) <==> live(before, key) >= 1);
    }
}

} // verus!
