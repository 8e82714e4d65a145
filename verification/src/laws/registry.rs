//! Laws of the wake registry, over its calls: what counters show behind registrations, releases and
//! wakes.

use crate::channel::{observed_by, seen_by};
use crate::laws::wake::register_then_release_restores;
use crate::notifiers::{live, NotifyError, StreamNotifiers, WakeReg};
use crate::wake::{WakeRegistration, WakeSource};
use tokio::sync::watch;
use vstd::prelude::*;

verus! {

/// One more, wrapping at the end.
pub open spec fn one_up(before: u64, after: u64) -> bool {
    after == (before + 1) % 0x1_0000_0000_0000_0000
}

/// A new registry has no stream, and its counter of all streams starts at 0.
pub proof fn new_registry_is_empty(
    registry: StreamNotifiers,
    stream: &[u8],
    shown: u64,
    all: u64,
    active: usize,
)
    requires
        call_ensures(StreamNotifiers::new, (), registry),
        call_ensures(StreamNotifiers::generation, (&registry, stream), shown),
        call_ensures(StreamNotifiers::all_generation, (&registry,), all),
        call_ensures(StreamNotifiers::active_streams, (&registry,), active),
    ensures
        shown == 0,
        all == 0,
        active == 0,
        live(registry@, stream@) == 0,
{
}

/// A registration changes no counter. It makes its stream active, if it was not, and counts one up
/// for it and for no other stream. It fails exactly if the count is at its end, and then nothing
/// changes.
pub proof fn registering_changes_no_counter(
    registry: &mut StreamNotifiers,
    stream: &[u8],
    r: Result<WakeReg, NotifyError>,
    other: &[u8],
    shown: (u64, u64),
    all: (u64, u64),
    active: (usize, usize),
)
    requires
        old(registry).valid(),
        call_ensures(
            <StreamNotifiers as WakeSource>::register,
            (registry, Some(stream)),
            r,
        ),
        call_ensures(StreamNotifiers::generation, (&*old(registry), other), shown.0),
        call_ensures(StreamNotifiers::generation, (&*final(registry), other), shown.1),
        call_ensures(StreamNotifiers::all_generation, (&*old(registry),), all.0),
        call_ensures(StreamNotifiers::all_generation, (&*final(registry),), all.1),
        call_ensures(StreamNotifiers::active_streams, (&*old(registry),), active.0),
        call_ensures(StreamNotifiers::active_streams, (&*final(registry),), active.1),
    ensures
        shown.1 == shown.0,
        all.1 == all.0,
        r is Err <==> live(old(registry)@, stream@) == usize::MAX,
        r is Ok ==> live(final(registry)@, stream@) == live(old(registry)@, stream@) + 1,
        other@ != stream@ || r is Err ==> live(final(registry)@, other@) == live(
            old(registry)@,
            other@,
        ),
        r is Ok ==> active.1 == (if live(old(registry)@, stream@) == 0 {
            active.0 + 1
        } else {
            active.0 as int
        }),
        r is Err ==> active.1 == active.0,
{
    old(registry).valid_is_reaped();
    let before = old(registry)@;
    let after = final(registry)@;
    if r is Ok {
        assert(before.entries.dom().contains(stream@) <==> live(before, stream@) >= 1);
        if live(before, stream@) >= 1 {
            assert(after.entries.dom() =~= before.entries.dom());
        }
        if other@ != stream@ && before.entries.dom().contains(other@) {
            assert(after.entries[other@] == before.entries[other@]);
        }
    }
}

/// A registration that is given back leaves no trace: every counter and the number of active streams
/// are what they were before it was made, and so is the number of registrations of every stream.
pub proof fn registration_given_back_leaves_no_trace(
    registry: &mut StreamNotifiers,
    target: Option<&[u8]>,
    registration: WakeReg,
    later: &mut StreamNotifiers,
    other: &[u8],
    shown: (u64, u64),
    all: (u64, u64),
    active: (usize, usize),
)
    requires
        old(registry).valid(),
        call_ensures(
            <StreamNotifiers as WakeSource>::register,
            (registry, target),
            Ok::<WakeReg, NotifyError>(registration),
        ),
        *old(later) == *final(registry),
        call_ensures(StreamNotifiers::release, (later, registration), ()),
        call_ensures(StreamNotifiers::generation, (&*old(registry), other), shown.0),
        call_ensures(StreamNotifiers::generation, (&*final(later), other), shown.1),
        call_ensures(StreamNotifiers::all_generation, (&*old(registry),), all.0),
        call_ensures(StreamNotifiers::all_generation, (&*final(later),), all.1),
        call_ensures(StreamNotifiers::active_streams, (&*old(registry),), active.0),
        call_ensures(StreamNotifiers::active_streams, (&*final(later),), active.1),
    ensures
        shown.1 == shown.0,
        all.1 == all.0,
        active.1 == active.0,
        live(final(later)@, other@) == live(old(registry)@, other@),
{
    old(registry).valid_is_reaped();
    match target {
        Some(stream) => {
            register_then_release_restores(old(registry)@, final(registry)@, stream@);
        },
        None => {},
    }
}

/// A release takes one registration off its stream and leaves every other stream alone. The last one
/// takes the stream along: it is not active any more, and its counter is back at 0. Before that its
/// counter stays. A stream without registrations stays as it is.
pub proof fn last_release_takes_the_stream_along(
    registry: &mut StreamNotifiers,
    stream: &[u8],
    other: &[u8],
    own: (u64, u64),
    shown: (u64, u64),
    all: (u64, u64),
    active: (usize, usize),
)
    requires
        old(registry).valid(),
        other@ != stream@,
        call_ensures(StreamNotifiers::release_entry, (registry, stream), ()),
        call_ensures(StreamNotifiers::generation, (&*old(registry), stream), own.0),
        call_ensures(StreamNotifiers::generation, (&*final(registry), stream), own.1),
        call_ensures(StreamNotifiers::generation, (&*old(registry), other), shown.0),
        call_ensures(StreamNotifiers::generation, (&*final(registry), other), shown.1),
        call_ensures(StreamNotifiers::all_generation, (&*old(registry),), all.0),
        call_ensures(StreamNotifiers::all_generation, (&*final(registry),), all.1),
        call_ensures(StreamNotifiers::active_streams, (&*old(registry),), active.0),
        call_ensures(StreamNotifiers::active_streams, (&*final(registry),), active.1),
    ensures
        shown.1 == shown.0,
        all.1 == all.0,
        live(final(registry)@, other@) == live(old(registry)@, other@),
        ({
            let n = live(old(registry)@, stream@);
            &&& live(final(registry)@, stream@) == (if n == 0 {
                0
            } else {
                n - 1
            })
            &&& n >= 2 ==> own.1 == own.0 && active.1 == active.0
            &&& n == 1 ==> own.1 == 0 && active.1 == active.0 - 1
            &&& n == 0 ==> own.1 == own.0 && active.1 == active.0
        }),
{
    old(registry).valid_is_reaped();
    let before = old(registry)@;
    let after = final(registry)@;
    assert(before.entries.dom().contains(stream@) <==> live(before, stream@) >= 1);
    if live(before, stream@) >= 2 {
        assert(after.entries.dom() =~= before.entries.dom());
    }
}

/// A wake counts one up for its stream, if anyone is registered for it, and for all streams. No
/// other counter changes, no registration comes or goes, and no stream becomes active by it.
pub proof fn wake_counts_for_its_stream_and_for_all(
    registry: &mut StreamNotifiers,
    stream: &[u8],
    other: &[u8],
    own: (u64, u64),
    shown: (u64, u64),
    all: (u64, u64),
    active: (usize, usize),
)
    requires
        old(registry).valid(),
        other@ != stream@,
        call_ensures(StreamNotifiers::wake, (registry, stream), ()) || call_ensures(
            <StreamNotifiers as WakeSource>::wake,
            (registry, stream),
            (),
        ),
        call_ensures(StreamNotifiers::generation, (&*old(registry), stream), own.0),
        call_ensures(StreamNotifiers::generation, (&*final(registry), stream), own.1),
        call_ensures(StreamNotifiers::generation, (&*old(registry), other), shown.0),
        call_ensures(StreamNotifiers::generation, (&*final(registry), other), shown.1),
        call_ensures(StreamNotifiers::all_generation, (&*old(registry),), all.0),
        call_ensures(StreamNotifiers::all_generation, (&*final(registry),), all.1),
        call_ensures(StreamNotifiers::active_streams, (&*old(registry),), active.0),
        call_ensures(StreamNotifiers::active_streams, (&*final(registry),), active.1),
    ensures
        live(old(registry)@, stream@) >= 1 ==> one_up(own.0, own.1),
        live(old(registry)@, stream@) == 0 ==> own.0 == 0 && own.1 == 0,
        shown.1 == shown.0,
        one_up(all.0, all.1),
        active.1 == active.0,
        live(final(registry)@, stream@) == live(old(registry)@, stream@),
        live(final(registry)@, other@) == live(old(registry)@, other@),
{
    old(registry).valid_is_reaped();
    let before = old(registry)@;
    let after = final(registry)@;
    assert(before.entries.dom().contains(stream@) <==> live(before, stream@) >= 1);
    assert(after.entries.dom() =~= before.entries.dom());
}

/// A registration has seen what its stream's counter shows, so it waits for the next wake and not
/// for an earlier one. All registrations for one stream are on one channel.
pub proof fn registrations_of_one_stream_share_a_channel(
    registry: &mut StreamNotifiers,
    stream: &[u8],
    first: WakeReg,
    later: &mut StreamNotifiers,
    second: WakeReg,
    shown: u64,
)
    requires
        call_ensures(
            <StreamNotifiers as WakeSource>::register,
            (registry, Some(stream)),
            Ok::<WakeReg, NotifyError>(first),
        ),
        *old(later) == *final(registry),
        call_ensures(
            <StreamNotifiers as WakeSource>::register,
            (later, Some(stream)),
            Ok::<WakeReg, NotifyError>(second),
        ),
        call_ensures(StreamNotifiers::generation, (&*final(later), stream), shown),
    ensures
        second.channel() == first.channel(),
        first.seen() == shown,
        second.seen() == shown,
        first.guarded() == Some(stream@),
        second.guarded() == Some(stream@),
{
}

/// A wait that was armed for a stream ends with the next wake of that stream, and with no wake of
/// another one: the wait is on the stream's channel, and behind the wake that shows something else
/// than what counts as seen.
pub proof fn armed_wait_ends_with_the_wake_of_its_stream(
    registry: &mut StreamNotifiers,
    stream: &[u8],
    registration: WakeReg,
    wait: watch::Receiver<u64>,
    later: &mut StreamNotifiers,
    woken_stream: &[u8],
    shown: u64,
)
    requires
        call_ensures(
            <StreamNotifiers as WakeSource>::register,
            (registry, Some(stream)),
            Ok::<WakeReg, NotifyError>(registration),
        ),
        call_ensures(StreamNotifiers::arm, (&*final(registry), &registration), wait),
        *old(later) == *final(registry),
        call_ensures(StreamNotifiers::wake, (later, woken_stream), ()),
        call_ensures(StreamNotifiers::generation, (&*final(later), stream), shown),
    ensures
        observed_by(wait) == registration.channel(),
        final(later).announced(Some(stream@)) matches Some(announcement) && announcement.channel
            == observed_by(wait) && announcement.shown == shown,
        woken_stream@ == stream@ <==> seen_by(wait) != shown,
{
}

/// A wait that was armed for all streams ends with the next wake of any stream.
pub proof fn armed_wait_for_all_ends_with_any_wake(
    registry: &mut StreamNotifiers,
    registration: WakeReg,
    wait: watch::Receiver<u64>,
    later: &mut StreamNotifiers,
    stream: &[u8],
    all: u64,
)
    requires
        call_ensures(
            <StreamNotifiers as WakeSource>::register,
            (registry, None::<&[u8]>),
            Ok::<WakeReg, NotifyError>(registration),
        ),
        call_ensures(StreamNotifiers::arm, (&*final(registry), &registration), wait),
        *old(later) == *final(registry),
        call_ensures(StreamNotifiers::wake, (later, stream), ()),
        call_ensures(StreamNotifiers::all_generation, (&*final(later),), all),
    ensures
        observed_by(wait) == registration.channel(),
        registration.guarded() is None,
        final(later).announced(None) matches Some(announcement) && announcement.channel
            == observed_by(wait) && announcement.shown == all,
        seen_by(wait) != all,
        final(registry)@ == old(registry)@,
{
}

/// A wait on a registration itself stays on the registration's channel.
pub proof fn wait_stays_on_its_channel(registration: &WakeReg, wait: watch::Receiver<u64>)
    requires
        call_ensures(<WakeReg as WakeRegistration>::arm, (registration,), wait),
    ensures
        observed_by(wait) == registration.channel(),
{
}

/// Entries and registrations go together in every registry that its calls lead to.
pub proof fn active_streams_are_those_with_registrations(
    registry: &StreamNotifiers,
    stream: &[u8],
    shown: u64,
)
    requires
        registry.valid(),
        call_ensures(StreamNotifiers::generation, (registry, stream), shown),
    ensures
        registry.announced(Some(stream@)) is Some <==> live(registry@, stream@) >= 1,
        live(registry@, stream@) == 0 ==> shown == 0,
{
    registry.valid_is_reaped();
    assert(registry@.entries.dom().contains(stream@) <==> live(registry@, stream@) >= 1);
}

} // verus!
