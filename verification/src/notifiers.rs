//! The in-process wake registry: one generation counter for each stream that someone waits on,
//! and one for all streams together.
//!
//! An entry lives exactly as long as its stream has a registration. Every commit to a stream bumps
//! the stream's counter, if it has one, and the counter of all streams.

use crate::channel::{
    armed, bump, channel_of, current, generation_of, observe, observed_by, open_channel, seen_by,
    successor,
};
use crate::octets::same_octets;
use crate::stream_key::StreamKey;
use crate::wake::{Announcement, WakeRegistration, WakeSource};
use tokio::sync::watch;
use vstd::prelude::*;

verus! {

/// Failures of the registry.
#[derive(Clone, Copy, Debug, PartialEq, Eq, Structural)]
#[non_exhaustive]
pub enum NotifyError {
    /// A stream cannot have more than `usize::MAX` registrations.
    SubscriberOverflow,
}

/// One stream's entry.
#[derive(Debug)]
struct Entry {
    key: StreamKey,
    gen_tx: watch::Sender<u64>,
    subscribers: usize,
}

/// What the registry keeps for a stream.
#[verifier::ext_equal]
pub struct EntryView {
    pub generation: u64,
    pub subscribers: nat,
    pub channel: int,
}

impl View for Entry {
    type V = EntryView;

    closed spec fn view(&self) -> EntryView {
        EntryView {
            generation: generation_of(self.gen_tx),
            subscribers: self.subscribers as nat,
            channel: channel_of(self.gen_tx),
        }
    }
}

/// What the registry keeps: an entry per stream with registrations, and the counter of all
/// streams.
#[verifier::ext_equal]
pub struct NotifiersView {
    pub entries: Map<Seq<u8>, EntryView>,
    pub all_generation: u64,
    pub all_channel: int,
}

/// The in-process wake registry.
#[derive(Debug)]
pub struct StreamNotifiers {
    entries: Vec<Entry>,
    all_gen_tx: watch::Sender<u64>,
}

spec fn holds(entries: Seq<Entry>, key: Seq<u8>) -> bool {
    exists|i: int| 0 <= i < entries.len() && (#[trigger] entries[i]).key@ == key
}

spec fn slot(entries: Seq<Entry>, key: Seq<u8>) -> int {
    choose|i: int| 0 <= i < entries.len() && (#[trigger] entries[i]).key@ == key
}

spec fn entry_map(entries: Seq<Entry>) -> Map<Seq<u8>, EntryView> {
    Map::new(|key: Seq<u8>| holds(entries, key), |key: Seq<u8>| entries[slot(entries, key)]@)
}

spec fn distinct(entries: Seq<Entry>) -> bool {
    forall|i: int, j: int|
        0 <= i < j < entries.len() ==> (#[trigger] entries[i]).key@ != (#[trigger] entries[j]).key@
}

proof fn entry_at(entries: Seq<Entry>, i: int)
    requires
        distinct(entries),
        0 <= i < entries.len(),
    ensures
        holds(entries, entries[i].key@),
        slot(entries, entries[i].key@) == i,
        entry_map(entries).dom().contains(entries[i].key@),
        entry_map(entries)[entries[i].key@] == entries[i]@,
{
    assert(holds(entries, entries[i].key@));
}

impl View for StreamNotifiers {
    type V = NotifiersView;

    closed spec fn view(&self) -> NotifiersView {
        NotifiersView {
            entries: entry_map(self.entries@),
            all_generation: generation_of(self.all_gen_tx),
            all_channel: channel_of(self.all_gen_tx),
        }
    }
}

/// The wake counter that `stream` shows: that of its entry, 0 without one.
pub open spec fn shown_generation(n: NotifiersView, stream: Seq<u8>) -> u64 {
    if n.entries.dom().contains(stream) {
        n.entries[stream].generation
    } else {
        0
    }
}

/// The number of live registrations for `stream`.
pub open spec fn live(n: NotifiersView, stream: Seq<u8>) -> nat {
    if n.entries.dom().contains(stream) {
        n.entries[stream].subscribers
    } else {
        0
    }
}

/// An entry exists exactly while its stream has a live registration.
pub open spec fn reaped(n: NotifiersView) -> bool {
    forall|key: Seq<u8>| #[trigger] n.entries.dom().contains(key) <==> live(n, key) >= 1
}

/// `after` is `before` with one more registration for `stream`: a new entry starts at generation
/// 0, and one that exists keeps its generation and its channel.
pub open spec fn registered(before: NotifiersView, after: NotifiersView, stream: Seq<u8>) -> bool {
    &&& after.entries.dom() == before.entries.dom().insert(stream)
    &&& after.entries[stream].subscribers == live(before, stream) + 1
    &&& after.entries[stream].generation == shown_generation(before, stream)
    &&& before.entries.dom().contains(stream) ==> after.entries[stream].channel
        == before.entries[stream].channel
    &&& forall|key: Seq<u8>|
        key != stream && before.entries.dom().contains(key) ==> #[trigger] after.entries[key]
            == before.entries[key]
    &&& after.all_generation == before.all_generation
    &&& after.all_channel == before.all_channel
}

/// The registry with one registration for `stream` less. The last one takes the entry along.
pub open spec fn released(n: NotifiersView, stream: Seq<u8>) -> NotifiersView {
    if live(n, stream) == 0 {
        n
    } else if live(n, stream) == 1 {
        NotifiersView { entries: n.entries.remove(stream), ..n }
    } else {
        let entry = n.entries[stream];
        NotifiersView {
            entries: n.entries.insert(
                stream,
                EntryView { subscribers: (entry.subscribers - 1) as nat, ..entry },
            ),
            ..n
        }
    }
}

/// The registry behind a wake of `stream`.
pub open spec fn woken(n: NotifiersView, stream: Seq<u8>) -> NotifiersView {
    let entries = if n.entries.dom().contains(stream) {
        let entry = n.entries[stream];
        n.entries.insert(
            stream,
            EntryView { generation: successor(entry.generation), ..entry },
        )
    } else {
        n.entries
    };
    NotifiersView { entries, all_generation: successor(n.all_generation), ..n }
}

/// A registration: a receiver on its target's channel, and the stream it holds an entry of.
///
/// It holds no handle to its registry: [`StreamNotifiers::release`] gives it back. Whoever shares a
/// registry behind a lock calls it when the registration's holder is dropped.
#[derive(Debug)]
pub struct WakeReg {
    rx: watch::Receiver<u64>,
    guard: Option<StreamKey>,
}

impl WakeReg {
    /// The stream that the registration holds an entry of; `None` for all streams.
    pub closed spec fn guarded(&self) -> Option<Seq<u8>> {
        match self.guard {
            Some(key) => Some(key@),
            None => None,
        }
    }
}

impl WakeRegistration for WakeReg {
    type Wait = watch::Receiver<u64>;

    closed spec fn channel(&self) -> int {
        observed_by(self.rx)
    }

    closed spec fn seen(&self) -> u64 {
        seen_by(self.rx)
    }

    fn arm(&self) -> (r: watch::Receiver<u64>)
        ensures
            observed_by(r) == self.channel(),
    {
        armed(&self.rx)
    }
}

impl StreamNotifiers {
    /// No stream is listed twice, and each one listed has a registration.
    pub closed spec fn valid(&self) -> bool {
        &&& distinct(self.entries@)
        &&& forall|i: int|
            0 <= i < self.entries@.len() ==> (#[trigger] self.entries@[i]).subscribers >= 1
    }

    /// Every registry has an entry for exactly those streams that have a registration.
    pub proof fn valid_is_reaped(&self)
        requires
            self.valid(),
        ensures
            reaped(self@),
    {
        assert forall|key: Seq<u8>| #[trigger] self@.entries.dom().contains(key) implies live(
            self@,
            key,
        ) >= 1 by {
            let i = slot(self.entries@, key);
            assert(0 <= i < self.entries@.len());
            entry_at(self.entries@, i);
        }
    }

    /// An empty registry.
    pub fn new() -> (r: StreamNotifiers)
        ensures
            r.valid(),
            r@.entries == Map::<Seq<u8>, EntryView>::empty(),
            r@.all_generation == 0,
    {
        let r = StreamNotifiers { entries: Vec::new(), all_gen_tx: open_channel(0) };
        assert(r@.entries =~= Map::empty());
        r
    }

    /// Where the entry of `stream` is.
    fn find(&self, stream: &[u8]) -> (r: Option<usize>)
        requires
            self.valid(),
        ensures
            match r {
                Some(at) => {
                    &&& at < self.entries@.len()
                    &&& self.entries@[at as int].key@ == stream@
                    &&& self@.entries.dom().contains(stream@)
                    &&& self@.entries[stream@] == self.entries@[at as int]@
                },
                None => !self@.entries.dom().contains(stream@) && forall|i: int|
                    0 <= i < self.entries@.len() ==> (#[trigger] self.entries@[i]).key@ != stream@,
            },
    {
        let mut i: usize = 0;
        while i < self.entries.len()
            invariant
                0 <= i <= self.entries.len(),
                self.valid(),
                forall|j: int| 0 <= j < i ==> (#[trigger] self.entries@[j]).key@ != stream@,
            decreases self.entries.len() - i,
        {
            if same_octets(self.entries[i].key.as_bytes(), stream) {
                proof {
                    entry_at(self.entries@, i as int);
                }
                return Some(i);
            }
            i = i + 1;
        }
        None
    }

    /// Registers interest in one stream.
    fn register_entry(&mut self, stream: &[u8]) -> (r: Result<WakeReg, NotifyError>)
        requires
            old(self).valid(),
        ensures
            final(self).valid(),
            r is Err <==> live(old(self)@, stream@) == usize::MAX,
            match r {
                Ok(registration) => {
                    &&& registered(old(self)@, final(self)@, stream@)
                    &&& registration.channel() == final(self)@.entries[stream@].channel
                    &&& registration.seen() == final(self)@.entries[stream@].generation
                    &&& registration.guarded() == Some(stream@)
                },
                Err(e) => final(self)@ == old(self)@,
            },
    {
        let ghost before = self.entries@;
        match self.find(stream) {
            Some(at) => {
                let count: usize = self.entries[at].subscribers;
                if count == usize::MAX {
                    return Err(NotifyError::SubscriberOverflow);
                }
                self.entries[at].subscribers = count + 1;
                proof {
                    let after = self.entries@;
                    updated_entry(before, after, at as int);
                    assert(self@.entries.dom() =~= old(self)@.entries.dom().insert(stream@));
                }
                let rx: watch::Receiver<u64> = observe(&self.entries[at].gen_tx);
                Ok(WakeReg { rx, guard: Some(StreamKey::from_slice(stream)) })
            },
            None => {
                let gen_tx: watch::Sender<u64> = open_channel(0);
                let rx: watch::Receiver<u64> = observe(&gen_tx);
                self.entries.push(
                    Entry { key: StreamKey::from_slice(stream), gen_tx, subscribers: 1 },
                );
                proof {
                    let after = self.entries@;
                    let last = before.len() as int;
                    assert forall|i: int| 0 <= i < last implies (#[trigger] after[i])
                        == before[i] by {}
                    entry_at(after, last);
                    assert forall|key: Seq<u8>| #[trigger] holds(after, key) <==> holds(before, key)
                        || key == stream@ by {
                        if holds(before, key) {
                            assert(after[slot(before, key)].key@ == key);
                        }
                        if holds(after, key) && key != stream@ {
                            assert(before[slot(after, key)].key@ == key);
                        }
                    }
                    assert(self@.entries.dom() =~= old(self)@.entries.dom().insert(stream@));
                    assert forall|key: Seq<u8>|
                        key != stream@ && old(self)@.entries.dom().contains(
                            key,
                        ) implies #[trigger] self@.entries[key] == old(self)@.entries[key] by {
                        let i = slot(before, key);
                        entry_at(before, i);
                        entry_at(after, i);
                    }
                }
                Ok(WakeReg { rx, guard: Some(StreamKey::from_slice(stream)) })
            },
        }
    }

    /// Arms a wait on a registration's target: what its counter shows now counts as seen, so that
    /// the wait ends with the next wake. The registration is one with this registry.
    pub fn arm(&self, registration: &WakeReg) -> (r: watch::Receiver<u64>)
        requires
            self.valid(),
            match registration.guarded() {
                None => registration.channel() == self@.all_channel,
                Some(stream) => self@.entries.dom().contains(stream) ==> registration.channel()
                    == self@.entries[stream].channel,
            },
        ensures
            observed_by(r) == registration.channel(),
            match registration.guarded() {
                None => seen_by(r) == self@.all_generation,
                Some(stream) => self@.entries.dom().contains(stream) ==> seen_by(r)
                    == self@.entries[stream].generation,
            },
    {
        match &registration.guard {
            None => observe(&self.all_gen_tx),
            Some(key) => match self.find(key.as_bytes()) {
                Some(at) => observe(&self.entries[at].gen_tx),
                None => registration.arm(),
            },
        }
    }

    /// Gives a registration back.
    pub fn release(&mut self, registration: WakeReg)
        requires
            old(self).valid(),
        ensures
            final(self).valid(),
            final(self)@ == (match registration.guarded() {
                Some(stream) => released(old(self)@, stream),
                None => old(self)@,
            }),
    {
        match registration.guard {
            Some(key) => {
                self.release_entry(key.as_bytes());
            },
            None => {},
        }
    }

    /// Takes one registration off the entry of `stream`. The last one takes the entry along; a
    /// stream without an entry is left alone.
    pub fn release_entry(&mut self, stream: &[u8])
        requires
            old(self).valid(),
        ensures
            final(self).valid(),
            final(self)@ == released(old(self)@, stream@),
    {
        let ghost before = self.entries@;
        match self.find(stream) {
            None => {},
            Some(at) => {
                let count: usize = self.entries[at].subscribers;
                if count <= 1 {
                    let reaped: Entry = self.entries.remove(at);
                    proof {
                        let after = self.entries@;
                        assert forall|i: int| 0 <= i < after.len() implies (#[trigger] after[i])
                            == before[if i < at {
                            i
                        } else {
                            i + 1
                        }] by {}
                        assert forall|key: Seq<u8>| #[trigger] holds(after, key) <==> holds(
                            before,
                            key,
                        ) && key != stream@ by {
                            if holds(before, key) && key != stream@ {
                                let i = slot(before, key);
                                assert(after[if i < at {
                                    i
                                } else {
                                    i - 1
                                }].key@ == key);
                            }
                            if holds(after, key) {
                                let i = slot(after, key);
                                assert(before[if i < at {
                                    i
                                } else {
                                    i + 1
                                }].key@ == key);
                            }
                        }
                        assert forall|key: Seq<u8>|
                            holds(after, key) implies #[trigger] self@.entries[key]
                            == old(self)@.entries[key] by {
                            let i = slot(after, key);
                            entry_at(after, i);
                            entry_at(
                                before,
                                if i < at {
                                    i
                                } else {
                                    i + 1
                                },
                            );
                        }
                        assert(self@.entries =~= old(self)@.entries.remove(stream@));
                    }
                } else {
                    self.entries[at].subscribers = count - 1;
                    proof {
                        let after = self.entries@;
                        updated_entry(before, after, at as int);
                        assert(self@.entries =~= released(old(self)@, stream@).entries);
                    }
                }
            },
        }
    }

    /// Wakes every registration for `stream`, and every registration for all streams.
    pub fn wake(&mut self, stream: &[u8])
        requires
            old(self).valid(),
        ensures
            final(self).valid(),
            final(self)@ == woken(old(self)@, stream@),
    {
        let ghost before = self.entries@;
        match self.find(stream) {
            Some(at) => {
                bump(&mut self.entries[at].gen_tx);
                proof {
                    let after = self.entries@;
                    updated_entry(before, after, at as int);
                    assert(self@.entries =~= woken(old(self)@, stream@).entries);
                }
            },
            None => {},
        }
        bump(&mut self.all_gen_tx);
    }

    /// The wake counter of `stream`; 0 where it has no registration. It wraps, so compare for
    /// change and not for order.
    pub fn generation(&self, stream: &[u8]) -> (r: u64)
        requires
            self.valid(),
        ensures
            r == shown_generation(self@, stream@),
    {
        match self.find(stream) {
            Some(at) => current(&self.entries[at].gen_tx),
            None => 0,
        }
    }

    /// The wake counter of all streams.
    pub fn all_generation(&self) -> (r: u64)
        ensures
            r == self@.all_generation,
    {
        current(&self.all_gen_tx)
    }

    /// The number of streams with a registration.
    pub fn active_streams(&self) -> (r: usize)
        requires
            self.valid(),
        ensures
            self@.entries.dom().finite(),
            r == self@.entries.dom().len(),
    {
        proof {
            entry_count(self.entries@);
        }
        self.entries.len()
    }
}

/// A change to the entry at `at` that leaves its key alone changes the map there and nowhere else.
proof fn updated_entry(before: Seq<Entry>, after: Seq<Entry>, at: int)
    requires
        distinct(before),
        0 <= at < before.len(),
        after.len() == before.len(),
        after[at].key@ == before[at].key@,
        forall|i: int| 0 <= i < after.len() && i != at ==> (#[trigger] after[i]) == before[i],
    ensures
        distinct(after),
        entry_map(after) == entry_map(before).insert(before[at].key@, after[at]@),
{
    assert forall|i: int, j: int| 0 <= i < j < after.len() implies (#[trigger] after[i]).key@ != (
    #[trigger] after[j]).key@ by {
        assert(before[i].key@ != before[j].key@);
    }
    assert forall|key: Seq<u8>| #[trigger] holds(after, key) <==> holds(before, key) by {
        if holds(before, key) {
            assert(after[slot(before, key)].key@ == key);
        }
        if holds(after, key) {
            assert(before[slot(after, key)].key@ == key);
        }
    }
    entry_at(after, at);
    entry_at(before, at);
    let changed = entry_map(before).insert(before[at].key@, after[at]@);
    assert forall|key: Seq<u8>| holds(after, key) implies #[trigger] entry_map(after)[key]
        == changed[key] by {
        let i = slot(after, key);
        entry_at(after, i);
        entry_at(before, i);
    }
    assert(entry_map(after) =~= changed);
}

/// The map has as many keys as there are entries.
proof fn entry_count(entries: Seq<Entry>)
    requires
        distinct(entries),
    ensures
        entry_map(entries).dom().finite(),
        entry_map(entries).dom().len() == entries.len(),
    decreases entries.len(),
{
    let dom = entry_map(entries).dom();
    if entries.len() == 0 {
        assert(dom =~= Set::empty());
    } else {
        let rest = entries.drop_last();
        entry_count(rest);
        let key = entries.last().key@;
        assert(!holds(rest, key)) by {
            if holds(rest, key) {
                let i = slot(rest, key);
                assert(entries[i].key@ != entries[entries.len() - 1].key@);
            }
        }
        assert forall|k: Seq<u8>| #[trigger] holds(entries, k) <==> holds(rest, k) || k == key by {
            if holds(rest, k) {
                assert(entries[slot(rest, k)].key@ == k);
            }
            if holds(entries, k) && k != key {
                assert(rest[slot(entries, k)].key@ == k);
            }
            if k == key {
                assert(entries[entries.len() - 1].key@ == k);
            }
        }
        assert(dom =~= entry_map(rest).dom().insert(key));
    }
}

impl WakeSource for StreamNotifiers {
    type Registration = WakeReg;

    type Error = NotifyError;

    open spec fn ready(&self) -> bool {
        self.valid()
    }

    open spec fn announced(&self, target: Option<Seq<u8>>) -> Option<Announcement> {
        match target {
            None => Some(
                Announcement { channel: self@.all_channel, shown: self@.all_generation },
            ),
            Some(stream) => if self@.entries.dom().contains(stream) {
                Some(
                    Announcement {
                        channel: self@.entries[stream].channel,
                        shown: self@.entries[stream].generation,
                    },
                )
            } else {
                None
            },
        }
    }

    /// The stream has as many registrations as can be counted.
    open spec fn register_fails(&self, target: Option<Seq<u8>>, error: NotifyError) -> bool {
        &&& target matches Some(stream) && live(self@, stream) == usize::MAX
        &&& error == NotifyError::SubscriberOverflow
    }

    fn register(&mut self, stream: Option<&[u8]>) -> (r: Result<WakeReg, NotifyError>)
        ensures
            match stream {
                None => {
                    &&& r matches Ok(registration) && registration.channel()
                        == old(self)@.all_channel && registration.seen()
                        == old(self)@.all_generation && registration.guarded() is None
                    &&& final(self)@ == old(self)@
                },
                Some(s) => {
                    &&& r is Err <==> live(old(self)@, s@) == usize::MAX
                    &&& match r {
                        Ok(registration) => {
                            &&& registered(old(self)@, final(self)@, s@)
                            &&& registration.channel() == final(self)@.entries[s@].channel
                            &&& registration.seen() == final(self)@.entries[s@].generation
                            &&& registration.guarded() == Some(s@)
                        },
                        Err(e) => final(self)@ == old(self)@,
                    }
                },
            },
    {
        match stream {
            None => Ok(WakeReg { rx: observe(&self.all_gen_tx), guard: None }),
            Some(s) => self.register_entry(s),
        }
    }

    fn wake(&mut self, stream: &[u8])
        ensures
            final(self)@ == woken(old(self)@, stream@),
    {
        StreamNotifiers::wake(self, stream)
    }
}

} // verus!
