//! A toy counter, the domain that examples and tests share.

use crate::id::Id;
use crate::octets::{decimal_octets, numbered_text};
use crate::stream_key::StreamKey;
use vstd::prelude::*;
use vstd::string::*;
use vstd::utf8::*;

verus! {

/// An event of some domain.
pub trait DomainEvent {
    /// The name of the event's type.
    open spec fn named(&self) -> Seq<char> {
        arbitrary()
    }

    /// The name of the event's type.
    fn name(&self) -> (r: &'static str)
        ensures
            r@ == self.named(),
    ;
}

/// State that is folded from events and never rejects one.
pub trait AggregateState: Sized {
    /// The events that the state is folded from.
    type Event;

    /// The state before any event.
    open spec fn blank() -> Self {
        arbitrary()
    }

    /// Whether the state can take the event.
    open spec fn can_apply(self, event: &Self::Event) -> bool {
        arbitrary()
    }

    /// The state behind an event.
    open spec fn applied(self, event: &Self::Event) -> Self {
        arbitrary()
    }

    /// The state before any event.
    fn initial() -> (r: Self)
        ensures
            r == Self::blank(),
    ;

    /// The state behind `event`.
    fn apply(self, event: &Self::Event) -> (r: Self)
        requires
            self.can_apply(event),
        ensures
            r == self.applied(event),
    ;
}

/// What decides commands: its state, its rejections and what names it.
pub trait Aggregate {
    /// The state that decisions are made on.
    type State: AggregateState;

    /// Why a command is rejected.
    type Error;

    /// What names an aggregate of this kind.
    type Id: Id;
}

/// A text id.
#[derive(Debug, PartialEq, Eq, Hash)]
pub struct TestId {
    text: String,
}

impl View for TestId {
    type V = Seq<char>;

    closed spec fn view(&self) -> Seq<char> {
        self.text@
    }
}

impl Clone for TestId {
    fn clone(&self) -> (r: TestId)
        ensures
            r@ == self@,
    {
        TestId { text: self.text.clone() }
    }
}

impl TestId {
    /// The id that reads `id`.
    pub fn new(id: String) -> (r: TestId)
        ensures
            r@ == id@,
    {
        TestId { text: id }
    }

    /// The id that reads `p-` and the number `n`.
    pub fn numbered(n: u64) -> (r: TestId)
        ensures
            encode_utf8(r@) == seq![112u8, 45u8] + decimal_octets(n as nat),
    {
        let prefix: [u8; 2] = [112, 45];
        assert(prefix@ =~= seq![112u8, 45u8]);
        TestId { text: numbered_text(&prefix, n) }
    }

    /// The id as text.
    pub fn as_str(&self) -> (r: &str)
        ensures
            r@ == self@,
    {
        self.text.as_str()
    }

    /// The stream of the same name.
    pub fn key(&self) -> (r: StreamKey)
        ensures
            r@ == encode_utf8(self@),
    {
        StreamKey::from_slice(self.text.as_str().as_bytes())
    }
}

impl Id for TestId {
    open spec fn label(&self) -> Seq<char> {
        self@
    }

    fn to_label(&self) -> (r: &str) {
        self.as_str()
    }
}

/// An event of the counter.
#[derive(Debug, Clone, Copy, PartialEq, Eq, Structural)]
pub enum CounterEvent {
    /// Add one.
    Incremented,
    /// Subtract one.
    Decremented,
    /// Overwrite the value.
    SetTo(i64),
}

impl DomainEvent for CounterEvent {
    open spec fn named(&self) -> Seq<char> {
        match self {
            CounterEvent::Incremented => "Incremented"@,
            CounterEvent::Decremented => "Decremented"@,
            CounterEvent::SetTo(_) => "Set"@,
        }
    }

    fn name(&self) -> (r: &'static str) {
        match self {
            CounterEvent::Incremented => "Incremented",
            CounterEvent::Decremented => "Decremented",
            CounterEvent::SetTo(_) => "Set",
        }
    }
}

/// The counter's value.
#[derive(Debug, Clone, Copy, PartialEq, Eq, Structural)]
pub struct CounterState {
    /// The value.
    pub value: i64,
}

impl Default for CounterState {
    fn default() -> (r: CounterState)
        ensures
            r == (CounterState { value: 0 }),
    {
        CounterState { value: 0 }
    }
}

impl AggregateState for CounterState {
    type Event = CounterEvent;

    open spec fn blank() -> CounterState {
        CounterState { value: 0 }
    }

    open spec fn can_apply(self, event: &CounterEvent) -> bool {
        match event {
            CounterEvent::Incremented => self.value < i64::MAX,
            CounterEvent::Decremented => self.value > i64::MIN,
            CounterEvent::SetTo(_) => true,
        }
    }

    open spec fn applied(self, event: &CounterEvent) -> CounterState {
        match event {
            CounterEvent::Incremented => CounterState { value: (self.value + 1) as i64 },
            CounterEvent::Decremented => CounterState { value: (self.value - 1) as i64 },
            CounterEvent::SetTo(v) => CounterState { value: *v },
        }
    }

    fn initial() -> (r: CounterState) {
        CounterState { value: 0 }
    }

    fn apply(self, event: &CounterEvent) -> (r: CounterState) {
        match event {
            CounterEvent::Incremented => CounterState { value: self.value + 1 },
            CounterEvent::Decremented => CounterState { value: self.value - 1 },
            CounterEvent::SetTo(v) => CounterState { value: *v },
        }
    }
}

/// The counter never rejects a command; its one failure has no cause.
#[derive(Debug, Clone, Copy, PartialEq, Eq, Structural)]
pub struct CounterError;

/// The counter aggregate.
#[derive(Debug, Clone, Copy, PartialEq, Eq, Structural)]
pub struct Counter;

impl Aggregate for Counter {
    type State = CounterState;

    type Error = CounterError;

    type Id = TestId;
}

} // verus!
