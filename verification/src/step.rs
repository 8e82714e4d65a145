//! The phase marker of a subscription.

use vstd::prelude::*;

verus! {

/// One item of a subscription: an event, or the one boundary between backlog and live events.
#[derive(Debug, PartialEq, Eq)]
pub enum Step<T> {
    /// An event of the backlog, or a live one.
    Event(T),
    /// The backlog is drained; what follows is live.
    CaughtUp,
}

impl<T> Step<T> {
    /// Whether this is the boundary.
    pub fn is_caught_up(&self) -> (r: bool)
        ensures
            r == (self is CaughtUp),
    {
        match self {
            Step::CaughtUp => true,
            Step::Event(_) => false,
        }
    }

    /// Applies `f` to an event; the boundary stays as it is.
    pub fn map<U, F: FnOnce(T) -> U>(self, f: F) -> (r: Step<U>)
        requires
            self matches Step::Event(item) ==> call_requires(f, (item,)),
        ensures
            match self {
                Step::CaughtUp => r is CaughtUp,
                Step::Event(item) => r matches Step::Event(mapped) && call_ensures(
                    f,
                    (item,),
                    mapped,
                ),
            },
    {
        match self {
            Step::CaughtUp => Step::CaughtUp,
            Step::Event(item) => Step::Event(f(item)),
        }
    }
}

} // verus!
