//! How live subscriptions learn of new events.

use vstd::prelude::*;

verus! {

/// What a target's registrations observe: a channel, and what it shows.
pub struct Announcement {
    pub channel: int,
    pub shown: u64,
}

/// Routes wakes to whoever registered for them.
pub trait WakeSource {
    /// Keeps the routing alive for one target.
    type Registration: WakeRegistration;

    /// Why a registration failed.
    type Error;

    /// The source's invariant.
    open spec fn ready(&self) -> bool {
        arbitrary()
    }

    /// The channel that a target's registrations observe, and what it shows now. `None` where
    /// nobody can be registered. The target is a stream, or all streams for `None`.
    open spec fn announced(&self, target: Option<Seq<u8>>) -> Option<Announcement> {
        arbitrary()
    }

    /// Whether a registration for a target may fail, with this error.
    open spec fn register_fails(&self, target: Option<Seq<u8>>, error: Self::Error) -> bool {
        arbitrary()
    }

    /// Registers interest in `stream`, or in all streams for `None`. Those who are registered
    /// already notice nothing.
    fn register(&mut self, stream: Option<&[u8]>) -> (r: Result<Self::Registration, Self::Error>)
        requires
            old(self).ready(),
        ensures
            final(self).ready(),
            r matches Ok(registration) ==> final(self).announced(target_of(stream)) == Some(
                Announcement { channel: registration.channel(), shown: registration.seen() },
            ),
            r matches Err(e) ==> old(self).register_fails(target_of(stream), e),
            forall|target: Option<Seq<u8>>|
                old(self).announced(target) is Some ==> #[trigger] final(self).announced(target)
                    == old(self).announced(target),
    ;

    /// Announces new events of `stream`. To be called once they are committed, not before.
    ///
    /// What the registrations of the stream and those of all streams observe is another value
    /// from then on. Every channel stays.
    fn wake(&mut self, stream: &[u8])
        requires
            old(self).ready(),
        ensures
            final(self).ready(),
            forall|target: Option<Seq<u8>>|
                old(self).announced(target) matches Some(before) ==> {
                    &&& #[trigger] final(self).announced(target) matches Some(after)
                    &&& after.channel == before.channel
                    &&& target is None || target == Some(stream@) ==> after.shown != before.shown
                },
    ;
}

/// The target of a registration: a stream, or all streams for `None`.
pub open spec fn target_of(stream: Option<&[u8]>) -> Option<Seq<u8>> {
    match stream {
        Some(s) => Some(s@),
        None => None,
    }
}

/// A registration that can be waited on.
pub trait WakeRegistration {
    /// A wait that was armed.
    type Wait;

    /// The channel that the registration observes.
    open spec fn channel(&self) -> int {
        arbitrary()
    }

    /// What counts as seen since the registration was made.
    open spec fn seen(&self) -> u64 {
        arbitrary()
    }

    /// Arms a wait: it ends with the first wake from this moment on, even one that comes before
    /// the wait is first looked at.
    fn arm(&self) -> Self::Wait;
}

} // verus!
