//! A typed view over streams of stored events.
//!
//! A stream hands its items out one at a time; the functions here say what becomes of each item.

use crate::codec::{Decode, OwningCodec};
use crate::envelope::PersistedEnvelope;
use crate::octets::optional_octets;
use crate::sealed::Sealed;
use crate::step::Step;
use crate::stream_key::StreamKey;
use crate::version::Version;
use bytes::Bytes;
use vstd::prelude::*;

verus! {

/// A decoded event together with its bookmark and metadata.
#[derive(Debug, PartialEq, Eq)]
pub struct Decoded<T> {
    /// The decoded event.
    pub event: T,
    /// The event's version in its stream.
    pub version: Version,
    /// The event's metadata, if any.
    pub metadata: Option<Bytes>,
}

/// `decoded` is what `env` comes to once its payload is decoded to an event.
pub open spec fn is_unpacked<T>(env: PersistedEnvelope, decoded: Decoded<T>) -> bool {
    &&& decoded.version@ == env@.version
    &&& optional_octets(decoded.metadata) == env@.metadata
}

/// A failed read, or a payload that the codec rejects.
#[derive(Debug)]
pub enum DecodeStreamError<R, D> {
    /// The raw stream yielded an error.
    Read(R),
    /// The codec rejected the payload.
    Decode(D),
}

/// Why a fold over decoded events ended early.
#[derive(Debug)]
pub enum FoldDecodedError<R, D, H> {
    /// The raw stream yielded an error.
    Read(R),
    /// The codec rejected the payload.
    Decode(D),
    /// The consumer's closure returned an error.
    Handler(H),
}

/// A raw stream item: it carries an envelope, and the tags beside it outlive the decoding.
pub trait RawItem<T>: Sealed + Sized {
    /// The item once its envelope is decoded.
    type Typed;

    /// The carried envelope.
    spec fn carried(&self) -> PersistedEnvelope;

    /// The decoded event of a typed item.
    spec fn content(typed: Self::Typed) -> Decoded<T>;

    /// Whether a typed item has the tags of this one.
    spec fn same_tags(&self, typed: Self::Typed) -> bool;

    /// Borrows the carried envelope.
    fn envelope(&self) -> (r: &PersistedEnvelope)
        ensures
            *r == self.carried(),
    ;

    /// Puts the decoded event in place of the envelope.
    fn retag(&self, decoded: Decoded<T>) -> (r: Self::Typed)
        ensures
            Self::content(r) == decoded,
            self.same_tags(r),
    ;
}

impl Sealed for PersistedEnvelope {

}

/// A per-stream item: the bookmark is inside.
impl<T> RawItem<T> for PersistedEnvelope {
    type Typed = Decoded<T>;

    open spec fn carried(&self) -> PersistedEnvelope {
        *self
    }

    open spec fn content(typed: Decoded<T>) -> Decoded<T> {
        typed
    }

    open spec fn same_tags(&self, typed: Decoded<T>) -> bool {
        true
    }

    fn envelope(&self) -> (r: &PersistedEnvelope) {
        self
    }

    fn retag(&self, decoded: Decoded<T>) -> (r: Decoded<T>) {
        decoded
    }
}

impl<P: Copy> Sealed for (P, StreamKey, PersistedEnvelope) {

}

/// An all-streams item: the position and the stream ride beside the event.
impl<T, P: Copy> RawItem<T> for (P, StreamKey, PersistedEnvelope) {
    type Typed = (P, StreamKey, Decoded<T>);

    open spec fn carried(&self) -> PersistedEnvelope {
        self.2
    }

    open spec fn content(typed: (P, StreamKey, Decoded<T>)) -> Decoded<T> {
        typed.2
    }

    open spec fn same_tags(&self, typed: (P, StreamKey, Decoded<T>)) -> bool {
        typed.0 == self.0 && typed.1@ == self.1@
    }

    fn envelope(&self) -> (r: &PersistedEnvelope) {
        &self.2
    }

    fn retag(&self, decoded: Decoded<T>) -> (r: (P, StreamKey, Decoded<T>)) {
        (self.0, self.1.clone(), decoded)
    }
}

/// What decoding one raw item may come to.
pub open spec fn item_decoded<T, C: OwningCodec<T>, I: RawItem<T>, R>(
    codec: &C,
    item: Result<I, R>,
    r: Result<I::Typed, DecodeStreamError<R, C::Error>>,
) -> bool {
    match (item, r) {
        (Err(e), Err(DecodeStreamError::Read(given))) => given == e,
        (Ok(raw), Ok(typed)) => {
            &&& call_ensures(
                C::decode,
                (codec, &raw.carried()),
                Ok::<T, C::Error>(I::content(typed).event),
            )
            &&& is_unpacked(raw.carried(), I::content(typed))
            &&& raw.same_tags(typed)
        },
        (Ok(raw), Err(DecodeStreamError::Decode(e))) => call_ensures(
            C::decode,
            (codec, &raw.carried()),
            Err::<T, C::Error>(e),
        ),
        _ => false,
    }
}

/// Decodes one item of a raw stream. A read error stays a read error.
pub fn decode_item<T, C: OwningCodec<T>, I: RawItem<T>, R>(codec: &C, item: Result<I, R>) -> (r: Result<
    I::Typed,
    DecodeStreamError<R, C::Error>,
>)
    ensures
        item_decoded(codec, item, r),
{
    match item {
        Err(e) => Err(DecodeStreamError::Read(e)),
        Ok(raw) => {
            let env: &PersistedEnvelope = raw.envelope();
            match codec.decode(env) {
                Err(e) => Err(DecodeStreamError::Decode(e)),
                Ok(event) => {
                    let decoded: Decoded<T> = Decoded {
                        event,
                        version: env.version(),
                        metadata: env.metadata_bytes(),
                    };
                    Ok(raw.retag(decoded))
                },
            }
        },
    }
}

/// What decoding one item of a subscription may come to: the boundary passes through.
pub open spec fn step_decoded<T, C: OwningCodec<T>, I: RawItem<T>, R>(
    codec: &C,
    item: Result<Step<I>, R>,
    r: Result<Step<I::Typed>, DecodeStreamError<R, C::Error>>,
) -> bool {
    match item {
        Err(e) => r == Err::<Step<I::Typed>, DecodeStreamError<R, C::Error>>(
            DecodeStreamError::Read(e),
        ),
        Ok(Step::CaughtUp) => r matches Ok(Step::CaughtUp),
        Ok(Step::Event(raw)) => match r {
            Ok(Step::Event(typed)) => item_decoded(codec, Ok::<I, R>(raw), Ok(typed)),
            Err(e) => item_decoded(codec, Ok::<I, R>(raw), Err(e)),
            Ok(Step::CaughtUp) => false,
        },
    }
}

/// Decodes one item of a subscription and keeps the phase: the boundary passes through.
pub fn decode_step<T, C: OwningCodec<T>, I: RawItem<T>, R>(
    codec: &C,
    item: Result<Step<I>, R>,
) -> (r: Result<Step<I::Typed>, DecodeStreamError<R, C::Error>>)
    ensures
        step_decoded(codec, item, r),
{
    match item {
        Err(e) => Err(DecodeStreamError::Read(e)),
        Ok(Step::CaughtUp) => Ok(Step::CaughtUp),
        Ok(Step::Event(raw)) => {
            let one: Result<I, R> = Ok(raw);
            match decode_item(codec, one) {
                Ok(typed) => Ok(Step::Event(typed)),
                Err(e) => Err(e),
            }
        },
    }
}

/// What is left of a subscription's item without its phase: nothing of the boundary.
pub open spec fn phase_dropped<I, R>(item: Result<Step<I>, R>) -> Option<Result<I, R>> {
    match item {
        Ok(Step::Event(raw)) => Some(Ok(raw)),
        Ok(Step::CaughtUp) => None,
        Err(e) => Some(Err(e)),
    }
}

/// Drops the phase of one item of a subscription.
pub fn drop_phase<I, R>(item: Result<Step<I>, R>) -> (r: Option<Result<I, R>>)
    ensures
        r == phase_dropped(item),
{
    match item {
        Ok(Step::Event(raw)) => Some(Ok(raw)),
        Ok(Step::CaughtUp) => None,
        Err(e) => Some(Err(e)),
    }
}

/// The items of a subscription without their phase, in order.
pub open spec fn events_of<I, R>(items: Seq<Result<Step<I>, R>>) -> Seq<Result<I, R>>
    decreases items.len(),
{
    if items.len() == 0 {
        Seq::empty()
    } else {
        let rest = events_of(items.drop_last());
        match phase_dropped(items.last()) {
            Some(item) => rest.push(item),
            None => rest,
        }
    }
}

/// Drops the phase of a run of items: events and errors stay, in order.
pub fn events<I, R>(items: Vec<Result<Step<I>, R>>) -> (r: Vec<Result<I, R>>)
    ensures
        r@ == events_of(items@),
{
    let mut out: Vec<Result<I, R>> = Vec::new();
    let ghost all = items@;
    assert(all.take(0) =~= Seq::empty());
    for item in it: items
        invariant
            it.seq() == all,
            out@ == events_of(all.take(it.index() as int)),
    {
        proof {
            let n = it.index() as int;
            assert(all.take(n + 1).drop_last() =~= all.take(n));
        }
        match drop_phase(item) {
            Some(kept) => {
                out.push(kept);
            },
            None => {},
        }
    }
    assert(all.take(all.len() as int) =~= all);
    out
}

/// What one decode-and-handle step may come to.
pub open spec fn event_folded<
    'a,
    T,
    C: Decode<T>,
    H,
    F: for<'x> Fn(Decoded<C::Output<'x>>) -> Result<(), H>,
    R,
>(
    codec: &'a C,
    f: F,
    env: &'a PersistedEnvelope,
    r: Result<(), FoldDecodedError<R, C::Error, H>>,
) -> bool {
    match r {
        Err(FoldDecodedError::Read(_)) => false,
        Err(FoldDecodedError::Decode(e)) => call_ensures(
            C::decode,
            (codec, env),
            Err::<C::Output<'a>, C::Error>(e),
        ),
        _ => exists|decoded: Decoded<C::Output<'a>>, handled: Result<(), H>|
            {
                &&& is_unpacked(*env, decoded)
                &&& call_ensures(
                    C::decode,
                    (codec, env),
                    Ok::<C::Output<'a>, C::Error>(decoded.event),
                )
                &&& #[trigger] call_ensures(f, (decoded,), handled)
                &&& match handled {
                    Ok(_) => r is Ok,
                    Err(e) => r == Err::<(), FoldDecodedError<R, C::Error, H>>(
                        FoldDecodedError::Handler(e),
                    ),
                }
            },
    }
}

/// Decodes one envelope and hands the result to `f`. What the codec decodes to may borrow the
/// envelope: it lives for the one call of `f`.
pub fn fold_one<
    'a,
    T,
    C: Decode<T>,
    H,
    F: for<'x> Fn(Decoded<C::Output<'x>>) -> Result<(), H>,
    R,
>(codec: &'a C, f: &F, env: &'a PersistedEnvelope) -> (r: Result<
    (),
    FoldDecodedError<R, C::Error, H>,
>)
    requires
        forall|decoded: Decoded<C::Output<'a>>| call_requires(*f, (decoded,)),
    ensures
        event_folded(codec, *f, env, r),
{
    match codec.decode(env) {
        Err(e) => Err(FoldDecodedError::Decode(e)),
        Ok(event) => {
            let decoded: Decoded<C::Output<'a>> = Decoded {
                event,
                version: env.version(),
                metadata: env.metadata_bytes(),
            };
            let ghost handed = decoded;
            let handled: Result<(), H> = f(decoded);
            assert(call_ensures(*f, (handed,), handled));
            match handled {
                Ok(()) => Ok(()),
                Err(e) => Err(FoldDecodedError::Handler(e)),
            }
        },
    }
}

/// Decodes a finite run of items one after the other and hands each to `f`, up to the first
/// failure. Works with codecs that borrow the envelope as with those that do not.
pub fn for_each_decoded<
    T,
    C: Decode<T>,
    H,
    F: for<'x> Fn(Decoded<C::Output<'x>>) -> Result<(), H>,
    I: RawItem<T>,
    R,
>(items: Vec<Result<I, R>>, codec: &C, f: &F) -> (r: Result<(), FoldDecodedError<R, C::Error, H>>)
    requires
        forall|decoded: Decoded<C::Output<'_>>| call_requires(*f, (decoded,)),
    ensures
        exists|n: int|
            {
                &&& 0 <= n <= items@.len()
                &&& #[trigger] folded_upto(items@, codec, *f, n)
                &&& match r {
                    Ok(()) => n == items@.len(),
                    Err(FoldDecodedError::Read(e)) => n < items@.len() && items@[n] == Err::<I, R>(
                        e,
                    ),
                    Err(e) => n < items@.len() && items@[n] is Ok && event_folded::<T, C, H, F, R>(
                        codec,
                        *f,
                        &items@[n]->Ok_0.carried(),
                        Err(e),
                    ),
                }
            },
{
    let ghost all = items@;
    for item in it: items
        invariant
            it.seq() == all,
            forall|decoded: Decoded<C::Output<'_>>| call_requires(*f, (decoded,)),
            folded_upto(all, codec, *f, it.index() as int),
    {
        let ghost n = it.index() as int;
        match item {
            Err(e) => {
                return Err(FoldDecodedError::Read(e));
            },
            Ok(raw) => {
                let one: Result<(), FoldDecodedError<R, C::Error, H>> = fold_one(
                    codec,
                    f,
                    raw.envelope(),
                );
                match one {
                    Ok(()) => {},
                    Err(e) => {
                        return Err(e);
                    },
                }
            },
        }
    }
    Ok(())
}

/// The first `n` items were read, decoded and handled without failure.
pub open spec fn folded_upto<
    T,
    C: Decode<T>,
    H,
    F: for<'x> Fn(Decoded<C::Output<'x>>) -> Result<(), H>,
    I: RawItem<T>,
    R,
>(items: Seq<Result<I, R>>, codec: &C, f: F, n: int) -> bool {
    forall|i: int|
        0 <= i < n ==> (#[trigger] items[i]) is Ok && event_folded::<T, C, H, F, R>(
            codec,
            f,
            &items[i]->Ok_0.carried(),
            Ok(()),
        )
}

} // verus!
