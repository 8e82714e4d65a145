//! Laws of decoding: what a handler and a typed stream get to see of a stored event.

use crate::codec::{Decode, OwningCodec};
use crate::decoded::{
    decode_item, decode_step, drop_phase, event_folded, events, events_of, fold_one, folded_upto,
    for_each_decoded, is_unpacked, DecodeStreamError, Decoded, FoldDecodedError, RawItem,
};
use crate::envelope::PersistedEnvelope;
use crate::octets::octets;
use crate::step::Step;
use crate::stream_key::StreamKey;
use vstd::prelude::*;

verus! {

/// A decoded event carries the version of the envelope it came from, and its metadata: there if the
/// envelope has any, and then the same bytes.
pub open spec fn carries_the_marks_of<T>(decoded: Decoded<T>, env: PersistedEnvelope) -> bool {
    &&& decoded.version@ == env@.version
    &&& decoded.metadata is Some <==> env@.metadata is Some
    &&& decoded.metadata matches Some(bytes) ==> octets(bytes) == env@.metadata->0
}

/// A handler was given the event that the codec decodes `env` to, under the envelope's own version
/// and with its own metadata, and answered `handled`.
pub open spec fn handed_over<
    'a,
    T,
    C: Decode<T>,
    H,
    F: for<'x> Fn(Decoded<C::Output<'x>>) -> Result<(), H>,
>(codec: &'a C, f: F, env: &'a PersistedEnvelope, handled: Result<(), H>) -> bool {
    exists|decoded: Decoded<C::Output<'a>>|
        {
            &&& #[trigger] call_ensures(f, (decoded,), handled)
            &&& call_ensures(
                C::decode,
                (codec, env),
                Ok::<C::Output<'a>, C::Error>(decoded.event),
            )
            &&& carries_the_marks_of(decoded, *env)
        }
}

/// What a fold hands to its handler carries the envelope's version and metadata, and the fold
/// succeeds exactly if the handler does. The handler's error and the codec's error are told apart;
/// a single envelope has no read to fail.
pub proof fn fold_hands_over_version_and_metadata<
    'a,
    T,
    C: Decode<T>,
    H,
    F: for<'x> Fn(Decoded<C::Output<'x>>) -> Result<(), H>,
    R,
>(
    codec: &'a C,
    f: &F,
    env: &'a PersistedEnvelope,
    r: Result<(), FoldDecodedError<R, C::Error, H>>,
)
    requires
        call_ensures(fold_one::<T, C, H, F, R>, (codec, f, env), r),
    ensures
        match r {
            Ok(()) => handed_over::<T, C, H, F>(codec, *f, env, Ok(())),
            Err(FoldDecodedError::Handler(e)) => handed_over::<T, C, H, F>(codec, *f, env, Err(e)),
            Err(FoldDecodedError::Decode(e)) => call_ensures(
                C::decode,
                (codec, env),
                Err::<C::Output<'a>, C::Error>(e),
            ),
            Err(FoldDecodedError::Read(_)) => false,
        },
{
    handler_was_given::<T, C, H, F, R>(codec, *f, env, r);
}

proof fn handler_was_given<
    'a,
    T,
    C: Decode<T>,
    H,
    F: for<'x> Fn(Decoded<C::Output<'x>>) -> Result<(), H>,
    R,
>(
    codec: &'a C,
    f: F,
    env: &'a PersistedEnvelope,
    r: Result<(), FoldDecodedError<R, C::Error, H>>,
)
    requires
        event_folded::<T, C, H, F, R>(codec, f, env, r),
    ensures
        r is Ok ==> handed_over::<T, C, H, F>(codec, f, env, Ok(())),
        r matches Err(FoldDecodedError::Handler(e)) ==> handed_over::<T, C, H, F>(
            codec,
            f,
            env,
            Err(e),
        ),
{
    if !(r matches Err(FoldDecodedError::Decode(_))) {
        let (decoded, handled) = choose|decoded: Decoded<C::Output<'a>>, handled: Result<(), H>|
            {
                &&& is_unpacked(*env, decoded)
                &&& call_ensures(
                    C::decode,
                    (codec, env),
                    Ok::<C::Output<'a>, C::Error>(decoded.event),
                )
                &&& #[trigger] call_ensures(f, (decoded,), handled)
                &&& match handled {
                    Ok(_) => r is Ok,
                    Err(e) => r == Err::<(), FoldDecodedError<R, C::Error, H>>(
                        FoldDecodedError::Handler(e),
                    ),
                }
            };
        assert(call_ensures(f, (decoded,), handled));
        if r is Ok {
            assert(handled->Ok_0 == ());
            assert(handled == Ok::<(), H>(()));
        }
    }
}

/// A fold over a run of items handles each in turn, up to the first that cannot be read, decoded or
/// handled, and none behind that one. It succeeds exactly if there is no such item.
pub proof fn fold_goes_up_to_the_first_failure<
    T,
    C: Decode<T>,
    H,
    F: for<'x> Fn(Decoded<C::Output<'x>>) -> Result<(), H>,
    R,
>(
    items: Vec<Result<PersistedEnvelope, R>>,
    codec: &C,
    f: &F,
    r: Result<(), FoldDecodedError<R, C::Error, H>>,
) -> (n: int)
    requires
        call_ensures(
            for_each_decoded::<T, C, H, F, PersistedEnvelope, R>,
            (items, codec, f),
            r,
        ),
    ensures
        0 <= n <= items@.len(),
        forall|i: int|
            0 <= i < n ==> (#[trigger] items@[i] matches Ok(env) && handed_over::<T, C, H, F>(
                codec,
                *f,
                &env,
                Ok(()),
            )),
        r is Ok <==> n == items@.len(),
        r matches Err(FoldDecodedError::Read(e)) ==> items@[n] == Err::<PersistedEnvelope, R>(e),
        r matches Err(FoldDecodedError::Handler(e)) ==> (items@[n] matches Ok(env) && handed_over::<
            T,
            C,
            H,
            F,
        >(codec, *f, &env, Err(e))),
        r matches Err(FoldDecodedError::Decode(e)) ==> (items@[n] matches Ok(env) && call_ensures(
            C::decode,
            (codec, &env),
            Err::<C::Output<'_>, C::Error>(e),
        )),
{
    let n = choose|n: int|
        {
            &&& 0 <= n <= items@.len()
            &&& #[trigger] folded_upto(items@, codec, *f, n)
            &&& match r {
                Ok(()) => n == items@.len(),
                Err(FoldDecodedError::Read(e)) => n < items@.len() && items@[n] == Err::<
                    PersistedEnvelope,
                    R,
                >(e),
                Err(e) => n < items@.len() && items@[n] is Ok && event_folded::<
                    T,
                    C,
                    H,
                    F,
                    R,
                >(codec, *f, &<PersistedEnvelope as RawItem<T>>::carried(&items@[n]->Ok_0), Err(e)),
            }
        };
    assert forall|i: int| 0 <= i < n implies (#[trigger] items@[i] matches Ok(env) && handed_over::<
        T,
        C,
        H,
        F,
    >(codec, *f, &env, Ok(()))) by {
        handler_was_given::<T, C, H, F, R>(codec, *f, &items@[i]->Ok_0, Ok(()));
    }
    if let Err(FoldDecodedError::Handler(e)) = r {
        handler_was_given::<T, C, H, F, R>(codec, *f, &items@[n]->Ok_0, r);
    }
    n
}

/// A decoded item of one stream: the codec's event, with the version and the metadata of its
/// envelope. A read that failed stays a failed read, and only a codec's error is a decoding error.
pub proof fn stream_item_keeps_version_and_metadata<T, C: OwningCodec<T>, R>(
    codec: &C,
    item: Result<PersistedEnvelope, R>,
    r: Result<Decoded<T>, DecodeStreamError<R, C::Error>>,
)
    requires
        call_ensures(decode_item::<T, C, PersistedEnvelope, R>, (codec, item), r),
    ensures
        r is Ok ==> item is Ok,
        r matches Ok(decoded) ==> {
            &&& carries_the_marks_of(decoded, item->Ok_0)
            &&& call_ensures(C::decode, (codec, &item->Ok_0), Ok::<T, C::Error>(decoded.event))
        },
        r matches Err(DecodeStreamError::Read(e)) ==> item == Err::<PersistedEnvelope, R>(e),
        item matches Err(e) ==> r == Err::<Decoded<T>, DecodeStreamError<R, C::Error>>(
            DecodeStreamError::Read(e),
        ),
        r matches Err(DecodeStreamError::Decode(e)) ==> item is Ok && call_ensures(
            C::decode,
            (codec, &item->Ok_0),
            Err::<T, C::Error>(e),
        ),
{
}

/// A decoded item of all streams has, besides that, its position and its stream as they were.
pub proof fn all_streams_item_keeps_position_and_stream<T, C: OwningCodec<T>, P: Copy, R>(
    codec: &C,
    item: Result<(P, StreamKey, PersistedEnvelope), R>,
    r: Result<(P, StreamKey, Decoded<T>), DecodeStreamError<R, C::Error>>,
)
    requires
        call_ensures(decode_item::<T, C, (P, StreamKey, PersistedEnvelope), R>, (codec, item), r),
    ensures
        r is Ok ==> item is Ok,
        r matches Ok((position, key, decoded)) ==> {
            &&& position == item->Ok_0.0
            &&& key@ == item->Ok_0.1@
            &&& carries_the_marks_of(decoded, item->Ok_0.2)
            &&& call_ensures(C::decode, (codec, &item->Ok_0.2), Ok::<T, C::Error>(decoded.event))
        },
        item matches Err(e) ==> r == Err::<
            (P, StreamKey, Decoded<T>),
            DecodeStreamError<R, C::Error>,
        >(DecodeStreamError::Read(e)),
        r matches Err(DecodeStreamError::Read(e)) ==> item == Err::<
            (P, StreamKey, PersistedEnvelope),
            R,
        >(e),
        r matches Err(DecodeStreamError::Decode(e)) ==> item is Ok && call_ensures(
            C::decode,
            (codec, &item->Ok_0.2),
            Err::<T, C::Error>(e),
        ),
{
}

/// Both ways to a typed event agree: of one envelope, a fold hands to its handler the version and
/// the metadata that the decoded stream has.
pub proof fn fold_and_stream_agree<
    'a,
    T,
    C: OwningCodec<T>,
    H,
    F: for<'x> Fn(Decoded<<C as Decode<T>>::Output<'x>>) -> Result<(), H>,
    R,
>(
    codec: &'a C,
    f: &F,
    env: &'a PersistedEnvelope,
    item: PersistedEnvelope,
    typed: Decoded<T>,
    folded: Result<(), FoldDecodedError<R, <C as Decode<T>>::Error, H>>,
)
    requires
        item == *env,
        call_ensures(
            decode_item::<T, C, PersistedEnvelope, R>,
            (codec, Ok(item)),
            Ok::<Decoded<T>, DecodeStreamError<R, <C as Decode<T>>::Error>>(typed),
        ),
        call_ensures(fold_one::<T, C, H, F, R>, (codec, f, env), folded),
        !(folded matches Err(FoldDecodedError::Decode(_))),
    ensures
        exists|decoded: Decoded<<C as Decode<T>>::Output<'a>>, handled: Result<(), H>|
            {
                &&& #[trigger] call_ensures(*f, (decoded,), handled)
                &&& handled is Ok <==> folded is Ok
                &&& decoded.version@ == typed.version@
                &&& decoded.metadata is Some <==> typed.metadata is Some
                &&& typed.metadata matches Some(bytes) ==> octets(bytes) == octets(
                    decoded.metadata->0,
                )
            },
{
    fold_hands_over_version_and_metadata::<T, C, H, F, R>(codec, f, env, folded);
    stream_item_keeps_version_and_metadata::<T, C, R>(codec, Ok(item), Ok(typed));
    let handled: Result<(), H> = match folded {
        Err(FoldDecodedError::Handler(e)) => Err(e),
        _ => Ok(()),
    };
    assert(handed_over::<T, C, H, F>(codec, *f, env, handled));
    let decoded = choose|decoded: Decoded<<C as Decode<T>>::Output<'a>>|
        {
            &&& #[trigger] call_ensures(*f, (decoded,), handled)
            &&& call_ensures(
                C::decode,
                (codec, env),
                Ok::<<C as Decode<T>>::Output<'a>, <C as Decode<T>>::Error>(decoded.event),
            )
            &&& carries_the_marks_of(decoded, *env)
        };
    assert(call_ensures(*f, (decoded,), handled));
}

/// A subscription keeps its phase through decoding: the boundary stays the boundary, an event stays
/// an event with the version and the metadata of its envelope, and a failed read stays one.
pub proof fn decoding_keeps_the_phase<T, C: OwningCodec<T>, R>(
    codec: &C,
    item: Result<Step<PersistedEnvelope>, R>,
    r: Result<Step<Decoded<T>>, DecodeStreamError<R, C::Error>>,
)
    requires
        call_ensures(decode_step::<T, C, PersistedEnvelope, R>, (codec, item), r),
    ensures
        item matches Ok(Step::CaughtUp) <==> r matches Ok(Step::CaughtUp),
        item matches Err(e) ==> r == Err::<Step<Decoded<T>>, DecodeStreamError<R, C::Error>>(
            DecodeStreamError::Read(e),
        ),
        r matches Err(DecodeStreamError::Read(e)) ==> item == Err::<Step<PersistedEnvelope>, R>(e),
        r matches Ok(Step::Event(decoded)) ==> (item matches Ok(Step::Event(env))
            && carries_the_marks_of(decoded, env) && call_ensures(
            C::decode,
            (codec, &env),
            Ok::<T, C::Error>(decoded.event),
        )),
        r matches Err(DecodeStreamError::Decode(e)) ==> (item matches Ok(Step::Event(env))
            && call_ensures(C::decode, (codec, &env), Err::<T, C::Error>(e))),
{
}

/// Not the boundary between what was there and what comes.
pub open spec fn is_no_boundary<I, R>(item: Result<Step<I>, R>) -> bool {
    !(item matches Ok(Step::CaughtUp))
}

/// `kept` is `item` without its phase.
pub open spec fn same_item<I, R>(kept: Result<I, R>, item: Result<Step<I>, R>) -> bool {
    match item {
        Ok(Step::Event(raw)) => kept == Ok::<I, R>(raw),
        Ok(Step::CaughtUp) => false,
        Err(e) => kept == Err::<I, R>(e),
    }
}

/// Dropping the phase leaves out the boundaries and nothing else: what is left are the other items,
/// each as it was, in order.
pub proof fn dropping_the_phase_leaves_out_boundaries<I, R>(
    items: Vec<Result<Step<I>, R>>,
    r: Vec<Result<I, R>>,
)
    requires
        call_ensures(events::<I, R>, (items,), r),
    ensures
        r@.len() == items@.filter(|item: Result<Step<I>, R>| is_no_boundary(item)).len(),
        forall|i: int|
            0 <= i < r@.len() ==> same_item(
                #[trigger] r@[i],
                items@.filter(|item: Result<Step<I>, R>| is_no_boundary(item))[i],
            ),
{
    kept_in_order(items@);
}

proof fn kept_in_order<I, R>(items: Seq<Result<Step<I>, R>>)
    ensures
        events_of(items).len() == items.filter(
            |item: Result<Step<I>, R>| is_no_boundary(item),
        ).len(),
        forall|i: int|
            0 <= i < events_of(items).len() ==> same_item(
                #[trigger] events_of(items)[i],
                items.filter(|item: Result<Step<I>, R>| is_no_boundary(item))[i],
            ),
    decreases items.len(),
{
    reveal(Seq::filter);
    if items.len() > 0 {
        kept_in_order(items.drop_last());
    }
}

/// One item at a time: nothing is left of the boundary, and everything of any other item.
pub proof fn only_the_boundary_is_dropped<I, R>(
    item: Result<Step<I>, R>,
    r: Option<Result<I, R>>,
)
    requires
        call_ensures(drop_phase::<I, R>, (item,), r),
    ensures
        r is Some <==> is_no_boundary(item),
        r matches Some(kept) ==> same_item(kept, item),
{
}

} // verus!
