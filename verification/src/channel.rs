//! Wake generations: a counter in a watch channel, which waiting tasks observe.

use tokio::sync::watch;
use vstd::prelude::*;

verus! {

/// The sending half of a tokio watch channel.
#[verifier::external_type_specification]
#[verifier::external_body]
#[verifier::reject_recursive_types(T)]
pub struct ExSender<T>(tokio::sync::watch::Sender<T>);

/// The receiving half of a tokio watch channel.
#[verifier::external_type_specification]
#[verifier::external_body]
#[verifier::reject_recursive_types(T)]
pub struct ExReceiver<T>(tokio::sync::watch::Receiver<T>);

/// The generation that a channel holds. It changes only through a mutable borrow of its sender.
pub uninterp spec fn generation_of(tx: watch::Sender<u64>) -> u64;

/// Which channel a sender feeds.
pub uninterp spec fn channel_of(tx: watch::Sender<u64>) -> int;

/// Which channel a receiver observes.
pub uninterp spec fn observed_by(rx: watch::Receiver<u64>) -> int;

/// The generation that a receiver has seen. A wait on it ends once its channel holds another one.
pub uninterp spec fn seen_by(rx: watch::Receiver<u64>) -> u64;

/// The generation behind `generation`, wrapping at the end.
pub open spec fn successor(generation: u64) -> u64 {
    if generation == u64::MAX {
        0
    } else {
        (generation + 1) as u64
    }
}

/// The generation behind `generation`, wrapping at the end.
pub fn next_generation(generation: u64) -> (r: u64)
    ensures
        r == successor(generation),
        r != generation,
{
    generation.wrapping_add(1)
}

/// `watch::Sender::new`: a channel that holds `initial`.
#[verifier::external_body]
pub(crate) fn open_channel(initial: u64) -> (tx: watch::Sender<u64>)
    ensures
        generation_of(tx) == initial,
{
    watch::Sender::new(initial)
}

/// `watch::Sender::send_modify`: replaces the value by its successor and wakes every waiting
/// receiver. The sender stays on its channel.
#[verifier::external_body]
pub(crate) fn bump(tx: &mut watch::Sender<u64>)
    ensures
        generation_of(*final(tx)) == successor(generation_of(*old(tx))),
        channel_of(*final(tx)) == channel_of(*old(tx)),
{
    tx.send_modify(|generation| *generation = next_generation(*generation));
}

/// `watch::Sender::borrow`: the value that the channel holds.
#[verifier::external_body]
pub(crate) fn current(tx: &watch::Sender<u64>) -> (r: u64)
    ensures
        r == generation_of(*tx),
{
    *tx.borrow()
}

/// `watch::Sender::subscribe`: a receiver on the sender's channel, which counts what the channel
/// holds at the call as seen.
#[verifier::external_body]
pub(crate) fn observe(tx: &watch::Sender<u64>) -> (rx: watch::Receiver<u64>)
    ensures
        observed_by(rx) == channel_of(*tx),
        seen_by(rx) == generation_of(*tx),
{
    tx.subscribe()
}

/// `watch::Receiver::clone`: another receiver on the same channel, which has seen the same.
#[verifier::external_body]
pub(crate) fn fork(rx: &watch::Receiver<u64>) -> (r: watch::Receiver<u64>)
    ensures
        observed_by(r) == observed_by(*rx),
        seen_by(r) == seen_by(*rx),
{
    rx.clone()
}

/// `watch::Receiver::mark_unchanged`: takes what the channel holds now as seen, so that only a
/// later change counts. The receiver stays on its channel. Which value it has seen depends on the
/// moment of the call and is left unsaid.
#[verifier::external_body]
pub(crate) fn pin_seen(rx: &mut watch::Receiver<u64>)
    ensures
        observed_by(*final(rx)) == observed_by(*old(rx)),
{
    rx.mark_unchanged();
}

/// A receiver on the same channel for which only changes from now on count.
pub fn armed(rx: &watch::Receiver<u64>) -> (r: watch::Receiver<u64>)
    ensures
        observed_by(r) == observed_by(*rx),
{
    let mut fresh: watch::Receiver<u64> = fork(rx);
    pin_seen(&mut fresh);
    fresh
}

} // verus!
