//! How a map reaches those who follow it: the broadcast channel of its updates,
//! and the wake-up call of the task that maintains it.

use crate::key::StickyEventsUpdate;
use std::sync::Arc;
use tokio::sync::{broadcast, Notify};
use vstd::prelude::*;

verus! {

use crate::key::StickyEventsUpdateView;

/// The sending half of a tokio broadcast channel.
#[verifier::external_type_specification]
#[verifier::external_body]
#[verifier::reject_recursive_types(T)]
pub struct ExSender<T>(tokio::sync::broadcast::Sender<T>);

/// A subscription to a tokio broadcast channel.
#[verifier::external_type_specification]
#[verifier::external_body]
#[verifier::reject_recursive_types(T)]
pub struct ExReceiver<T>(tokio::sync::broadcast::Receiver<T>);

/// Tokio's notification of a single task.
#[verifier::external_type_specification]
#[verifier::external_body]
pub struct ExNotify(tokio::sync::Notify);

/// The updates that were handed to `sender`, oldest first.
pub uninterp spec fn sent_updates(sender: broadcast::Sender<StickyEventsUpdate>) -> Seq<
    StickyEventsUpdateView,
>;

/// The capacity with which the channel of `sender` was made.
pub uninterp spec fn channel_capacity(sender: broadcast::Sender<StickyEventsUpdate>) -> nat;

/// The updates that were sent before `receiver` subscribed, which it does not
/// get.
pub uninterp spec fn missed_updates(receiver: broadcast::Receiver<StickyEventsUpdate>) -> Seq<
    StickyEventsUpdateView,
>;

/// How often the task that waits on `notify` was woken through this handle.
pub uninterp spec fn wakeup_count(notify: Notify) -> nat;

/// A new channel, by `tokio::sync::broadcast::channel`, without the receiver
/// that the outside function returns as well.
///
/// Claimed: nothing was sent through it yet, and its capacity is the one asked
/// for. The outside function panics on a capacity of zero or above half of
/// `usize::MAX`.
#[verifier::external_body]
pub(crate) fn open_channel(capacity: usize) -> (sender: broadcast::Sender<StickyEventsUpdate>)
    requires
        0 < capacity <= usize::MAX / 2,
    ensures
        sent_updates(sender) == Seq::<StickyEventsUpdateView>::empty(),
        channel_capacity(sender) == capacity,
{
    broadcast::channel(capacity).0
}

/// Send an update to every subscriber, by
/// `tokio::sync::broadcast::Sender::send`.
///
/// Claimed: the update is the one handed over, after those before it. The error
/// of the outside function, that there is no subscriber, is dropped. Whether a
/// subscriber that lags behind still gets the update depends on the channel's
/// capacity and on when it reads; nothing is claimed of that.
#[verifier::external_body]
pub(crate) fn send_update(
    sender: &mut broadcast::Sender<StickyEventsUpdate>,
    update: StickyEventsUpdate,
)
    ensures
        sent_updates(*final(sender)) == sent_updates(*old(sender)).push(update@),
        channel_capacity(*final(sender)) == channel_capacity(*old(sender)),
{
    let _ = sender.send(update);
}

/// Subscribe to a channel, by `tokio::sync::broadcast::Sender::subscribe`.
///
/// Claimed: the new receiver gets what is sent after this call, so what it
/// misses is exactly what was sent before. The outside function panics where a
/// channel has a quarter of `usize::MAX` receivers.
#[verifier::external_body]
pub(crate) fn subscribe_to(sender: &broadcast::Sender<StickyEventsUpdate>) -> (receiver:
    broadcast::Receiver<StickyEventsUpdate>)
    ensures
        missed_updates(receiver) == sent_updates(*sender),
{
    sender.subscribe()
}

/// A new notification, by `tokio::sync::Notify::new`.
///
/// Claimed: nobody was woken through it yet.
#[verifier::external_body]
pub(crate) fn new_notify() -> (notify: Notify)
    ensures
        wakeup_count(notify) == 0,
{
    Notify::new()
}

/// Wake the task that waits, or the next one to wait, by
/// `tokio::sync::Notify::notify_one`.
///
/// Claimed: this is one more call through this handle. Calls that no task has
/// answered yet count as one for the task; nothing is claimed of that.
#[verifier::external_body]
pub(crate) fn wake(notify: &mut Arc<Notify>)
    ensures
        wakeup_count(**final(notify)) == wakeup_count(**old(notify)) + 1,
{
    notify.notify_one();
}

} // verus!
