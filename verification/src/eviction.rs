//! What the background task decides that proactively evicts expired sticky
//! events, so that expiry reaches subscribers without waiting for the next sync,
//! and that (when configured) writes the live set to the store on every change.
//!
//! The task peeks the [next expiry](crate::map::EphemeralMap::next_expiry), then
//! waits for whichever [`Wakeup`] comes first, does as [`respond`] says, and goes
//! round again.

use vstd::prelude::*;

verus! {

use crate::model::Entries;
use crate::key::StickyKeyView;

/// How the attempt to receive an update of the map came out.
#[derive(Clone, Copy, Debug, PartialEq, Eq, Structural)]
pub enum UpdateReceipt {
    /// An update came.
    Received,
    /// Updates were missed because they came faster than they were read.
    Lagged,
    /// There will be no more updates.
    Closed,
}

/// What the maintenance task waits for.
#[derive(Clone, Copy, Debug, PartialEq, Eq, Structural)]
pub enum Wakeup {
    /// The time of the next expiry has come.
    Expiry,
    /// Entries changed, so the next expiry may have.
    Changed,
    /// The map broadcast a change (or the channel failed).
    Update(UpdateReceipt),
    /// The parked buffer changed.
    PendingChanged,
}

/// What the maintenance task does next.
#[derive(Clone, Copy, Debug, PartialEq, Eq, Structural)]
pub enum Response {
    /// Evict whatever has expired.
    Evict,
    /// Nothing, except to recompute the next expiry.
    Reschedule,
    /// Write the live set to the store.
    PersistLive,
    /// Write the parked buffer to the store.
    PersistPending,
}

/// What is done about a wake-up, with a store to write to or without.
///
/// The live set is always written as a whole, so a lagged receiver is treated
/// like any other change. A closed channel means that the map is gone: there is
/// nothing left to write.
pub open spec fn response_to(wakeup: Wakeup, persisting: bool) -> Response {
    match wakeup {
        Wakeup::Expiry => Response::Evict,
        Wakeup::Changed => Response::Reschedule,
        Wakeup::Update(receipt) => if persisting && receipt != UpdateReceipt::Closed {
            Response::PersistLive
        } else {
            Response::Reschedule
        },
        Wakeup::PendingChanged => if persisting {
            Response::PersistPending
        } else {
            Response::Reschedule
        },
    }
}

/// Decide what to do about a wake-up.
pub fn respond(wakeup: Wakeup, persisting: bool) -> (response: Response)
    ensures
        response == response_to(wakeup, persisting),
{
    match wakeup {
        Wakeup::Expiry => Response::Evict,
        Wakeup::Changed => Response::Reschedule,
        Wakeup::Update(UpdateReceipt::Closed) => Response::Reschedule,
        Wakeup::Update(UpdateReceipt::Received) | Wakeup::Update(UpdateReceipt::Lagged) => {
            if persisting {
                Response::PersistLive
            } else {
                Response::Reschedule
            }
        },
        Wakeup::PendingChanged => {
            if persisting {
                Response::PersistPending
            } else {
                Response::Reschedule
            }
        },
    }
}

/// How long it is from `now` until the next expiry, in milliseconds; for ever
/// where nothing is scheduled.
pub open spec fn time_until(next_expiry: Option<u64>, now: u64) -> Option<u64> {
    match next_expiry {
        Some(end_time) => Some(
            if end_time > now {
                (end_time - now) as u64
            } else {
                0
            },
        ),
        None => None,
    }
}

/// How long to sleep before the next eviction, in milliseconds. `None` where
/// nothing is scheduled.
pub fn sleep_until_expiry(next_expiry: Option<u64>, now: u64) -> (duration_ms: Option<u64>)
    ensures
        duration_ms == time_until(next_expiry, now),
{
    match next_expiry {
        Some(end_time) => Some(end_time.saturating_sub(now)),
        None => None,
    }
}

/// The maintenance task never sleeps past an expiry: where there are entries, it
/// does not sleep for ever, and when it wakes up no entry has been expired for
/// any time, but for those that had expired when it went to sleep. For those it
/// does not sleep at all.
pub proof fn law_sleep_never_passes_an_expiry<T>(
    entries: Entries<T>,
    next_expiry: Option<u64>,
    now: u64,
    key: StickyKeyView,
)
    requires
        forall|key: StickyKeyView| #[trigger]
            entries.contains_key(key) ==> next_expiry is Some && next_expiry->0
                <= entries[key].end_time,
        entries.contains_key(key),
    ensures
        time_until(next_expiry, now) is Some,
        entries[key].end_time > now ==> now + time_until(next_expiry, now)->0
            <= entries[key].end_time,
        entries[key].end_time <= now ==> time_until(next_expiry, now) == Some(0u64),
{
}

/// The task sleeps until exactly the next expiry, not at all where that has
/// passed, and for ever where there is none.
pub proof fn law_sleep_ends_at_the_next_expiry(next_expiry: Option<u64>, now: u64)
    ensures
        next_expiry is None <==> time_until(next_expiry, now) is None,
        next_expiry matches Some(end_time) ==> {
            &&& end_time >= now ==> now + time_until(next_expiry, now)->0 == end_time
            &&& end_time <= now ==> time_until(next_expiry, now)->0 == 0
        },
{
}

/// What expires is evicted, store or no store. The live set is written exactly
/// when there is a store and the map has told of a change, or of one that was
/// missed; the parked set exactly when there is a store and that set has changed.
pub proof fn law_task_does_what_the_wakeup_asks(wakeup: Wakeup, persisting: bool)
    ensures
        response_to(wakeup, persisting) is Evict <==> wakeup is Expiry,
        response_to(wakeup, persisting) is PersistLive <==> persisting && (wakeup
            == Wakeup::Update(UpdateReceipt::Received) || wakeup == Wakeup::Update(
            UpdateReceipt::Lagged,
        )),
        response_to(wakeup, persisting) is PersistPending <==> persisting && wakeup
            is PendingChanged,
{
}

} // verus!
