//! The per-room store of sticky events: an [`EphemeralMap`] of sticky events
//! (with their encryption data), fed from sync and expired by a background task,
//! and the buffer of those that still await decryption.

use crate::channel::{new_notify, wake};
use crate::clock::Clock;
use crate::event::TimelineEventKind;
use crate::eviction::{respond, Response, Wakeup};
use crate::extract::StickyCandidate;
use crate::key::{StickyEventsUpdate, StickyKey};
use crate::map::{add_sticky_duration, EphemeralMap, Upsert, MAX_STICKY_DURATION_MS};
use crate::raw::RawJson;
use std::sync::Arc;
use tokio::sync::{broadcast, Notify};
use vstd::prelude::*;

verus! {

use crate::channel::{missed_updates, wakeup_count};
use crate::clock::{tells, tells_all};
use crate::event::{encryption_data, event_text};
use crate::eviction::response_to;
use crate::extract::StickyCandidateView;
use crate::key::{StickyEntryView, StickyKeyView};
use crate::map::{all_at, batch_outcome, end_after, upsert_view, upsert_views};
use crate::laws::{law_unreported_batch_leaves_the_entries, law_update_is_the_net_effect};
use crate::model::{
    advanced_by_all, are_expired_keys, batch_applied, begun, evicted, listing, lists, live_entries,
    Entries, EphemeralMapView, UpsertView,
};
use crate::text::optional_text;

/// A parked encrypted sticky event with the local time it was first received.
pub type ParkedEvent = (u64, RawJson);

/// A single currently-live sticky event, as returned to consumers.
#[derive(Debug)]
pub struct StickyLiveEvent<I> {
    /// The `(sender, type, sticky_key)` key of this entry.
    pub key: StickyKey,
    /// The event id.
    pub event_id: String,
    /// The sticky event, together with its encryption data (see
    /// [`Self::encryption_info`]).
    ///
    /// The map key of an encrypted sticky event (its type and
    /// `content.sticky_key`) lives in the encrypted content, so an event we
    /// cannot decrypt is parked rather than filed in the map, and only shows up
    /// once its room key arrives.
    pub kind: TimelineEventKind<I>,
    /// Absolute expiry time in milliseconds since the Unix epoch.
    pub expires_at_ms: u64,
}

impl<I> Clone for StickyLiveEvent<I> {
    fn clone(&self) -> (copy: Self)
        ensures
            copy == *self,
    {
        StickyLiveEvent {
            key: self.key.clone(),
            event_id: self.event_id.clone(),
            kind: self.kind.clone(),
            expires_at_ms: self.expires_at_ms,
        }
    }
}

impl<I> StickyLiveEvent<I> {
    /// The raw sticky event; the decrypted one, if it was sent encrypted.
    pub fn raw(&self) -> (event: &RawJson)
        ensures
            *event == event_text(self.kind),
    {
        self.kind.raw()
    }

    /// The encryption data of this event, or `None` if it was sent in the
    /// clear.
    pub fn encryption_info(&self) -> (info: Option<&Arc<I>>)
        ensures
            match info {
                Some(info) => encryption_data(self.kind) == Some(*info),
                None => encryption_data(self.kind) is None,
            },
    {
        self.kind.encryption_info()
    }
}

/// A live sticky event as it is kept in the store.
#[derive(Debug)]
pub struct PersistedStickyEvent<I> {
    /// The user id of the event's sender.
    pub sender: String,
    /// The event type.
    pub event_type: String,
    /// The `content.sticky_key`, if the event carried one.
    pub sticky_key: Option<String>,
    /// The event id.
    pub event_id: String,
    /// Absolute expiry time in milliseconds since the Unix epoch.
    pub end_time: u64,
    /// The event, together with its encryption data.
    pub kind: TimelineEventKind<I>,
}

/// A parked (encrypted) sticky event as it is kept in the store.
#[derive(Debug)]
pub struct PersistedPendingStickyEvent {
    /// The local time at which the event was first received.
    pub received_ts: u64,
    /// The event.
    pub event: RawJson,
}

/// What the maintenance task is given when it is started.
#[derive(Debug)]
pub struct MaintenanceStart {
    /// The updates of the map, if there is a store to write them to. The task
    /// subscribes before the change is made that starts it, so that it does not
    /// miss it.
    pub updates: Option<broadcast::Receiver<StickyEventsUpdate>>,
    /// Notified when the parked buffer changes, if there is a store to write it
    /// to.
    pub pending_changed: Option<Arc<Notify>>,
}

/// What the maintenance task is to write to the store.
#[derive(Debug)]
pub enum StoreWrite<I> {
    /// Nothing.
    Nothing,
    /// The live sticky events of the room, all of them.
    Live(Vec<PersistedStickyEvent<I>>),
    /// The parked sticky events of the room, all of them.
    Pending(Vec<PersistedPendingStickyEvent>),
}

/// What a [`StickyEvents`] stands for.
#[verifier::ext_equal]
pub struct StickyEventsView<I> {
    /// The map of sticky events.
    pub map: EphemeralMapView<TimelineEventKind<I>>,
    /// The parked events, in the order in which they were parked.
    pub pending: Seq<ParkedEvent>,
    /// How often the maintenance task was told that the parked buffer changed.
    pub pending_wakeups: nat,
    /// Whether there is a store to write to.
    pub persisting: bool,
    /// Whether the maintenance task was started.
    pub task_started: bool,
}

impl<I> StickyEventsView<I> {
    /// A new store.
    pub open spec fn empty(persisting: bool) -> StickyEventsView<I> {
        StickyEventsView {
            map: EphemeralMapView::empty(),
            pending: Seq::empty(),
            pending_wakeups: 0,
            persisting,
            task_started: false,
        }
    }
}

/// The start of the maintenance task, where it is `needed`: the task is started
/// once, and subscribes where there is a store to write to.
pub open spec fn is_start<I>(
    start: Option<MaintenanceStart>,
    before: StickyEventsView<I>,
    needed: bool,
) -> bool {
    &&& start is Some <==> needed && !before.task_started
    &&& start matches Some(start) ==> {
        &&& start.updates is Some <==> before.persisting
        &&& start.updates matches Some(updates) ==> missed_updates(updates)
            == before.map.published
        &&& start.pending_changed is Some <==> before.persisting
        &&& start.pending_changed matches Some(notify) ==> wakeup_count(*notify)
            == before.pending_wakeups
    }
}

/// A persisted event on its way back into the map.
pub open spec fn persisted_upsert<I>(event: PersistedStickyEvent<I>) -> UpsertView<
    TimelineEventKind<I>,
> {
    UpsertView {
        key: StickyKeyView {
            sender: event.sender@,
            event_type: event.event_type@,
            sticky_key: optional_text(event.sticky_key),
        },
        value: event.kind,
        event_id: event.event_id@,
        end_time: event.end_time,
        is_removal: false,
    }
}

/// Those of the persisted events that have not expired at the time `now`, on
/// their way back into the map.
pub open spec fn restored<I>(events: Seq<PersistedStickyEvent<I>>, now: u64) -> Seq<
    UpsertView<TimelineEventKind<I>>,
>
    decreases events.len(),
{
    if events.len() == 0 {
        Seq::empty()
    } else if events.last().end_time > now {
        restored(events.drop_last(), now).push(persisted_upsert(events.last()))
    } else {
        restored(events.drop_last(), now)
    }
}

/// A parked event may still be sticky at the time `now`, whatever its content
/// says: it was received less than one hour ago.
pub open spec fn may_be_live(received_ts: u64, now: u64) -> bool {
    end_after(received_ts, MAX_STICKY_DURATION_MS) > now
}

/// Those of the persisted parked events that may still be sticky at the time
/// `now`.
pub open spec fn restored_pending(events: Seq<PersistedPendingStickyEvent>, now: u64) -> Seq<
    ParkedEvent,
>
    decreases events.len(),
{
    if events.len() == 0 {
        Seq::empty()
    } else if may_be_live(events.last().received_ts, now) {
        restored_pending(events.drop_last(), now).push(
            (events.last().received_ts, events.last().event),
        )
    } else {
        restored_pending(events.drop_last(), now)
    }
}

/// A candidate on its way into the map, with the event to store for it.
pub open spec fn candidate_upsert<I>(
    candidate: StickyCandidateView,
    kind: TimelineEventKind<I>,
) -> UpsertView<TimelineEventKind<I>> {
    UpsertView {
        key: candidate.key,
        value: kind,
        event_id: candidate.event_id,
        end_time: candidate.end_time,
        is_removal: candidate.is_removal,
    }
}

/// Candidates on their way into the map, in order.
pub open spec fn candidate_upserts<I>(
    items: Seq<(StickyCandidate, TimelineEventKind<I>)>,
) -> Seq<UpsertView<TimelineEventKind<I>>> {
    items.map_values(
        |item: (StickyCandidate, TimelineEventKind<I>)| candidate_upsert(item.0@, item.1),
    )
}

/// The store of a room once `events` have arrived as one batch, at the given
/// times. Without events nothing happens; with any, the maintenance task runs.
pub open spec fn ingested<I>(
    before: StickyEventsView<I>,
    times: Seq<u64>,
    events: Seq<UpsertView<TimelineEventKind<I>>>,
) -> StickyEventsView<I> {
    if events.len() == 0 {
        before
    } else {
        StickyEventsView {
            map: batch_applied(before.map, times, events),
            task_started: true,
            ..before
        }
    }
}

/// `before` became `after` by a batch of `events`, each of which arrived at the
/// time that stands at its place in `times`.
pub open spec fn ingest_outcome<I>(
    before: StickyEventsView<I>,
    times: Seq<u64>,
    events: Seq<UpsertView<TimelineEventKind<I>>>,
    after: StickyEventsView<I>,
) -> bool {
    &&& times.len() == events.len()
    &&& after == ingested(before, times, events)
}

/// `before` became `after` when `events` were loaded at the time `now`, each of
/// those that are still live then arriving at the time that stands at its place
/// in `times`.
pub open spec fn load_outcome<I>(
    before: StickyEventsView<I>,
    now: u64,
    times: Seq<u64>,
    events: Seq<PersistedStickyEvent<I>>,
    after: StickyEventsView<I>,
    start: Option<MaintenanceStart>,
) -> bool {
    &&& ingest_outcome(before, times, restored(events, now), after)
    &&& is_start(start, before, restored(events, now).len() > 0)
}

/// `before` became `after` when parked `events` were loaded at the time `now`.
pub open spec fn load_pending_outcome<I>(
    before: StickyEventsView<I>,
    now: u64,
    events: Seq<PersistedPendingStickyEvent>,
    after: StickyEventsView<I>,
    start: Option<MaintenanceStart>,
) -> bool {
    let kept = restored_pending(events, now);
    &&& after == (if kept.len() == 0 {
        before
    } else {
        StickyEventsView { pending: before.pending + kept, task_started: true, ..before }
    })
    &&& is_start(start, before, kept.len() > 0)
}

/// The store of a room once `events` were parked.
pub open spec fn with_parked<I>(before: StickyEventsView<I>, events: Seq<ParkedEvent>) -> StickyEventsView<
    I,
> {
    if events.len() == 0 {
        before
    } else {
        StickyEventsView {
            pending: before.pending + events,
            pending_wakeups: before.pending_wakeups + 1,
            task_started: true,
            ..before
        }
    }
}

/// The store of a room once the parked events were taken out.
pub open spec fn without_parked<I>(before: StickyEventsView<I>) -> StickyEventsView<I> {
    if before.pending.len() == 0 {
        before
    } else {
        StickyEventsView {
            pending: Seq::empty(),
            pending_wakeups: before.pending_wakeups + 1,
            ..before
        }
    }
}

/// What live events say, in order.
pub open spec fn live_listing<I>(events: Seq<StickyLiveEvent<I>>) -> Seq<
    (StickyKeyView, StickyEntryView<TimelineEventKind<I>>),
> {
    events.map_values(
        |event: StickyLiveEvent<I>|
            (
                event.key@,
                StickyEntryView {
                    value: event.kind,
                    event_id: event.event_id@,
                    end_time: event.expires_at_ms,
                },
            ),
    )
}

/// What persisted events say, in order.
pub open spec fn persisted_listing<I>(events: Seq<PersistedStickyEvent<I>>) -> Seq<
    (StickyKeyView, StickyEntryView<TimelineEventKind<I>>),
> {
    events.map_values(
        |event: PersistedStickyEvent<I>|
            (persisted_upsert(event).key, persisted_upsert(event).entry()),
    )
}

/// What persisted parked events say, in order.
pub open spec fn pending_listing(events: Seq<PersistedPendingStickyEvent>) -> Seq<ParkedEvent> {
    events.map_values(|event: PersistedPendingStickyEvent| (event.received_ts, event.event))
}

/// `before` became `after` when the maintenance task answered a wake-up at the
/// time `now`, and `write` is what it has to write.
pub open spec fn maintenance_outcome<I>(
    before: StickyEventsView<I>,
    now: u64,
    wakeup: Wakeup,
    after: StickyEventsView<I>,
    write: StoreWrite<I>,
) -> bool {
    match response_to(wakeup, before.persisting) {
        Response::Evict => {
            &&& write is Nothing
            &&& exists|keys: Seq<StickyKeyView>|
                {
                    &&& are_expired_keys(keys, before.map.entries, now)
                    &&& after == (StickyEventsView {
                        map: #[trigger] evicted(before.map, now, keys),
                        ..before
                    })
                }
        },
        Response::Reschedule => write is Nothing && after == before,
        Response::PersistLive => {
            &&& write matches StoreWrite::Live(events) && lists(
                persisted_listing(events@),
                live_entries(before.map.entries, now),
            )
            &&& after == before
        },
        Response::PersistPending => {
            &&& write matches StoreWrite::Pending(events) && pending_listing(events@)
                == before.pending
            &&& after == before
        },
    }
}

/// The per-room store of currently-live sticky events.
///
/// It is kept behind a lock: each operation is one turn with the lock held. An
/// operation that returns a [`MaintenanceStart`] asks for the room's maintenance
/// task to be started; that happens once.
#[derive(Debug)]
#[verifier::reject_recursive_types(I)]
pub struct StickyEvents<I, C: Clock + ?Sized = dyn Clock> {
    map: EphemeralMap<TimelineEventKind<I>, C>,
    /// Encrypted sticky events awaiting decryption, with the local time each was
    /// first received (so a retry does not reset its TTL).
    pending: Vec<ParkedEvent>,
    /// Notified when `pending` changes (park / take_pending), so the maintenance
    /// task persists it (those don't go through the map's change broadcast).
    pending_changed: Arc<Notify>,
    /// Whether there is a store to write to.
    persisting: bool,
    /// Whether the maintenance task was started.
    task_started: bool,
}

impl<I, C: Clock + ?Sized> View for StickyEvents<I, C> {
    type V = StickyEventsView<I>;

    closed spec fn view(&self) -> StickyEventsView<I> {
        StickyEventsView {
            map: self.map@,
            pending: self.pending@,
            pending_wakeups: wakeup_count(*self.pending_changed),
            persisting: self.persisting,
            task_started: self.task_started,
        }
    }
}

impl<I, C: Clock + ?Sized> StickyEvents<I, C> {
    /// The map is well-formed.
    pub closed spec fn wf(&self) -> bool {
        self.map.wf()
    }

    /// The capacity that was asked for when the channel of the map was made: at
    /// least as many updates are held for a slow subscriber.
    pub closed spec fn updates_capacity(&self) -> nat {
        self.map.updates_capacity()
    }

    /// The clock that drives the map.
    pub closed spec fn clock(&self) -> Arc<C> {
        self.map.clock()
    }

    /// Create a new, empty store driven by `clock` that is written through to
    /// the room's place in the state store.
    pub fn new(clock: Arc<C>) -> (events: Self)
        ensures
            events.wf(),
            events@ == StickyEventsView::<I>::empty(true),
            events.clock() == clock,
            events.updates_capacity() == 16,
    {
        Self::build(clock, true)
    }

    /// Create a new, empty, non-persisting store driven by `clock`.
    pub fn with_clock(clock: Arc<C>) -> (events: Self)
        ensures
            events.wf(),
            events@ == StickyEventsView::<I>::empty(false),
            events.clock() == clock,
            events.updates_capacity() == 16,
    {
        Self::build(clock, false)
    }

    fn build(clock: Arc<C>, persisting: bool) -> (events: Self)
        ensures
            events.wf(),
            events@ == StickyEventsView::<I>::empty(persisting),
            events.clock() == clock,
            events.updates_capacity() == 16,
    {
        let events = StickyEvents {
            map: EphemeralMap::new(clock),
            pending: Vec::new(),
            pending_changed: Arc::new(new_notify()),
            persisting,
            task_started: false,
        };
        proof {
            assert(events@ =~= StickyEventsView::<I>::empty(persisting));
        }
        events
    }

    /// Ensure the background maintenance task is running (idempotent).
    fn ensure_task(&mut self) -> (start: Option<MaintenanceStart>)
        requires
            old(self).wf(),
        ensures
            final(self).wf(),
            final(self).clock() == old(self).clock(),
            final(self).updates_capacity() == old(self).updates_capacity(),
            final(self)@ == (StickyEventsView { task_started: true, ..old(self)@ }),
            is_start(start, old(self)@, true),
    {
        if self.task_started {
            return None;
        }
        self.task_started = true;
        if self.persisting {
            Some(MaintenanceStart {
                updates: Some(self.map.subscribe()),
                pending_changed: Some(self.pending_changed.clone()),
            })
        } else {
            Some(MaintenanceStart { updates: None, pending_changed: None })
        }
    }

    /// Load the map from persisted events, dropping any that have already
    /// expired. Starts the maintenance task (so the loaded entries expire and
    /// further changes are persisted) only when something live was loaded, so
    /// rooms with no live stickies don't have an idle task.
    pub fn load(&mut self, events: Vec<PersistedStickyEvent<I>>) -> (start: Option<
        MaintenanceStart,
    >)
        requires
            old(self).wf(),
        ensures
            final(self).wf(),
            final(self).clock() == old(self).clock(),
            final(self).updates_capacity() == old(self).updates_capacity(),
            exists|now: u64, times: Seq<u64>|
                {
                    &&& tells(&*old(self).clock(), now)
                    &&& tells_all(&*old(self).clock(), times)
                    &&& #[trigger] load_outcome(
                        old(self)@,
                        now,
                        times,
                        events@,
                        final(self)@,
                        start,
                    )
                },
    {
        let now: u64 = self.now_ms();
        let batch = live_upserts(events, now);
        let start = self.ingest(batch, None);
        proof {
            let times = choose|times: Seq<u64>|
                tells_all(&*old(self).clock(), times) && #[trigger] ingest_outcome(
                    old(self)@,
                    times,
                    restored(events@, now),
                    self@,
                );
            assert(load_outcome(old(self)@, now, times, events@, self@, start));
        }
        start
    }

    /// Load the map from persisted events at the time `now`.
    pub fn load_at(&mut self, now: u64, events: Vec<PersistedStickyEvent<I>>) -> (start: Option<
        MaintenanceStart,
    >)
        requires
            old(self).wf(),
        ensures
            final(self).wf(),
            final(self).clock() == old(self).clock(),
            final(self).updates_capacity() == old(self).updates_capacity(),
            load_outcome(
                old(self)@,
                now,
                all_at(now, restored(events@, now).len()),
                events@,
                final(self)@,
                start,
            ),
    {
        let batch = live_upserts(events, now);
        self.ingest(batch, Some(now))
    }

    /// Load the parked (encrypted) buffer from persisted events, dropping any
    /// whose maximum possible lifetime (`received_ts` + the max TTL) has already
    /// passed, so a UTD event whose keys never arrived isn't kept forever. Starts
    /// the maintenance task when anything was loaded.
    pub fn load_pending(&mut self, events: Vec<PersistedPendingStickyEvent>) -> (start: Option<
        MaintenanceStart,
    >)
        requires
            old(self).wf(),
        ensures
            final(self).wf(),
            final(self).clock() == old(self).clock(),
            final(self).updates_capacity() == old(self).updates_capacity(),
            exists|now: u64|
                {
                    &&& tells(&*old(self).clock(), now)
                    &&& #[trigger] load_pending_outcome(
                        old(self)@,
                        now,
                        events@,
                        final(self)@,
                        start,
                    )
                },
    {
        let now: u64 = self.now_ms();
        self.load_pending_at(now, events)
    }

    /// Load the parked (encrypted) buffer from persisted events at the time
    /// `now`.
    pub fn load_pending_at(
        &mut self,
        now: u64,
        events: Vec<PersistedPendingStickyEvent>,
    ) -> (start: Option<MaintenanceStart>)
        requires
            old(self).wf(),
        ensures
            final(self).wf(),
            final(self).clock() == old(self).clock(),
            final(self).updates_capacity() == old(self).updates_capacity(),
            load_pending_outcome(old(self)@, now, events@, final(self)@, start),
    {
        let mut kept: Vec<ParkedEvent> = Vec::new();
        let ghost all = events@;
        for event in iter: events
            invariant
                iter.seq() == all,
                kept@ == restored_pending(all.take(iter.index() as int), now),
        {
            proof {
                let i = iter.index() as int;
                assert(all.take(i + 1).drop_last() =~= all.take(i));
                assert(all.take(i + 1).last() == event);
            }
            if add_sticky_duration(event.received_ts, MAX_STICKY_DURATION_MS) > now {
                kept.push((event.received_ts, event.event));
            }
        }
        proof {
            assert(all.take(all.len() as int) =~= all);
        }
        if kept.len() == 0 {
            return None;
        }
        let start = self.ensure_task();
        self.pending.append(&mut kept);
        start
    }

    /// The current time in milliseconds, per the map's clock.
    pub fn now_ms(&self) -> (now: u64)
        ensures
            tells(&*self.clock(), now),
    {
        self.map.now_ms()
    }

    /// Apply a batch of already-resolved sticky candidates (plaintext, or
    /// decrypted) to the map, each with the event to store for it, together with
    /// its encryption data.
    ///
    /// The maintenance task is started only now that there is real data, so a
    /// sync touching a room with no sticky events starts nothing.
    pub fn ingest_candidates(&mut self, items: Vec<(StickyCandidate, TimelineEventKind<I>)>) -> (start:
        Option<MaintenanceStart>)
        requires
            old(self).wf(),
        ensures
            final(self).wf(),
            final(self).clock() == old(self).clock(),
            final(self).updates_capacity() == old(self).updates_capacity(),
            exists|times: Seq<u64>|
                {
                    &&& tells_all(&*old(self).clock(), times)
                    &&& #[trigger] ingest_outcome(
                        old(self)@,
                        times,
                        candidate_upserts(items@),
                        final(self)@,
                    )
                },
            is_start(start, old(self)@, items@.len() > 0),
    {
        let batch = upserts_of(items);
        self.ingest(batch, None)
    }

    /// Apply a batch of already-resolved sticky candidates at the time `now`.
    pub fn ingest_candidates_at(
        &mut self,
        now: u64,
        items: Vec<(StickyCandidate, TimelineEventKind<I>)>,
    ) -> (start: Option<MaintenanceStart>)
        requires
            old(self).wf(),
        ensures
            final(self).wf(),
            final(self).clock() == old(self).clock(),
            final(self).updates_capacity() == old(self).updates_capacity(),
            ingest_outcome(
                old(self)@,
                all_at(now, items@.len()),
                candidate_upserts(items@),
                final(self)@,
            ),
            is_start(start, old(self)@, items@.len() > 0),
    {
        let batch = upserts_of(items);
        self.ingest(batch, Some(now))
    }

    /// Apply a batch to the map unless it is empty, at the given time or else at
    /// the time that the clock tells.
    fn ingest(&mut self, batch: Vec<Upsert<TimelineEventKind<I>>>, time: Option<u64>) -> (start:
        Option<MaintenanceStart>)
        requires
            old(self).wf(),
        ensures
            final(self).wf(),
            final(self).clock() == old(self).clock(),
            final(self).updates_capacity() == old(self).updates_capacity(),
            time is None ==> exists|times: Seq<u64>|
                {
                    &&& tells_all(&*old(self).clock(), times)
                    &&& #[trigger] ingest_outcome(
                        old(self)@,
                        times,
                        upsert_views(batch@),
                        final(self)@,
                    )
                },
            time matches Some(now) ==> ingest_outcome(
                old(self)@,
                all_at(now, batch@.len()),
                upsert_views(batch@),
                final(self)@,
            ),
            is_start(start, old(self)@, batch@.len() > 0),
    {
        if batch.len() == 0 {
            proof {
                let times = Seq::<u64>::empty();
                assert(tells_all(&*old(self).clock(), times));
                assert(ingest_outcome(old(self)@, times, upsert_views(batch@), self@));
                if time is Some {
                    assert(all_at(time->0, batch@.len()) =~= times);
                }
            }
            return None;
        }
        let start = self.ensure_task();
        let ghost events = upsert_views(batch@);
        match time {
            Some(now) => {
                let _ = self.map.apply_batch_at(now, batch);
                proof {
                    assert(ingest_outcome(old(self)@, all_at(now, batch@.len()), events, self@));
                }
            },
            None => {
                let ghost map = self.map@;
                let changed = self.map.apply_batch(batch);
                proof {
                    let times = choose|times: Seq<u64>|
                        tells_all(&*old(self).clock(), times) && #[trigger] batch_outcome(
                            map,
                            times,
                            events,
                            self.map@,
                            changed,
                        );
                    assert(ingest_outcome(old(self)@, times, events, self@));
                }
            },
        }
        start
    }

    /// Take (drain) the encrypted sticky events parked awaiting decryption.
    pub fn take_pending(&mut self) -> (drained: Vec<ParkedEvent>)
        requires
            old(self).wf(),
        ensures
            final(self).wf(),
            final(self).clock() == old(self).clock(),
            final(self).updates_capacity() == old(self).updates_capacity(),
            final(self)@ == without_parked(old(self)@),
            drained@ == old(self)@.pending,
    {
        let mut drained: Vec<ParkedEvent> = Vec::new();
        drained.append(&mut self.pending);
        if drained.len() > 0 {
            // The parked buffer shrank; persist the new (smaller) set.
            wake(&mut self.pending_changed);
        }
        proof {
            assert(self@.pending =~= Seq::empty());
            assert(drained@ =~= old(self)@.pending);
        }
        drained
    }

    /// Append encrypted sticky events to the parking buffer (awaiting
    /// decryption).
    pub fn park(&mut self, pending: Vec<ParkedEvent>) -> (start: Option<MaintenanceStart>)
        requires
            old(self).wf(),
        ensures
            final(self).wf(),
            final(self).clock() == old(self).clock(),
            final(self).updates_capacity() == old(self).updates_capacity(),
            final(self)@ == with_parked(old(self)@, pending@),
            is_start(start, old(self)@, pending@.len() > 0),
    {
        if pending.len() == 0 {
            return None;
        }
        // Make sure the maintenance task is running so the parked events get
        // persisted (and retried after a restart).
        let start = self.ensure_task();
        let mut pending = pending;
        self.pending.append(&mut pending);
        wake(&mut self.pending_changed);
        start
    }

    /// Subscribe to batched change notifications for this room.
    pub fn subscribe(&self) -> (receiver: broadcast::Receiver<StickyEventsUpdate>)
        ensures
            missed_updates(receiver) == self@.map.published,
    {
        self.map.subscribe()
    }

    /// A snapshot of all currently-live sticky events.
    pub fn live(&self) -> (live: Vec<StickyLiveEvent<I>>)
        requires
            self.wf(),
        ensures
            exists|now: u64|
                {
                    &&& tells(&*self.clock(), now)
                    &&& lists(
                        live_listing(live@),
                        #[trigger] live_entries(self@.map.entries, now),
                    )
                },
    {
        self.live_at(self.now_ms())
    }

    /// A snapshot of all sticky events that are live at the time `now`.
    pub fn live_at(&self, now: u64) -> (live: Vec<StickyLiveEvent<I>>)
        requires
            self.wf(),
        ensures
            lists(live_listing(live@), live_entries(self@.map.entries, now)),
    {
        let entries = self.map.iter_live_at(now);
        let mut live: Vec<StickyLiveEvent<I>> = Vec::new();
        let mut i: usize = 0;
        while i < entries.len()
            invariant
                i <= entries@.len(),
                live@.len() == i,
                live_listing(live@) == listing(entries@).take(i as int),
            decreases entries@.len() - i,
        {
            let (key, entry) = entries[i];
            let ghost before = live@;
            live.push(StickyLiveEvent {
                key: key.clone(),
                event_id: entry.event_id.clone(),
                kind: entry.value.clone(),
                expires_at_ms: entry.end_time,
            });
            i = i + 1;
            proof {
                assert(live@.drop_last() =~= before);
                assert(live_listing(live@).last() == listing(entries@)[i - 1]);
                assert(live_listing(live@) =~= live_listing(before).push(listing(entries@)[i - 1]));
                assert(live_listing(live@) =~= listing(entries@).take(i as int));
            }
        }
        proof {
            assert(listing(entries@).take(i as int) =~= listing(entries@));
        }
        live
    }

    /// Build a serializable snapshot of the map's currently-live entries, for
    /// write-through persistence.
    pub fn live_snapshot(&self) -> (snapshot: Vec<PersistedStickyEvent<I>>)
        requires
            self.wf(),
        ensures
            exists|now: u64|
                {
                    &&& tells(&*self.clock(), now)
                    &&& lists(
                        persisted_listing(snapshot@),
                        #[trigger] live_entries(self@.map.entries, now),
                    )
                },
    {
        self.live_snapshot_at(self.now_ms())
    }

    /// Build a serializable snapshot of the entries that are live at the time
    /// `now`.
    pub fn live_snapshot_at(&self, now: u64) -> (snapshot: Vec<PersistedStickyEvent<I>>)
        requires
            self.wf(),
        ensures
            lists(persisted_listing(snapshot@), live_entries(self@.map.entries, now)),
    {
        let live = self.live_at(now);
        let mut snapshot: Vec<PersistedStickyEvent<I>> = Vec::new();
        let ghost all = live@;
        for event in iter: live
            invariant
                iter.seq() == all,
                persisted_listing(snapshot@) == live_listing(all.take(iter.index() as int)),
        {
            let ghost before = snapshot@;
            let StickyLiveEvent { key, event_id, kind, expires_at_ms } = event;
            snapshot.push(PersistedStickyEvent {
                sender: key.sender,
                event_type: key.event_type,
                sticky_key: key.sticky_key,
                event_id,
                end_time: expires_at_ms,
                kind,
            });
            proof {
                let i = iter.index() as int;
                assert(snapshot@.drop_last() =~= before);
                assert(live_listing(all.take(i + 1)) =~= live_listing(all.take(i)).push(
                    live_listing(all)[i],
                ));
                assert(persisted_listing(snapshot@) =~= persisted_listing(before).push(
                    live_listing(all)[i],
                ));
            }
        }
        proof {
            assert(all.take(all.len() as int) =~= all);
        }
        snapshot
    }

    /// Build a serializable snapshot of the parked (encrypted) buffer.
    pub fn pending_snapshot(&self) -> (snapshot: Vec<PersistedPendingStickyEvent>)
        ensures
            pending_listing(snapshot@) == self@.pending,
    {
        let mut snapshot: Vec<PersistedPendingStickyEvent> = Vec::new();
        let mut i: usize = 0;
        while i < self.pending.len()
            invariant
                i <= self.pending@.len(),
                snapshot@.len() == i,
                pending_listing(snapshot@) == self.pending@.take(i as int),
            decreases self.pending@.len() - i,
        {
            let ghost before = snapshot@;
            snapshot.push(PersistedPendingStickyEvent {
                received_ts: self.pending[i].0,
                event: self.pending[i].1.clone(),
            });
            i = i + 1;
            proof {
                assert(pending_listing(snapshot@) =~= pending_listing(before).push(
                    self.pending@[i - 1],
                ));
                assert(pending_listing(snapshot@) =~= self.pending@.take(i as int));
            }
        }
        proof {
            assert(self.pending@.take(i as int) =~= self.pending@);
        }
        snapshot
    }

    /// The room's map of sticky events.
    pub fn map(&self) -> (map: &EphemeralMap<TimelineEventKind<I>, C>)
        requires
            self.wf(),
        ensures
            map.wf(),
            map@ == self@.map,
            map.clock() == self.clock(),
            map.updates_capacity() == self.updates_capacity(),
    {
        &self.map
    }

    /// Do what the maintenance task does about a wake-up, but for writing to the
    /// store: returns what to write.
    pub fn maintain(&mut self, wakeup: Wakeup) -> (write: StoreWrite<I>)
        requires
            old(self).wf(),
        ensures
            final(self).wf(),
            final(self).clock() == old(self).clock(),
            final(self).updates_capacity() == old(self).updates_capacity(),
            exists|now: u64|
                {
                    &&& tells(&*old(self).clock(), now)
                    &&& #[trigger] maintenance_outcome(
                        old(self)@,
                        now,
                        wakeup,
                        final(self)@,
                        write,
                    )
                },
    {
        let now: u64 = self.now_ms();
        self.maintain_at(now, wakeup)
    }

    /// Do what the maintenance task does about a wake-up at the time `now`.
    pub fn maintain_at(&mut self, now: u64, wakeup: Wakeup) -> (write: StoreWrite<I>)
        requires
            old(self).wf(),
        ensures
            final(self).wf(),
            final(self).clock() == old(self).clock(),
            final(self).updates_capacity() == old(self).updates_capacity(),
            maintenance_outcome(old(self)@, now, wakeup, final(self)@, write),
    {
        match respond(wakeup, self.persisting) {
            Response::Evict => {
                let _ = self.map.evict_expired_at(now);
                StoreWrite::Nothing
            },
            Response::Reschedule => StoreWrite::Nothing,
            Response::PersistLive => StoreWrite::Live(self.live_snapshot_at(now)),
            Response::PersistPending => StoreWrite::Pending(self.pending_snapshot()),
        }
    }
}

/// Those of the persisted events that have not expired at the time `now`, on
/// their way back into the map.
fn live_upserts<I>(events: Vec<PersistedStickyEvent<I>>, now: u64) -> (batch: Vec<
    Upsert<TimelineEventKind<I>>,
>)
    ensures
        upsert_views(batch@) == restored(events@, now),
{
    let mut batch: Vec<Upsert<TimelineEventKind<I>>> = Vec::new();
    let ghost all = events@;
    proof {
        assert(upsert_views(batch@) =~= restored(all.take(0), now));
    }
    for event in iter: events
        invariant
            iter.seq() == all,
            upsert_views(batch@) == restored(all.take(iter.index() as int), now),
    {
        let ghost before = batch@;
        proof {
            let i = iter.index() as int;
            assert(all.take(i + 1).drop_last() =~= all.take(i));
            assert(all.take(i + 1).last() == event);
        }
        if event.end_time > now {
            batch.push(
                (
                    StickyKey::new(event.sender, event.event_type, event.sticky_key),
                    event.kind,
                    event.event_id,
                    event.end_time,
                    false,
                ),
            );
            proof {
                assert(upsert_views(batch@) =~= upsert_views(before).push(persisted_upsert(event)));
            }
        }
    }
    proof {
        assert(all.take(all.len() as int) =~= all);
    }
    batch
}

/// Candidates on their way into the map.
fn upserts_of<I>(items: Vec<(StickyCandidate, TimelineEventKind<I>)>) -> (batch: Vec<
    Upsert<TimelineEventKind<I>>,
>)
    ensures
        upsert_views(batch@) == candidate_upserts(items@),
        batch@.len() == items@.len(),
{
    let mut batch: Vec<Upsert<TimelineEventKind<I>>> = Vec::new();
    let ghost all = items@;
    for item in iter: items
        invariant
            iter.seq() == all,
            batch@.len() == iter.index(),
            forall|i: int|
                0 <= i < batch@.len() ==> upsert_view(#[trigger] batch@[i]) == candidate_upsert(
                    all[i].0@,
                    all[i].1,
                ),
    {
        let (candidate, value) = item;
        batch.push(
            (
                candidate.key,
                value,
                candidate.event_id,
                candidate.end_time,
                candidate.is_removal,
            ),
        );
    }
    proof {
        assert(upsert_views(batch@) =~= candidate_upserts(items@));
    }
    batch
}

/// Of persisted events that name no key twice, those are restored that have not
/// expired, neither at the time `now` nor when their turn comes, and nothing else
/// is.
pub proof fn lemma_distinct_events_are_restored<I>(
    events: Seq<PersistedStickyEvent<I>>,
    now: u64,
    times: Seq<u64>,
    later: u64,
    persisting: bool,
)
    requires
        forall|i: int, j: int|
            0 <= i < j < events.len() ==> persisted_upsert(#[trigger] events[i]).key
                != persisted_upsert(#[trigger] events[j]).key,
        times.len() == restored(events, now).len(),
        now <= later,
        forall|i: int| 0 <= i < times.len() ==> #[trigger] times[i] <= later,
    ensures
        ({
            let entries = advanced_by_all(
                begun(StickyEventsView::<I>::empty(persisting).map),
                times,
                restored(events, now),
            ).entries;
            &&& forall|i: int|
                0 <= i < events.len() && (#[trigger] events[i]).end_time > later ==> {
                    &&& entries.contains_key(persisted_upsert(events[i]).key)
                    &&& entries[persisted_upsert(events[i]).key] == persisted_upsert(
                        events[i],
                    ).entry()
                }
            &&& forall|key: StickyKeyView| #[trigger]
                entries.contains_key(key) ==> exists|i: int|
                    {
                        &&& 0 <= i < events.len()
                        &&& persisted_upsert(#[trigger] events[i]).key == key
                        &&& persisted_upsert(events[i]).entry() == entries[key]
                    }
        }),
    decreases events.len(),
{
    if events.len() > 0 {
        let init = events.drop_last();
        let last = events.last();
        let upsert = persisted_upsert(last);
        assert forall|i: int, j: int| 0 <= i < j < init.len() implies persisted_upsert(
            #[trigger] init[i],
        ).key != persisted_upsert(#[trigger] init[j]).key by {
            assert(init[i] == events[i]);
            assert(init[j] == events[j]);
        }
        let is_live = last.end_time > now;
        let init_times = if is_live { times.drop_last() } else { times };
        assert forall|i: int| 0 <= i < init_times.len() implies #[trigger] init_times[i] <= later by {
            assert(init_times[i] == times[i]);
        }
        lemma_distinct_events_are_restored(init, now, init_times, later, persisting);
        let batch = restored(events, now);
        let start = begun(StickyEventsView::<I>::empty(persisting).map);
        let before = advanced_by_all(start, init_times, restored(init, now)).entries;
        let entries = advanced_by_all(start, times, batch).entries;
        if before.contains_key(upsert.key) {
            let i = choose|i: int|
                {
                    &&& 0 <= i < init.len()
                    &&& persisted_upsert(#[trigger] init[i]).key == upsert.key
                    &&& persisted_upsert(init[i]).entry() == before[upsert.key]
                };
            assert(init[i] == events[i]);
            assert(last == events[events.len() - 1]);
        }
        if is_live {
            assert(batch.drop_last() =~= restored(init, now));
            assert(times[times.len() - 1] == times.last());
            assert(entries == before || entries == before.insert(upsert.key, upsert.entry()));
        }
        assert forall|i: int|
            0 <= i < events.len() && (#[trigger] events[i]).end_time > later implies {
            &&& entries.contains_key(persisted_upsert(events[i]).key)
            &&& entries[persisted_upsert(events[i]).key] == persisted_upsert(events[i]).entry()
        } by {
            if i < init.len() {
                assert(init[i] == events[i]);
            }
        }
        assert forall|key: StickyKeyView| #[trigger] entries.contains_key(key) implies exists|
            i: int,
        |
            {
                &&& 0 <= i < events.len()
                &&& persisted_upsert(#[trigger] events[i]).key == key
                &&& persisted_upsert(events[i]).entry() == entries[key]
            } by {
            if before.contains_key(key) {
                let i = choose|i: int|
                    {
                        &&& 0 <= i < init.len()
                        &&& persisted_upsert(#[trigger] init[i]).key == key
                        &&& persisted_upsert(init[i]).entry() == before[key]
                    };
                assert(events[i] == init[i]);
            } else {
                assert(events[events.len() - 1] == last);
            }
        }
    }
}

/// A restart loses no live entry: where the entries that were live `then` are
/// written to the store and loaded into a new one, the entries that are live there
/// at any time since are those that would have been live without the restart.
pub proof fn law_restart_restores_the_live_entries<I>(
    entries: Entries<TimelineEventKind<I>>,
    then: u64,
    snapshot: Seq<PersistedStickyEvent<I>>,
    now: u64,
    times: Seq<u64>,
    later: u64,
    persisting: bool,
)
    requires
        lists(persisted_listing(snapshot), live_entries(entries, then)),
        times.len() == restored(snapshot, now).len(),
        then <= later,
        now <= later,
        forall|i: int| 0 <= i < times.len() ==> #[trigger] times[i] <= later,
    ensures
        live_entries(
            ingested(
                StickyEventsView::<I>::empty(persisting),
                times,
                restored(snapshot, now),
            ).map.entries,
            later,
        ) == live_entries(entries, later),
{
    let pairs = persisted_listing(snapshot);
    assert forall|i: int, j: int| 0 <= i < j < snapshot.len() implies persisted_upsert(
        #[trigger] snapshot[i],
    ).key != persisted_upsert(#[trigger] snapshot[j]).key by {
        assert(pairs[i].0 != pairs[j].0);
    }
    lemma_distinct_events_are_restored(snapshot, now, times, later, persisting);
    let batch = restored(snapshot, now);
    let loaded = advanced_by_all(
        begun(StickyEventsView::<I>::empty(persisting).map),
        times,
        batch,
    ).entries;
    let (one, two) = (live_entries(loaded, later), live_entries(entries, later));
    assert forall|key: StickyKeyView| #[trigger] one.contains_key(key) implies two.contains_key(key)
        && one[key] == two[key] by {
        assert(loaded.contains_key(key));
        let i = choose|i: int|
            {
                &&& 0 <= i < snapshot.len()
                &&& persisted_upsert(#[trigger] snapshot[i]).key == key
                &&& persisted_upsert(snapshot[i]).entry() == loaded[key]
            };
        assert(pairs[i].0 == key);
    }
    assert forall|key: StickyKeyView| #[trigger] two.contains_key(key) implies one.contains_key(
        key,
    ) by {
        assert(live_entries(entries, then).contains_key(key));
        let i = choose|i: int| 0 <= i < pairs.len() && (#[trigger] pairs[i]).0 == key;
        assert(persisted_upsert(snapshot[i]).key == key);
        assert(snapshot[i].end_time > later);
    }
    assert(one =~= two);
}

/// A restart loses no parked event that may still be sticky: what was written to
/// the store is loaded in the same order, without the events whose longest
/// possible lifetime has passed.
pub proof fn law_restart_restores_the_parked_events(
    snapshot: Seq<PersistedPendingStickyEvent>,
    pending: Seq<ParkedEvent>,
    now: u64,
)
    requires
        pending_listing(snapshot) == pending,
    ensures
        restored_pending(snapshot, now) == pending.filter(
            |event: ParkedEvent| may_be_live(event.0, now),
        ),
    decreases snapshot.len(),
{
    reveal(Seq::filter);
    if snapshot.len() > 0 {
        assert(pending_listing(snapshot.drop_last()) =~= pending.drop_last());
        law_restart_restores_the_parked_events(snapshot.drop_last(), pending.drop_last(), now);
        assert(pending.last() == pending_listing(snapshot).last());
    }
}

/// The maintenance task is started once: when it was started nothing starts it
/// again, and nothing takes it back.
pub proof fn law_task_is_started_once<I>(
    before: StickyEventsView<I>,
    times: Seq<u64>,
    events: Seq<UpsertView<TimelineEventKind<I>>>,
    parked: Seq<ParkedEvent>,
    start: Option<MaintenanceStart>,
    needed: bool,
)
    requires
        is_start(start, before, needed),
    ensures
        before.task_started ==> start is None,
        before.task_started ==> {
            &&& ingested(before, times, events).task_started
            &&& with_parked(before, parked).task_started
            &&& without_parked(before).task_started
        },
        events.len() > 0 ==> ingested(before, times, events).task_started,
        parked.len() > 0 ==> with_parked(before, parked).task_started,
{
}

/// The maintenance task does not miss the change that starts it: where there is
/// a store to write to, the update that reports the change is sent after the task
/// has subscribed.
pub proof fn law_task_sees_the_change_that_starts_it<I>(
    before: StickyEventsView<I>,
    times: Seq<u64>,
    events: Seq<UpsertView<TimelineEventKind<I>>>,
    start: MaintenanceStart,
)
    requires
        is_start(Some(start), before, events.len() > 0),
        before.persisting,
        ingested(before, times, events).map.entries != before.map.entries,
        times.len() == events.len(),
    ensures
        ({
            let published = ingested(before, times, events).map.published;
            &&& start.updates matches Some(updates)
            &&& published.len() == missed_updates(updates).len() + 1
            &&& published.drop_last() == missed_updates(updates)
        }),
{
    let after = ingested(before, times, events).map;
    law_update_is_the_net_effect(before.map, times, events);
    law_unreported_batch_leaves_the_entries(before.map, times, events);
    assert(after.published.drop_last() =~= before.map.published);
}

} // verus!
