//! The generic sticky-events ephemeral map.

use crate::channel::{new_notify, open_channel, send_update, subscribe_to, wake};
use crate::clock::Clock;
use crate::entries::EntryTable;
use crate::expiry::{ExpiryNode, ExpiryQueue};
use crate::key::{RemovalReason, StickyEntry, StickyEventsUpdate, StickyKey};
use crate::text::{compare_text, Relation};
use std::sync::Arc;
use tokio::sync::{broadcast, Notify};
use vstd::prelude::*;

verus! {

use crate::channel::{channel_capacity, missed_updates, sent_updates, wakeup_count};
use crate::clock::{tells, tells_all};
use crate::expiry::lemma_node_order_total;
use crate::key::{key_views, StickyEventsUpdateView, StickyKeyView};
use crate::laws::law_next_expiry_is_never_too_late;
use crate::model::{
    advanced_by_all, all_scheduled, are_expired_keys, batch_applied, begun, changes, effect, entries_after,
    evicted, expiry_update, is_earliest, is_entry_of, lemma_empty_update_means_no_change,
    lemma_listing_len, lemma_untouched_entries_are_kept, listing, lists, live_entries, net_effect,
    net_update, node_before, outranks, published, recorded, removed_by_hand,
    schedule_after, touched_after, upserted, Effect, Entries, EphemeralMapView, UpsertView,
};
use crate::text::{lemma_text_order_asymmetric, text_before};

/// The largest sticky duration: one hour.
pub const MAX_STICKY_DURATION_MS: u64 = 3_600_000;

/// The smaller of two times.
pub open spec fn earlier(a: u64, b: u64) -> u64 {
    if a <= b { a } else { b }
}

/// `start` plus a duration, clamped to the largest sticky duration; at most
/// `u64::MAX`.
pub open spec fn end_after(start: u64, duration_ms: u64) -> u64 {
    let end = start + earlier(duration_ms, MAX_STICKY_DURATION_MS);
    if end <= u64::MAX { end as u64 } else { u64::MAX }
}

/// Compute the absolute expiry time of a sticky event:
///
/// ```text
/// start_time = min(received_ts, origin_server_ts)
/// end_time   = start_time + min(duration_ms, 3_600_000)
/// ```
///
/// Taking the minimum of the two timestamps prevents a malicious future
/// `origin_server_ts` from extending stickiness.
pub fn compute_end_time(origin_server_ts: u64, received_ts: u64, duration_ms: u32) -> (end_time: u64)
    ensures
        end_time == end_after(earlier(origin_server_ts, received_ts), duration_ms as u64),
{
    let start_time = if origin_server_ts <= received_ts { origin_server_ts } else { received_ts };
    add_sticky_duration(start_time, duration_ms as u64)
}

/// `start` plus `duration_ms`, which counts for one hour at most; saturating.
pub fn add_sticky_duration(start: u64, duration_ms: u64) -> (end_time: u64)
    ensures
        end_time == end_after(start, duration_ms),
{
    let clamped: u64 =
        if duration_ms <= MAX_STICKY_DURATION_MS { duration_ms } else { MAX_STICKY_DURATION_MS };
    start.saturating_add(clamped)
}

/// Capacity of the broadcast channel used to notify subscribers of changes.
const UPDATES_CHANNEL_CAPACITY: usize = 16;

/// The classification of a single applied change, before it is batched into a
/// [`StickyEventsUpdate`].
enum Change {
    Added(StickyKey),
    Updated(StickyKey),
    Removed(StickyKey, RemovalReason),
}

/// The key whose entry changed.
spec fn changed_key(change: Change) -> StickyKeyView {
    match change {
        Change::Added(key) | Change::Updated(key) | Change::Removed(key, _) => key@,
    }
}

/// How the entry changed, if by the arrival of an event.
spec fn change_effect(change: Option<Change>) -> Effect {
    match change {
        None => Effect::Ignored,
        Some(Change::Added(_)) => Effect::Added,
        Some(Change::Updated(_)) => Effect::Updated,
        Some(Change::Removed(_, _)) => Effect::Removed,
    }
}

/// A removal, if it is one, is one by a removal event.
spec fn by_event(change: Change) -> bool {
    change matches Change::Removed(_, reason) ==> reason == RemovalReason::Replaced
}

/// What a batch has to remember of the entries that it changes.
struct BatchLog {
    /// The keys of these entries, each once, in the order in which their entries
    /// were first changed.
    keys: Vec<StickyKey>,
    /// For each of them, whether there was an entry when the batch began.
    origins: EntryTable<bool>,
}

impl BatchLog {
    /// The log of a batch that began with the entries `before` and has touched
    /// the given keys.
    spec fn is_log_of<T>(&self, before: Entries<T>, touched: Seq<StickyKeyView>) -> bool {
        &&& self.origins.wf()
        &&& key_views(self.keys@) == touched
        &&& forall|key: StickyKeyView| #[trigger]
            self.origins@.contains_key(key) <==> touched.contains(key)
        &&& forall|key: StickyKeyView| #[trigger]
            self.origins@.contains_key(key) ==> self.origins@[key].value == before.contains_key(key)
    }
}

/// A sticky event on its way into the map: its key, the value to store, its
/// event id, its expiry time, and whether it is a removal.
pub type Upsert<T> = (StickyKey, T, String, u64, bool);

/// What an event on its way into the map stands for.
pub open spec fn upsert_view<T>(event: Upsert<T>) -> UpsertView<T> {
    UpsertView {
        key: event.0@,
        value: event.1,
        event_id: event.2@,
        end_time: event.3,
        is_removal: event.4,
    }
}

/// What events on their way into the map stand for, in order.
pub open spec fn upsert_views<T>(events: Seq<Upsert<T>>) -> Seq<UpsertView<T>> {
    events.map_values(|event: Upsert<T>| upsert_view(event))
}

/// `before` became `after` by `event`, which arrived at the time `now`; `changed`
/// says whether anything changed.
pub open spec fn upsert_outcome<T>(
    before: EphemeralMapView<T>,
    now: u64,
    event: UpsertView<T>,
    after: EphemeralMapView<T>,
    changed: bool,
) -> bool {
    &&& after == upserted(before, now, event)
    &&& changed <==> !(effect(before.entries, now, event) is Ignored)
}

/// `before` became `after` by a batch of `events`, each of which arrived at the
/// time that stands at its place in `times`; `changed` says whether, all in all,
/// anything changed.
pub open spec fn batch_outcome<T>(
    before: EphemeralMapView<T>,
    times: Seq<u64>,
    events: Seq<UpsertView<T>>,
    after: EphemeralMapView<T>,
    changed: bool,
) -> bool {
    &&& times.len() == events.len()
    &&& after == batch_applied(before, times, events)
    &&& changed <==> changes(before.entries, advanced_by_all(begun(before), times, events))
    &&& !changed ==> after.entries == before.entries
}

/// The same time, `count` times over.
pub open spec fn all_at(now: u64, count: nat) -> Seq<u64> {
    Seq::new(count, |i: int| now)
}

/// Whether an event supersedes the entry of its key.
fn supersedes<T>(end_time: u64, event_id: &String, current: &StickyEntry<T>) -> (wins: bool)
    ensures
        wins == outranks(end_time, event_id@, current@),
{
    if end_time != current.end_time {
        end_time > current.end_time
    } else {
        match compare_text(current.event_id.as_str(), event_id.as_str()) {
            Relation::Before => true,
            Relation::Same => {
                proof {
                    if text_before(event_id@, event_id@) {
                        lemma_text_order_asymmetric(event_id@, event_id@);
                    }
                }
                false
            },
            Relation::After => {
                proof {
                    lemma_text_order_asymmetric(event_id@, current.event_id@);
                }
                false
            },
        }
    }
}

/// A generic, in-memory map of currently-live sticky events for a single room.
///
/// Keyed by [`StickyKey`] (`sender`, `type`, optional `sticky_key`), the map
/// keeps at most one entry per key, resolving conflicts with a tie-break:
/// last-to-expire wins, then highest lexicographic event id. Expiry is evaluated
/// lazily on read via [`iter_live`](Self::iter_live) / [`get`](Self::get), and
/// proactively by [`evict_expired`](Self::evict_expired) (driven by a background
/// task). Changes are broadcast to [`subscribe`](Self::subscribe)rs.
///
/// Each operation that depends on the time reads it from the map's clock; beside
/// it stands one that takes the time as an argument.
#[derive(Debug)]
#[verifier::reject_recursive_types(T)]
pub struct EphemeralMap<T, C: Clock + ?Sized = dyn Clock> {
    /// The entries, one per key.
    entries: EntryTable<T>,
    /// When which key is due. May contain stale nodes (a key updated to a later
    /// `end_time` leaves its old node behind); these are discarded when popped.
    expiry_queue: ExpiryQueue,
    /// Broadcasts batched changes to external subscribers.
    updates: broadcast::Sender<StickyEventsUpdate>,
    /// Notifies the maintenance task that entries changed and it should
    /// reschedule.
    change: Arc<Notify>,
    /// Source of "now".
    clock: Arc<C>,
}

impl<T, C: Clock + ?Sized> View for EphemeralMap<T, C> {
    type V = EphemeralMapView<T>;

    closed spec fn view(&self) -> EphemeralMapView<T> {
        EphemeralMapView {
            entries: self.entries@,
            schedule: self.expiry_queue@,
            published: sent_updates(self.updates),
            wakeups: wakeup_count(*self.change),
        }
    }
}

impl<T, C: Clock + ?Sized> EphemeralMap<T, C> {
    /// Entries and expiry times are in order, and every entry is scheduled for
    /// the time at which it expires.
    pub closed spec fn wf(&self) -> bool {
        &&& self.entries.wf()
        &&& self.expiry_queue.wf()
        &&& all_scheduled(self.entries@, self.expiry_queue@)
    }

    /// The capacity that was asked for when the channel of this map was made: at
    /// least as many updates are held for a slow subscriber.
    pub closed spec fn updates_capacity(&self) -> nat {
        channel_capacity(self.updates)
    }

    /// The clock that drives this map.
    pub closed spec fn clock(&self) -> Arc<C> {
        self.clock
    }

    /// Create a new, empty map driven by `clock`.
    pub fn new(clock: Arc<C>) -> (map: Self)
        ensures
            map.wf(),
            map@ == EphemeralMapView::<T>::empty(),
            map.updates_capacity() == 16,
            map.clock() == clock,
    {
        EphemeralMap {
            entries: EntryTable::new(),
            expiry_queue: ExpiryQueue::new(),
            updates: open_channel(UPDATES_CHANNEL_CAPACITY),
            change: Arc::new(new_notify()),
            clock,
        }
    }

    /// The current time in milliseconds, per the map's clock.
    pub fn now_ms(&self) -> (now: u64)
        ensures
            tells(&*self.clock(), now),
    {
        self.clock.now_ms()
    }

    /// Subscribe to batched change notifications. The subscriber gets the
    /// updates that are published from now on.
    pub fn subscribe(&self) -> (receiver: broadcast::Receiver<StickyEventsUpdate>)
        ensures
            missed_updates(receiver) == self@.published,
    {
        subscribe_to(&self.updates)
    }

    /// A handle the maintenance task awaits to learn that entries changed.
    pub fn change_notify(&self) -> (notify: Arc<Notify>)
        ensures
            wakeup_count(*notify) == self@.wakeups,
    {
        self.change.clone()
    }

    /// The number of currently-live entries.
    pub fn len_live(&self) -> (len: usize)
        requires
            self.wf(),
        ensures
            exists|now: u64|
                {
                    &&& tells(&*self.clock(), now)
                    &&& len == #[trigger] live_entries(self@.entries, now).len()
                },
    {
        self.len_live_at(self.now_ms())
    }

    /// The number of entries that are live at the time `now`.
    pub fn len_live_at(&self, now: u64) -> (len: usize)
        requires
            self.wf(),
        ensures
            live_entries(self@.entries, now).dom().finite(),
            len == live_entries(self@.entries, now).len(),
    {
        let live = self.iter_live_at(now);
        proof {
            lemma_listing_len(listing(live@), live_entries(self@.entries, now));
        }
        live.len()
    }

    /// Get the live entry for `key`, if any (expired entries are hidden).
    pub fn get(&self, key: &StickyKey) -> (entry: Option<&StickyEntry<T>>)
        requires
            self.wf(),
        ensures
            exists|now: u64|
                {
                    &&& tells(&*self.clock(), now)
                    &&& is_entry_of(entry, key@, #[trigger] live_entries(self@.entries, now))
                },
    {
        self.get_at(self.now_ms(), key)
    }

    /// Get the entry for `key` that is live at the time `now`, if any.
    pub fn get_at(&self, now: u64, key: &StickyKey) -> (entry: Option<&StickyEntry<T>>)
        requires
            self.wf(),
        ensures
            is_entry_of(entry, key@, live_entries(self@.entries, now)),
    {
        match self.entries.get(key) {
            Some(entry) => if entry.end_time > now { Some(entry) } else { None },
            None => None,
        }
    }

    /// The currently-live (non-expired) entries, in no particular order.
    pub fn iter_live(&self) -> (live: Vec<(&StickyKey, &StickyEntry<T>)>)
        requires
            self.wf(),
        ensures
            exists|now: u64|
                {
                    &&& tells(&*self.clock(), now)
                    &&& lists(listing(live@), #[trigger] live_entries(self@.entries, now))
                },
    {
        self.iter_live_at(self.now_ms())
    }

    /// The entries that are live at the time `now`, in no particular order.
    pub fn iter_live_at(&self, now: u64) -> (live: Vec<(&StickyKey, &StickyEntry<T>)>)
        requires
            self.wf(),
        ensures
            lists(listing(live@), live_entries(self@.entries, now)),
    {
        self.entries.live(now)
    }

    /// The earliest expiry time currently scheduled, if any.
    ///
    /// May reflect a stale node (its `end_time` is still a valid lower bound on
    /// the next real expiry, so it only ever wakes the maintenance task too
    /// early, never too late).
    pub fn next_expiry(&self) -> (time: Option<u64>)
        requires
            self.wf(),
        ensures
            is_earliest(time, self@.schedule),
            forall|key: StickyKeyView| #[trigger]
                self@.entries.contains_key(key) ==> time is Some && time->0
                    <= self@.entries[key].end_time,
    {
        let time = match self.expiry_queue.peek() {
            Some(node) => Some(node.end_time),
            None => None,
        };
        proof {
            law_next_expiry_is_never_too_late(self@.entries, self@.schedule, time);
        }
        time
    }

    /// Upsert a single sticky event, emitting an update and waking the
    /// maintenance task if anything changed. Returns whether the map changed.
    ///
    /// See [`compute_end_time`] for how `end_time` is derived. When
    /// `is_removal` is set the entry for `key` is removed (a replacement event
    /// carrying only `sticky_key`).
    pub fn upsert(
        &mut self,
        key: StickyKey,
        value: T,
        event_id: String,
        end_time: u64,
        is_removal: bool,
    ) -> (changed: bool)
        requires
            old(self).wf(),
        ensures
            final(self).wf(),
            final(self).updates_capacity() == old(self).updates_capacity(),
            final(self).clock() == old(self).clock(),
            exists|now: u64|
                {
                    &&& tells(&*old(self).clock(), now)
                    &&& #[trigger] upsert_outcome(
                        old(self)@,
                        now,
                        upsert_view((key, value, event_id, end_time, is_removal)),
                        final(self)@,
                        changed,
                    )
                },
    {
        let now: u64 = self.now_ms();
        self.upsert_at(now, key, value, event_id, end_time, is_removal)
    }

    /// Upsert a single sticky event that arrives at the time `now`.
    pub fn upsert_at(
        &mut self,
        now: u64,
        key: StickyKey,
        value: T,
        event_id: String,
        end_time: u64,
        is_removal: bool,
    ) -> (changed: bool)
        requires
            old(self).wf(),
        ensures
            final(self).wf(),
            final(self).updates_capacity() == old(self).updates_capacity(),
            final(self).clock() == old(self).clock(),
            upsert_outcome(
                old(self)@,
                now,
                upsert_view((key, value, event_id, end_time, is_removal)),
                final(self)@,
                changed,
            ),
    {
        match self.apply_one(now, key, value, event_id, end_time, is_removal) {
            Some(change) => {
                let mut update = StickyEventsUpdate::default();
                self.record(&mut update, change);
                self.publish(update);
                true
            },
            None => false,
        }
    }

    /// Apply a batch of upserts, emitting a single combined update at the end,
    /// which tells its net effect. Returns whether, all in all, the map changed. An
    /// entry that was added and taken away again is no change; one that was taken
    /// away and filed anew is.
    pub fn apply_batch(&mut self, events: Vec<Upsert<T>>) -> (changed: bool)
        requires
            old(self).wf(),
        ensures
            final(self).wf(),
            final(self).updates_capacity() == old(self).updates_capacity(),
            final(self).clock() == old(self).clock(),
            exists|times: Seq<u64>|
                {
                    &&& tells_all(&*old(self).clock(), times)
                    &&& #[trigger] batch_outcome(
                        old(self)@,
                        times,
                        upsert_views(events@),
                        final(self)@,
                        changed,
                    )
                },
    {
        self.apply_all(events, None)
    }

    /// Apply a batch of upserts that all arrive at the time `now`.
    pub fn apply_batch_at(&mut self, now: u64, events: Vec<Upsert<T>>) -> (changed: bool)
        requires
            old(self).wf(),
        ensures
            final(self).wf(),
            final(self).updates_capacity() == old(self).updates_capacity(),
            final(self).clock() == old(self).clock(),
            batch_outcome(
                old(self)@,
                all_at(now, events@.len()),
                upsert_views(events@),
                final(self)@,
                changed,
            ),
    {
        let changed = self.apply_all(events, Some(now));
        proof {
            let views = upsert_views(events@);
            let times = choose|times: Seq<u64>|
                #[trigger] batch_outcome(old(self)@, times, views, self@, changed)
                    && Self::are_times(old(self).clock(), Some(now), times);
            assert(times =~= all_at(now, events@.len()));
        }
        changed
    }

    /// Apply a batch of upserts, at the given time or else each at the time that
    /// the clock tells when its turn comes.
    fn apply_all(&mut self, events: Vec<Upsert<T>>, time: Option<u64>) -> (changed: bool)
        requires
            old(self).wf(),
        ensures
            final(self).wf(),
            final(self).updates_capacity() == old(self).updates_capacity(),
            final(self).clock() == old(self).clock(),
            exists|times: Seq<u64>|
                #[trigger] batch_outcome(
                    old(self)@,
                    times,
                    upsert_views(events@),
                    final(self)@,
                    changed,
                ) && Self::are_times(old(self).clock(), time, times),
    {
        let mut log = BatchLog { keys: Vec::new(), origins: EntryTable::new() };
        let ghost mut times: Seq<u64> = Seq::empty();
        let ghost views = upsert_views(events@);
        let ghost start = begun(self@);
        proof {
            assert(key_views(log.keys@) =~= start.touched);
        }
        for event in iter: events
            invariant
                self.wf(),
                self.updates_capacity() == old(self).updates_capacity(),
                self.clock() == old(self).clock(),
                views == upsert_views(iter.seq()),
                start == begun(old(self)@),
                self@.published == old(self)@.published,
                self@.wakeups == old(self)@.wakeups,
                times.len() == iter.index(),
                Self::are_times(old(self).clock(), time, times),
                ({
                    let reached = advanced_by_all(
                        start,
                        times,
                        views.take(iter.index() as int),
                    );
                    &&& self@.entries == reached.entries
                    &&& self@.schedule == reached.schedule
                    &&& log.is_log_of(old(self)@.entries, reached.touched)
                }),
        {
            let now: u64 = match time {
                Some(now) => now,
                None => self.now_ms(),
            };
            let ghost i = iter.index() as int;
            let ghost before = times;
            let ghost reached = advanced_by_all(start, times, views.take(i));
            proof {
                assert(views[i] == upsert_view(event));
                lemma_untouched_entries_are_kept(old(self)@, times, views.take(i));
                times = times.push(now);
                assert(times.drop_last() =~= before);
                assert(views.take(i + 1).drop_last() =~= views.take(i));
                assert(views.take(i + 1).last() == views[i]);
            }
            self.apply_logged(
                &mut log,
                now,
                event,
                Ghost(old(self)@.entries),
                Ghost(reached.touched),
            );
        }
        proof {
            assert(views.take(views.len() as int) =~= views);
            lemma_empty_update_means_no_change(old(self)@, times, views);
        }
        let update = self.net_update_of(&log, Ghost(old(self)@.entries));
        let changed = !update.is_empty();
        self.publish(update);
        proof {
            assert(batch_outcome(old(self)@, times, views, self@, changed));
        }
        changed
    }

    /// The times at which the events of a batch arrive: the given one or else
    /// times that the clock tells.
    spec fn are_times(clock: Arc<C>, time: Option<u64>, times: Seq<u64>) -> bool {
        match time {
            Some(now) => forall|i: int| 0 <= i < times.len() ==> times[i] == now,
            None => tells_all(&*clock, times),
        }
    }

    /// Apply one event of a batch, and log the entry that it changes as it was
    /// when the batch began.
    fn apply_logged(
        &mut self,
        log: &mut BatchLog,
        now: u64,
        event: Upsert<T>,
        Ghost(start): Ghost<Entries<T>>,
        Ghost(touched): Ghost<Seq<StickyKeyView>>,
    )
        requires
            old(self).wf(),
            old(log).is_log_of(start, touched),
            forall|key: StickyKeyView|
                #![trigger old(self)@.entries.contains_key(key)]
                #![trigger start.contains_key(key)]
                !touched.contains(key) ==> {
                    &&& old(self)@.entries.contains_key(key) <==> start.contains_key(key)
                    &&& start.contains_key(key) ==> old(self)@.entries[key] == start[key]
                },
        ensures
            final(self).wf(),
            final(self).updates_capacity() == old(self).updates_capacity(),
            final(self).clock() == old(self).clock(),
            ({
                let view = upsert_view(event);
                let entries = old(self)@.entries;
                &&& final(self)@ == (EphemeralMapView {
                    entries: entries_after(entries, now, view),
                    schedule: schedule_after(old(self)@.schedule, entries, now, view),
                    ..old(self)@
                })
                &&& final(log).is_log_of(
                    start,
                    touched_after(touched, view.key, effect(entries, now, view)),
                )
            }),
    {
        let (key, value, event_id, end_time, is_removal) = event;
        let first = match log.origins.get(&key) {
            Some(_) => None,
            None => {
                let is_present = match self.entries.get(&key) {
                    Some(_) => true,
                    None => false,
                };
                let origin = StickyEntry { value: is_present, event_id: String::new(), end_time: 0 };
                Some((key.clone(), origin))
            },
        };
        let ghost name = key@;
        let change = self.apply_one(now, key, value, event_id, end_time, is_removal);
        if let (Some(_), Some((key, origin))) = (change, first) {
            log.keys.push(key.clone());
            log.origins.insert(key, origin);
            proof {
                assert(key_views(log.keys@) =~= touched.push(name));
                let now_touched = touched.push(name);
                assert forall|k: StickyKeyView| #[trigger] log.origins@.contains_key(
                    k,
                ) <==> now_touched.contains(k) by {
                    if touched.contains(k) {
                        let i = choose|i: int| 0 <= i < touched.len() && touched[i] == k;
                        assert(now_touched[i] == k);
                    }
                    if k == name {
                        assert(now_touched[touched.len() as int] == k);
                    }
                }
                assert(start.contains_key(name) <==> old(self)@.entries.contains_key(name));
            }
        }
    }

    /// What has become, all in all, of the entries that a batch has changed.
    fn net_update_of(&self, log: &BatchLog, Ghost(start): Ghost<Entries<T>>) -> (update:
        StickyEventsUpdate)
        requires
            self.wf(),
            log.is_log_of(start, key_views(log.keys@)),
        ensures
            update@ == net_update(start, self@.entries, key_views(log.keys@)),
    {
        let mut update = StickyEventsUpdate::default();
        let ghost touched = key_views(log.keys@);
        let mut i: usize = 0;
        while i < log.keys.len()
            invariant
                self.wf(),
                i <= log.keys@.len(),
                touched == key_views(log.keys@),
                log.is_log_of(start, touched),
                update@ == net_update(start, self@.entries, touched.take(i as int)),
            decreases log.keys@.len() - i,
        {
            proof {
                assert(touched[i as int] == log.keys@[i as int]@);
                assert(touched.contains(touched[i as int]));
                assert(touched.take(i + 1).drop_last() =~= touched.take(i as int));
                assert(touched.take(i + 1).last() == touched[i as int]);
            }
            if let Some(origin) = log.origins.get(&log.keys[i]) {
                if let Some(change) = self.net_change(&log.keys[i], origin.value) {
                    self.record(&mut update, change);
                }
            }
            i = i + 1;
        }
        proof {
            assert(touched.take(touched.len() as int) =~= touched);
        }
        update
    }

    /// What has become, all in all, of the entry for `key`, which a batch has
    /// changed, given whether there was one before.
    fn net_change(&self, key: &StickyKey, was_present: bool) -> (change: Option<Change>)
        requires
            self.wf(),
        ensures
            forall|start: Entries<T>|
                start.contains_key(key@) == was_present ==> change_effect(change)
                    == #[trigger] net_effect(start, self@.entries, key@),
            change matches Some(change) ==> changed_key(change) == key@ && by_event(change),
    {
        match self.entries.get(key) {
            Some(_) => {
                if was_present {
                    Some(Change::Updated(key.clone()))
                } else {
                    Some(Change::Added(key.clone()))
                }
            },
            None => {
                if was_present {
                    Some(Change::Removed(key.clone(), RemovalReason::Replaced))
                } else {
                    None
                }
            },
        }
    }

    /// Explicitly remove the entry for `key`, if present.
    pub fn remove(&mut self, key: &StickyKey) -> (entry: Option<StickyEntry<T>>)
        requires
            old(self).wf(),
        ensures
            final(self).wf(),
            final(self).updates_capacity() == old(self).updates_capacity(),
            final(self).clock() == old(self).clock(),
            final(self)@ == removed_by_hand(old(self)@, key@),
            match entry {
                Some(entry) => {
                    old(self)@.entries.contains_key(key@) && old(self)@.entries[key@] == entry@
                },
                None => !old(self)@.entries.contains_key(key@),
            },
    {
        match self.entries.remove(key) {
            Some(entry) => {
                let mut update = StickyEventsUpdate::default();
                update.removed.push((key.clone(), RemovalReason::ExplicitRemoval));
                proof {
                    assert(update@ =~= (StickyEventsUpdateView {
                        removed: seq![(key@, RemovalReason::ExplicitRemoval)],
                        ..StickyEventsUpdateView::empty()
                    }));
                }
                self.publish(update);
                Some(entry)
            },
            None => {
                proof {
                    assert(self@ =~= old(self)@);
                }
                None
            },
        }
    }

    /// Drop every entry whose expiry time has passed, broadcasting a single
    /// `removed` update. Returns the evicted keys, in the order in which they
    /// were due.
    pub fn evict_expired(&mut self) -> (removed: Vec<StickyKey>)
        requires
            old(self).wf(),
        ensures
            final(self).wf(),
            final(self).updates_capacity() == old(self).updates_capacity(),
            final(self).clock() == old(self).clock(),
            exists|now: u64|
                {
                    &&& tells(&*old(self).clock(), now)
                    &&& are_expired_keys(key_views(removed@), old(self)@.entries, now)
                    &&& final(self)@ == #[trigger] evicted(old(self)@, now, key_views(removed@))
                },
    {
        let now: u64 = self.now_ms();
        self.evict_expired_at(now)
    }

    /// Drop every entry that has expired at the time `now`.
    pub fn evict_expired_at(&mut self, now: u64) -> (removed: Vec<StickyKey>)
        requires
            old(self).wf(),
        ensures
            final(self).wf(),
            final(self).updates_capacity() == old(self).updates_capacity(),
            final(self).clock() == old(self).clock(),
            are_expired_keys(key_views(removed@), old(self)@.entries, now),
            final(self)@ == evicted(old(self)@, now, key_views(removed@)),
    {
        let removed = self.drop_expired(now);
        if removed.len() > 0 {
            let mut update = StickyEventsUpdate::default();
            let mut i: usize = 0;
            while i < removed.len()
                invariant
                    i <= removed@.len(),
                    update@ == expiry_update(key_views(removed@.take(i as int))),
                decreases removed@.len() - i,
            {
                let ghost before = update@;
                update.removed.push((removed[i].clone(), RemovalReason::Expired));
                i = i + 1;
                proof {
                    let keys = key_views(removed@.take(i as int));
                    assert(keys.drop_last() =~= key_views(removed@.take(i - 1)));
                    assert(update@.removed =~= before.removed.push((keys.last(), RemovalReason::Expired)));
                    assert(update@ =~= expiry_update(key_views(removed@.take(i as int))));
                }
            }
            proof {
                assert(removed@.take(removed@.len() as int) =~= removed@);
            }
            self.publish(update);
        }
        proof {
            let keys = key_views(removed@);
            if removed@.len() == 0 {
                assert(expiry_update(keys) =~= StickyEventsUpdateView::empty());
            } else {
                assert(expiry_update(keys).removed.len() == removed@.len());
            }
        }
        removed
    }

    /// Drop every entry that has expired at the time `now` (no broadcasting),
    /// returning their keys in the order in which they were due.
    fn drop_expired(&mut self, now: u64) -> (removed: Vec<StickyKey>)
        requires
            old(self).wf(),
        ensures
            final(self).wf(),
            final(self).updates_capacity() == old(self).updates_capacity(),
            final(self).clock() == old(self).clock(),
            are_expired_keys(key_views(removed@), old(self)@.entries, now),
            final(self)@ == (EphemeralMapView {
                entries: live_entries(old(self)@.entries, now),
                schedule: old(self)@.schedule.filter(|node: (u64, StickyKeyView)| node.0 > now),
                ..old(self)@
            }),
    {
        let mut removed: Vec<StickyKey> = Vec::new();
        let ghost all = self@.entries;
        let ghost nodes = self@.schedule;
        loop
            invariant
                self.wf(),
                self.updates == old(self).updates,
                self.change == old(self).change,
                self.clock == old(self).clock,
                all == old(self)@.entries,
                nodes == old(self)@.schedule,
                forall|node: (u64, StickyKeyView)| #[trigger]
                    self@.schedule.count(node) <= nodes.count(node),
                forall|node: (u64, StickyKeyView)|
                    node.0 > now ==> #[trigger] self@.schedule.count(node) == nodes.count(node),
                forall|key: StickyKeyView| #[trigger]
                    self@.entries.contains_key(key) ==> all.contains_key(key) && all[key]
                        == self@.entries[key],
                forall|key: StickyKeyView| #[trigger]
                    all.contains_key(key) && !self@.entries.contains_key(key) ==> key_views(
                        removed@,
                    ).contains(key),
                forall|i: int|
                    0 <= i < removed@.len() ==> {
                        &&& all.contains_key(#[trigger] removed@[i]@)
                        &&& all[removed@[i]@].end_time <= now
                        &&& !self@.entries.contains_key(removed@[i]@)
                    },
                forall|i: int, j: int|
                    0 <= i < j < removed@.len() ==> node_before(
                        (all[#[trigger] removed@[i]@].end_time, removed@[i]@),
                        (all[#[trigger] removed@[j]@].end_time, removed@[j]@),
                    ),
                forall|i: int, node: (u64, StickyKeyView)|
                    0 <= i < removed@.len() && #[trigger] self@.schedule.contains(node)
                        ==> !node_before(node, (all[#[trigger] removed@[i]@].end_time, removed@[i]@)),
            ensures
                forall|node: (u64, StickyKeyView)| #[trigger]
                    self@.schedule.contains(node) ==> node.0 > now,
            decreases self.expiry_queue.node_count(),
        {
            let is_due = match self.expiry_queue.peek() {
                Some(node) => node.end_time <= now,
                None => false,
            };
            if !is_due {
                break;
            }
            let ghost before = self@;
            match self.expiry_queue.pop() {
                None => {
                    break;
                },
                Some(node) => {
                    // Discard stale nodes: only evict if the entry still has this
                    // exact end_time (and is therefore expired, since
                    // end_time <= now).
                    let is_current = match self.entries.get(&node.key) {
                        Some(entry) => entry.end_time == node.end_time,
                        None => false,
                    };
                    proof {
                        assert forall|other: (u64, StickyKeyView)| #[trigger]
                            self@.schedule.contains(other) implies before.schedule.contains(other) by {}
                    }
                    if is_current {
                        let _ = self.entries.remove(&node.key);
                        let ghost earlier = removed@;
                        proof {
                            assert(before.entries.contains_key(node.key@));
                            assert forall|i: int| 0 <= i < earlier.len() implies node_before(
                                (all[#[trigger] earlier[i]@].end_time, earlier[i]@),
                                node@,
                            ) by {
                                lemma_node_order_total(
                                    (all[earlier[i]@].end_time, earlier[i]@),
                                    node@,
                                );
                            }
                        }
                        let ghost key = node.key@;
                        removed.push(node.key);
                        proof {
                            assert(removed@[earlier.len() as int]@ == key);
                            assert forall|k: StickyKeyView| #[trigger]
                                all.contains_key(k) && !self@.entries.contains_key(k) implies key_views(
                                removed@,
                            ).contains(k) by {
                                if k == key {
                                    assert(key_views(removed@)[earlier.len() as int] == k);
                                } else {
                                    assert(key_views(earlier).contains(k));
                                    let i = choose|i: int|
                                        0 <= i < earlier.len() && key_views(earlier)[i] == k;
                                    assert(key_views(removed@)[i] == k);
                                }
                            }
                        }
                    }
                    proof {
                        assert forall|k: StickyKeyView| #[trigger]
                            self@.entries.contains_key(k) implies all.contains_key(k) && all[k]
                            == self@.entries[k] by {
                            assert(before.entries.contains_key(k));
                        }
                        assert forall|i: int, other: (u64, StickyKeyView)|
                            0 <= i < removed@.len() && #[trigger] self@.schedule.contains(
                                other,
                            ) implies !node_before(
                            other,
                            (all[#[trigger] removed@[i]@].end_time, removed@[i]@),
                        ) by {
                            assert(before.schedule.contains(other));
                        }
                    }
                },
            }
        }
        proof {
            let live = live_entries(all, now);
            assert forall|key: StickyKeyView| self@.entries.contains_key(key) == #[trigger] live.contains_key(
                key,
            ) by {
                if self@.entries.contains_key(key) {
                    assert(self@.schedule.contains((self@.entries[key].end_time, key)));
                }
                if live.contains_key(key) && !self@.entries.contains_key(key) {
                    let i = choose|i: int|
                        0 <= i < key_views(removed@).len() && key_views(removed@)[i] == key;
                    assert(removed@[i]@ == key);
                }
            }
            assert(self@.entries =~= live);
            let kept = nodes.filter(|node: (u64, StickyKeyView)| node.0 > now);
            assert forall|node: (u64, StickyKeyView)| #[trigger]
                self@.schedule.count(node) == kept.count(node) by {
                if node.0 <= now {
                    assert(!self@.schedule.contains(node));
                }
            }
            assert(self@.schedule =~= kept);
            let keys = key_views(removed@);
            assert forall|i: int| 0 <= i < keys.len() implies all.contains_key(#[trigger] keys[i])
                && all[keys[i]].end_time <= now by {
                assert(keys[i] == removed@[i]@);
            }
            assert forall|key: StickyKeyView| #[trigger]
                all.contains_key(key) && all[key].end_time <= now implies keys.contains(key) by {
                if self@.entries.contains_key(key) {
                    assert(live.contains_key(key));
                }
            }
            assert forall|i: int, j: int| 0 <= i < j < keys.len() implies node_before(
                (all[#[trigger] keys[i]].end_time, keys[i]),
                (all[#[trigger] keys[j]].end_time, keys[j]),
            ) by {
                assert(keys[i] == removed@[i]@);
                assert(keys[j] == removed@[j]@);
            }
        }
        removed
    }

    /// Apply one change to the entries (no broadcasting), returning what
    /// changed.
    fn apply_one(
        &mut self,
        now: u64,
        key: StickyKey,
        value: T,
        event_id: String,
        end_time: u64,
        is_removal: bool,
    ) -> (change: Option<Change>)
        requires
            old(self).wf(),
        ensures
            final(self).wf(),
            final(self).updates_capacity() == old(self).updates_capacity(),
            final(self).clock() == old(self).clock(),
            ({
                let event = upsert_view((key, value, event_id, end_time, is_removal));
                &&& change_effect(change) == effect(old(self)@.entries, now, event)
                &&& change matches Some(change) ==> changed_key(change) == key@ && by_event(change)
                &&& final(self)@ == (EphemeralMapView {
                    entries: entries_after(old(self)@.entries, now, event),
                    schedule: schedule_after(old(self)@.schedule, old(self)@.entries, now, event),
                    ..old(self)@
                })
            }),
    {
        let (is_present, loses) = match self.entries.get(&key) {
            // Tie-break: the incoming event wins only if it is last-to-expire,
            // then by highest lexicographic event id. A removal is subject to
            // the same rule, so a stale one can't wipe a newer live sticky (e.g.
            // a superseded disconnect deleting a fresh connect).
            Some(current) => (true, !supersedes(end_time, &event_id, current)),
            None => (false, false),
        };
        if loses {
            return None;
        }
        if is_removal {
            if is_present {
                let _ = self.entries.remove(&key);
                return Some(Change::Removed(key, RemovalReason::Replaced));
            }
            // Nothing to remove.
            return None;
        }
        // Ignore events that are already expired on arrival.
        if end_time <= now {
            return None;
        }
        self.entries.insert(key.clone(), StickyEntry { value, event_id, end_time });
        self.expiry_queue.push(ExpiryNode { end_time, key: key.clone() });
        if is_present {
            Some(Change::Updated(key))
        } else {
            Some(Change::Added(key))
        }
    }

    /// Fold a single [`Change`] into the batched update.
    fn record(&self, update: &mut StickyEventsUpdate, change: Change)
        requires
            by_event(change),
        ensures
            final(update)@ == recorded(
                old(update)@,
                changed_key(change),
                change_effect(Some(change)),
            ),
    {
        let ghost target = recorded(update@, changed_key(change), change_effect(Some(change)));
        match change {
            Change::Added(key) => {
                update.added.push(key);
            },
            Change::Updated(key) => {
                update.updated.push(key);
            },
            Change::Removed(key, reason) => {
                update.removed.push((key, reason));
            },
        }
        proof {
            assert(update@ =~= target);
        }
    }

    /// Broadcast `update` (if non-empty) and wake the maintenance task when an
    /// entry was added or updated (which may bring the next expiry forward).
    fn publish(&mut self, update: StickyEventsUpdate)
        ensures
            final(self).wf() == old(self).wf(),
            final(self).updates_capacity() == old(self).updates_capacity(),
            final(self).clock() == old(self).clock(),
            final(self)@ == published(old(self)@, update@),
    {
        if update.is_empty() {
            return;
        }
        if update.added.len() > 0 || update.updated.len() > 0 {
            wake(&mut self.change);
        }
        send_update(&mut self.updates, update);
    }
}

} // verus!
