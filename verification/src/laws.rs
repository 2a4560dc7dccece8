//! What holds of a sticky-events map as a whole, over any of its operations.

use crate::key::RemovalReason;
use crate::map::MAX_STICKY_DURATION_MS;
use vstd::prelude::*;

verus! {

use crate::key::{StickyEntryView, StickyEventsUpdateView, StickyKeyView};
use crate::map::{earlier, end_after};
use crate::model::{
    advanced_by_all, all_scheduled, are_expired_keys, batch_applied, begun, changes, effect,
    entries_after, evicted, expiry_update, is_earliest, lemma_empty_update_means_no_change,
    lemma_net_update_names, lemma_untouched_entries_are_kept, live_entries, net_update, outranks,
    removed_by_hand, schedule_after, upserted, Effect, Entries, EphemeralMapView, Schedule,
    UpsertView,
};
use crate::text::{
    lemma_text_order_asymmetric, lemma_text_order_total, lemma_text_order_transitive,
};

/// A sticky event expires at most one hour after it was received, and a
/// `origin_server_ts` that lies in the future makes no difference.
pub proof fn law_future_timestamps_do_not_extend_stickiness(
    origin_server_ts: u64,
    received_ts: u64,
    duration_ms: u32,
)
    ensures
        end_after(earlier(origin_server_ts, received_ts), duration_ms as u64) <= received_ts
            + MAX_STICKY_DURATION_MS,
        origin_server_ts >= received_ts ==> end_after(
            earlier(origin_server_ts, received_ts),
            duration_ms as u64,
        ) == end_after(received_ts, duration_ms as u64),
{
}

/// An event is reported to change the map exactly if the entries differ
/// afterwards.
pub proof fn law_change_means_different_entries<T>(
    entries: Entries<T>,
    now: u64,
    event: UpsertView<T>,
)
    ensures
        effect(entries, now, event) is Ignored <==> entries_after(entries, now, event) == entries,
{
    let after = entries_after(entries, now, event);
    match effect(entries, now, event) {
        Effect::Ignored => {},
        Effect::Removed => {
            assert(!after.contains_key(event.key));
        },
        Effect::Added => {
            assert(after.contains_key(event.key));
        },
        Effect::Updated => {
            assert(after[event.key] == event.entry());
            if event.event_id == entries[event.key].event_id && event.end_time
                == entries[event.key].end_time {
                lemma_text_order_asymmetric(event.event_id, event.event_id);
            }
        },
    }
}

/// An event leaves the entries of other keys as they are.
pub proof fn law_other_keys_are_untouched<T>(
    entries: Entries<T>,
    now: u64,
    event: UpsertView<T>,
    key: StickyKeyView,
)
    requires
        key != event.key,
    ensures
        entries_after(entries, now, event).contains_key(key) <==> entries.contains_key(key),
        entries.contains_key(key) ==> entries_after(entries, now, event)[key] == entries[key],
{
}

/// A stale event, one that does not outrank the entry of its key, changes
/// nothing, and a stale removal least of all.
pub proof fn law_stale_events_are_ignored<T>(entries: Entries<T>, now: u64, event: UpsertView<T>)
    requires
        entries.contains_key(event.key),
        !outranks(event.end_time, event.event_id, entries[event.key]),
    ensures
        entries_after(entries, now, event) == entries,
        effect(entries, now, event) is Ignored,
{
}

/// A removal takes away the entry of its key exactly if it outranks it.
pub proof fn law_removal_takes_away_what_it_outranks<T>(
    entries: Entries<T>,
    now: u64,
    event: UpsertView<T>,
)
    requires
        event.is_removal,
        entries.contains_key(event.key),
    ensures
        entries_after(entries, now, event).contains_key(event.key) <==> !outranks(
            event.end_time,
            event.event_id,
            entries[event.key],
        ),
{
}

/// An event that was filed is what a read gives back for its key, until the
/// time at which it expires and no longer.
pub proof fn law_filed_event_is_read_back_until_it_expires<T>(
    map: EphemeralMapView<T>,
    now: u64,
    event: UpsertView<T>,
    later: u64,
)
    requires
        effect(map.entries, now, event) is Added || effect(map.entries, now, event) is Updated,
    ensures
        ({
            let live = live_entries(upserted(map, now, event).entries, later);
            &&& live.contains_key(event.key) <==> later < event.end_time
            &&& later < event.end_time ==> live[event.key] == event.entry()
        }),
{
}

/// An event that is live on arrival is filed if its key has no entry, or only an
/// expired one.
pub proof fn law_live_event_supersedes_expired_entry<T>(
    entries: Entries<T>,
    now: u64,
    event: UpsertView<T>,
)
    requires
        !event.is_removal,
        event.end_time > now,
        !live_entries(entries, now).contains_key(event.key),
    ensures
        entries_after(entries, now, event) == entries.insert(event.key, event.entry()),
{
}

/// The next expiry is never too late: no entry expires before it, and without
/// one there is no entry.
pub proof fn law_next_expiry_is_never_too_late<T>(
    entries: Entries<T>,
    schedule: Schedule,
    time: Option<u64>,
)
    requires
        all_scheduled(entries, schedule),
        is_earliest(time, schedule),
    ensures
        forall|key: StickyKeyView| #[trigger]
            entries.contains_key(key) ==> time is Some && time->0 <= entries[key].end_time,
{
    assert forall|key: StickyKeyView| #[trigger] entries.contains_key(key) implies time is Some
        && time->0 <= entries[key].end_time by {
        assert(schedule.contains((entries[key].end_time, key)));
    }
}

/// Eviction hides nothing that was live, leaves nothing that was expired, and
/// leaves nothing due: a second one at the same time has no key to evict.
pub proof fn law_eviction_is_complete<T>(
    map: EphemeralMapView<T>,
    now: u64,
    keys: Seq<StickyKeyView>,
    again: Seq<StickyKeyView>,
)
    requires
        are_expired_keys(keys, map.entries, now),
        are_expired_keys(again, evicted(map, now, keys).entries, now),
    ensures
        evicted(map, now, keys).entries == live_entries(map.entries, now),
        live_entries(evicted(map, now, keys).entries, now) == evicted(map, now, keys).entries,
        forall|node: (u64, StickyKeyView)| #[trigger]
            evicted(map, now, keys).schedule.contains(node) ==> node.0 > now,
        again.len() == 0,
{
    let after = evicted(map, now, keys);
    assert(live_entries(after.entries, now) =~= after.entries);
    if again.len() > 0 {
        assert(after.entries.contains_key(again[0]));
    }
}

/// The map once `events` have arrived one by one, at the given times.
pub open spec fn upserted_one_by_one<T>(
    map: EphemeralMapView<T>,
    times: Seq<u64>,
    events: Seq<UpsertView<T>>,
) -> EphemeralMapView<T>
    decreases events.len(),
{
    if events.len() == 0 {
        map
    } else {
        upserted(
            upserted_one_by_one(map, times.drop_last(), events.drop_last()),
            times.last(),
            events.last(),
        )
    }
}

/// What the event in place `i` does, once those before it have arrived one by
/// one.
pub open spec fn effect_at<T>(
    map: EphemeralMapView<T>,
    times: Seq<u64>,
    events: Seq<UpsertView<T>>,
    i: int,
) -> Effect {
    effect(
        upserted_one_by_one(map, times.take(i), events.take(i)).entries,
        times[i],
        events[i],
    )
}

/// A removal among `events` takes away an entry for `key`.
pub open spec fn takes_away<T>(
    map: EphemeralMapView<T>,
    times: Seq<u64>,
    events: Seq<UpsertView<T>>,
    key: StickyKeyView,
) -> bool {
    exists|i: int|
        0 <= i < events.len() && events[i].key == key && #[trigger] effect_at(
            map,
            times,
            events,
            i,
        ) is Removed
}

/// As a batch or one by one, events leave the same entries and the same schedule.
proof fn lemma_one_by_one<T>(map: EphemeralMapView<T>, times: Seq<u64>, events: Seq<UpsertView<T>>)
    requires
        times.len() == events.len(),
    ensures
        ({
            let reached = advanced_by_all(begun(map), times, events);
            let singly = upserted_one_by_one(map, times, events);
            &&& singly.entries == reached.entries
            &&& singly.schedule == reached.schedule
        }),
    decreases events.len(),
{
    if events.len() > 0 {
        lemma_one_by_one(map, times.drop_last(), events.drop_last());
    }
}

/// What an event does depends on those before it, not on those after.
pub proof fn lemma_effect_at<T>(map: EphemeralMapView<T>, times: Seq<u64>, events: Seq<UpsertView<T>>)
    requires
        times.len() == events.len(),
        events.len() > 0,
    ensures
        forall|i: int|
            0 <= i < events.len() - 1 ==> #[trigger] effect_at(map, times, events, i) == effect_at(
                map,
                times.drop_last(),
                events.drop_last(),
                i,
            ),
        effect_at(map, times, events, events.len() - 1) == effect(
            advanced_by_all(begun(map), times.drop_last(), events.drop_last()).entries,
            times.last(),
            events.last(),
        ),
{
    let n = events.len() - 1;
    assert(times.take(n) =~= times.drop_last());
    assert(events.take(n) =~= events.drop_last());
    lemma_one_by_one(map, times.drop_last(), events.drop_last());
    assert forall|i: int| 0 <= i < events.len() - 1 implies #[trigger] effect_at(
        map,
        times,
        events,
        i,
    ) == effect_at(map, times.drop_last(), events.drop_last(), i) by {
        assert(times.take(i) =~= times.drop_last().take(i));
        assert(events.take(i) =~= events.drop_last().take(i));
    }
}

/// The keys that are touched are those of the events that have an effect.
pub proof fn lemma_touched_keys<T>(
    map: EphemeralMapView<T>,
    times: Seq<u64>,
    events: Seq<UpsertView<T>>,
    key: StickyKeyView,
)
    requires
        times.len() == events.len(),
    ensures
        advanced_by_all(begun(map), times, events).touched.contains(key) <==> exists|i: int|
            0 <= i < events.len() && events[i].key == key && !(#[trigger] effect_at(
                map,
                times,
                events,
                i,
            ) is Ignored),
    decreases events.len(),
{
    if events.len() > 0 {
        let (init_times, init_events) = (times.drop_last(), events.drop_last());
        let n = events.len() - 1;
        let init = advanced_by_all(begun(map), init_times, init_events);
        let reached = advanced_by_all(begun(map), times, events);
        lemma_touched_keys(map, init_times, init_events, key);
        lemma_effect_at(map, times, events);
        if init.touched.contains(key) {
            let k = choose|k: int| 0 <= k < init.touched.len() && init.touched[k] == key;
            assert(reached.touched[k] == key);
            let i = choose|i: int|
                0 <= i < init_events.len() && init_events[i].key == key && !(#[trigger] effect_at(
                    map,
                    init_times,
                    init_events,
                    i,
                ) is Ignored);
            assert(!(effect_at(map, times, events, i) is Ignored));
        } else if events[n].key == key && !(effect_at(map, times, events, n) is Ignored) {
            assert(reached.touched.last() == key);
        } else {
            if reached.touched.contains(key) {
                let k = choose|k: int| 0 <= k < reached.touched.len() && reached.touched[k] == key;
                assert(k < init.touched.len());
                assert(init.touched[k] == key);
            }
            assert forall|i: int| 0 <= i < events.len() && events[i].key == key implies #[trigger] effect_at(
                map,
                times,
                events,
                i,
            ) is Ignored by {
                if i < n {
                    assert(init_events[i] == events[i]);
                    assert(effect_at(map, init_times, init_events, i) is Ignored);
                }
            }
        }
    }
}

/// What no removal takes away does not get a lower rank.
proof fn lemma_rank_grows<T>(
    map: EphemeralMapView<T>,
    times: Seq<u64>,
    events: Seq<UpsertView<T>>,
    key: StickyKeyView,
)
    requires
        times.len() == events.len(),
        !takes_away(map, times, events, key),
    ensures
        ({
            let reached = advanced_by_all(begun(map), times, events);
            reached.touched.contains(key) ==> {
                &&& reached.entries.contains_key(key)
                &&& map.entries.contains_key(key) ==> outranks(
                    reached.entries[key].end_time,
                    reached.entries[key].event_id,
                    map.entries[key],
                )
            }
        }),
    decreases events.len(),
{
    if events.len() > 0 {
        let (init_times, init_events) = (times.drop_last(), events.drop_last());
        let n = events.len() - 1;
        let init = advanced_by_all(begun(map), init_times, init_events);
        let reached = advanced_by_all(begun(map), times, events);
        lemma_nothing_taken_away_before(map, times, events, key);
        lemma_rank_grows(map, init_times, init_events, key);
        lemma_untouched_entries_are_kept(map, init_times, init_events);
        lemma_effect_at(map, times, events);
        if events[n].key == key {
            assert(!(effect_at(map, times, events, n) is Removed));
            if reached.entries != init.entries && init.touched.contains(key)
                && map.entries.contains_key(key) {
                lemma_outranks_transitive(
                    reached.entries[key],
                    init.entries[key],
                    map.entries[key],
                );
            }
        }
        if reached.touched.contains(key) && !init.touched.contains(key) {
            let k = choose|k: int| 0 <= k < reached.touched.len() && reached.touched[k] == key;
            if k < init.touched.len() {
                assert(init.touched[k] == key);
            }
            assert(events[n].key == key);
            assert(init.entries.contains_key(key) <==> map.entries.contains_key(key));
        }
    }
}

/// What a batch does not take away, it has not taken away before its last event.
proof fn lemma_nothing_taken_away_before<T>(
    map: EphemeralMapView<T>,
    times: Seq<u64>,
    events: Seq<UpsertView<T>>,
    key: StickyKeyView,
)
    requires
        times.len() == events.len(),
        events.len() > 0,
        !takes_away(map, times, events, key),
    ensures
        !takes_away(map, times.drop_last(), events.drop_last(), key),
{
    let (init_times, init_events) = (times.drop_last(), events.drop_last());
    lemma_effect_at(map, times, events);
    if takes_away(map, init_times, init_events, key) {
        let i = choose|i: int|
            0 <= i < init_events.len() && init_events[i].key == key && #[trigger] effect_at(
                map,
                init_times,
                init_events,
                i,
            ) is Removed;
        assert(events[i].key == key && effect_at(map, times, events, i) is Removed);
    }
}

/// The event in place `i` files an entry, and none after it changes that.
pub open spec fn files_for_good<T>(
    map: EphemeralMapView<T>,
    times: Seq<u64>,
    events: Seq<UpsertView<T>>,
    i: int,
) -> bool {
    &&& 0 <= i < events.len()
    &&& effect_at(map, times, events, i) is Added || effect_at(map, times, events, i) is Updated
    &&& forall|j: int|
        i < j < events.len() && events[j].key == events[i].key ==> #[trigger] effect_at(
            map,
            times,
            events,
            j,
        ) is Ignored
}

/// An entry that a batch has changed is the one that an event of it has filed for
/// good.
proof fn lemma_changed_entries_are_filed<T>(
    map: EphemeralMapView<T>,
    times: Seq<u64>,
    events: Seq<UpsertView<T>>,
    key: StickyKeyView,
)
    requires
        times.len() == events.len(),
    ensures
        ({
            let reached = advanced_by_all(begun(map), times, events);
            &&& reached.touched.contains(key) && reached.entries.contains_key(key) <==> exists|
                i: int,
            | #[trigger]
                files_for_good(map, times, events, i) && events[i].key == key
            &&& forall|i: int| #[trigger]
                files_for_good(map, times, events, i) && events[i].key == key
                    ==> reached.entries[key] == events[i].entry()
        }),
    decreases events.len(),
{
    if events.len() > 0 {
        let (init_times, init_events) = (times.drop_last(), events.drop_last());
        let n = events.len() - 1;
        let init = advanced_by_all(begun(map), init_times, init_events);
        let reached = advanced_by_all(begun(map), times, events);
        lemma_changed_entries_are_filed(map, init_times, init_events, key);
        lemma_effect_at(map, times, events);
        let last_effect = effect_at(map, times, events, n);
        let is_kept = events[n].key != key || last_effect is Ignored;
        assert forall|i: int| #[trigger]
            files_for_good(map, times, events, i) && events[i].key == key && i < n implies {
            &&& is_kept
            &&& files_for_good(map, init_times, init_events, i)
        } by {
            assert(events[n].key == key ==> effect_at(map, times, events, n) is Ignored);
            assert forall|j: int|
                i < j < init_events.len() && init_events[j].key == init_events[i].key implies #[trigger] effect_at(
                map,
                init_times,
                init_events,
                j,
            ) is Ignored by {
                assert(effect_at(map, times, events, j) is Ignored);
            }
            assert(effect_at(map, times, events, i) == effect_at(map, init_times, init_events, i));
        }
        if is_kept {
            assert(reached.touched.contains(key) <==> init.touched.contains(key)) by {
                if init.touched.contains(key) {
                    let k = choose|k: int| 0 <= k < init.touched.len() && init.touched[k] == key;
                    assert(reached.touched[k] == key);
                }
                if reached.touched.contains(key) {
                    let k = choose|k: int|
                        0 <= k < reached.touched.len() && reached.touched[k] == key;
                    assert(k < init.touched.len() ==> init.touched[k] == key);
                }
            }
            assert forall|i: int| #[trigger]
                files_for_good(map, init_times, init_events, i) && init_events[i].key
                    == key implies files_for_good(map, times, events, i) by {
                assert(effect_at(map, times, events, i) == effect_at(
                    map,
                    init_times,
                    init_events,
                    i,
                ));
                assert forall|j: int|
                    i < j < events.len() && events[j].key == events[i].key implies #[trigger] effect_at(
                    map,
                    times,
                    events,
                    j,
                ) is Ignored by {
                    if j < n {
                        assert(effect_at(map, init_times, init_events, j) is Ignored);
                    }
                }
            }
            if exists|i: int| #[trigger]
                files_for_good(map, init_times, init_events, i) && init_events[i].key == key {
                let i = choose|i: int| #[trigger]
                    files_for_good(map, init_times, init_events, i) && init_events[i].key == key;
                assert(files_for_good(map, times, events, i) && events[i].key == key);
            }
        } else if !(last_effect is Removed) {
            assert(files_for_good(map, times, events, n));
            if !init.touched.contains(key) {
                assert(reached.touched.last() == key);
                assert(reached.touched.contains(key));
            }
        }
    }
}

/// A batch reports its net effect, in one update: the keys that have an entry now
/// and had none before, those that had an entry and have one that an event of the
/// batch has filed, and those that have none any more, each once. It sends nothing
/// where there is none of these.
pub proof fn law_update_is_the_net_effect<T>(
    map: EphemeralMapView<T>,
    times: Seq<u64>,
    events: Seq<UpsertView<T>>,
)
    requires
        times.len() == events.len(),
    ensures
        ({
            let before = map.entries;
            let after = batch_applied(map, times, events).entries;
            let reached = advanced_by_all(begun(map), times, events);
            let update = net_update(before, after, reached.touched);
            &&& forall|key: StickyKeyView| #[trigger]
                update.added.contains(key) <==> !before.contains_key(key) && after.contains_key(key)
            &&& forall|key: StickyKeyView| #[trigger]
                update.updated.contains(key) <==> before.contains_key(key) && exists|i: int| #[trigger]
                    files_for_good(map, times, events, i) && events[i].key == key
            &&& forall|key: StickyKeyView, reason: RemovalReason| #[trigger]
                update.removed.contains((key, reason)) <==> {
                    &&& before.contains_key(key)
                    &&& !after.contains_key(key)
                    &&& reason == RemovalReason::Replaced
                }
            &&& update.added.no_duplicates()
            &&& update.updated.no_duplicates()
            &&& update.removed.no_duplicates()
            &&& batch_applied(map, times, events).published == (if changes(before, reached) {
                map.published.push(update)
            } else {
                map.published
            })
        }),
{
    let before = map.entries;
    let reached = advanced_by_all(begun(map), times, events);
    let (after, touched) = (reached.entries, reached.touched);
    lemma_untouched_entries_are_kept(map, times, events);
    lemma_net_update_names(before, after, touched);
    lemma_empty_update_means_no_change(map, times, events);
    let update = net_update(before, after, touched);
    assert forall|key: StickyKeyView| #[trigger] update.added.contains(key) <==> !before.contains_key(
        key,
    ) && after.contains_key(key) by {
        if !touched.contains(key) {
            assert(after.contains_key(key) <==> before.contains_key(key));
        }
    }
    assert forall|key: StickyKeyView| #[trigger]
        update.updated.contains(key) <==> before.contains_key(key) && exists|i: int| #[trigger]
            files_for_good(map, times, events, i) && events[i].key == key by {
        lemma_changed_entries_are_filed(map, times, events, key);
    }
    assert forall|key: StickyKeyView, reason: RemovalReason| #[trigger]
        update.removed.contains((key, reason)) <==> {
            &&& before.contains_key(key)
            &&& !after.contains_key(key)
            &&& reason == RemovalReason::Replaced
        } by {
        if !touched.contains(key) {
            assert(after.contains_key(key) <==> before.contains_key(key));
        }
    }
}

/// A batch that is not reported to change the map leaves the entries as they were.
/// One that is leaves different entries, unless a removal takes an entry away: that
/// one may be filed anew as it was.
pub proof fn law_unreported_batch_leaves_the_entries<T>(
    map: EphemeralMapView<T>,
    times: Seq<u64>,
    events: Seq<UpsertView<T>>,
)
    requires
        times.len() == events.len(),
    ensures
        ({
            let after = batch_applied(map, times, events).entries;
            let changed = changes(map.entries, advanced_by_all(begun(map), times, events));
            &&& !changed ==> after == map.entries
            &&& changed && (forall|key: StickyKeyView| !#[trigger]
                takes_away(map, times, events, key)) ==> after != map.entries
        }),
{
    let reached = advanced_by_all(begun(map), times, events);
    lemma_empty_update_means_no_change(map, times, events);
    if changes(map.entries, reached) && (forall|key: StickyKeyView| !#[trigger]
        takes_away(map, times, events, key)) {
        let key = choose|key: StickyKeyView| #[trigger]
            reached.touched.contains(key) && (map.entries.contains_key(key)
                || reached.entries.contains_key(key));
        assert(!takes_away(map, times, events, key));
        lemma_rank_grows(map, times, events, key);
        assert(reached.entries.contains_key(key));
        if map.entries.contains_key(key) {
            lemma_outranks_asymmetric(reached.entries[key], map.entries[key]);
        }
    }
}

/// A batch leaves the entries and the schedule that its events leave one by one.
///
/// It is reported to change the map exactly if one of the events alone is, other
/// than for a key that has no entry before the batch and none after it: there,
/// what was added was taken away again.
pub proof fn law_batch_leaves_what_single_events_leave<T>(
    map: EphemeralMapView<T>,
    times: Seq<u64>,
    events: Seq<UpsertView<T>>,
)
    requires
        times.len() == events.len(),
    ensures
        ({
            let batch = batch_applied(map, times, events);
            let singly = upserted_one_by_one(map, times, events);
            &&& batch.entries == singly.entries
            &&& batch.schedule == singly.schedule
            &&& changes(map.entries, advanced_by_all(begun(map), times, events)) <==> exists|i: int|
                {
                    &&& 0 <= i < events.len()
                    &&& !(#[trigger] effect_at(map, times, events, i) is Ignored)
                    &&& map.entries.contains_key(events[i].key) || batch.entries.contains_key(
                        events[i].key,
                    )
                }
        }),
{
    let batch = batch_applied(map, times, events);
    let reached = advanced_by_all(begun(map), times, events);
    lemma_one_by_one(map, times, events);
    if changes(map.entries, reached) {
        let key = choose|key: StickyKeyView| #[trigger]
            reached.touched.contains(key) && (map.entries.contains_key(key)
                || reached.entries.contains_key(key));
        lemma_touched_keys(map, times, events, key);
    }
    assert forall|i: int|
        {
            &&& 0 <= i < events.len()
            &&& !(#[trigger] effect_at(map, times, events, i) is Ignored)
            &&& map.entries.contains_key(events[i].key) || batch.entries.contains_key(events[i].key)
        } implies changes(map.entries, reached) by {
        lemma_touched_keys(map, times, events, events[i].key);
        assert(reached.touched.contains(events[i].key));
    }
}

/// The times of `schedule` are all among those of `accepted`.
pub open spec fn scheduled_within(schedule: Schedule, accepted: Set<u64>) -> bool {
    forall|node: (u64, StickyKeyView)| #[trigger]
        schedule.contains(node) ==> accepted.contains(node.0)
}

/// `event` is accepted when it arrives at the time `now`: it is filed.
pub open spec fn is_accepted<T>(entries: Entries<T>, now: u64, event: UpsertView<T>) -> bool {
    effect(entries, now, event) is Added || effect(entries, now, event) is Updated
}

/// What can be done to a map that changes it.
pub enum Operation<T> {
    /// An event arrives on its own at the given time.
    Upsert(u64, UpsertView<T>),
    /// Events arrive as one batch, at the given times.
    Batch(Seq<u64>, Seq<UpsertView<T>>),
    /// The entry for a key is removed by hand.
    Remove(StickyKeyView),
    /// What has expired at the given time is evicted; the keys are reported.
    Evict(u64, Seq<StickyKeyView>),
}

/// Every event of a batch has the time at which it arrives.
pub open spec fn is_complete<T>(operation: Operation<T>) -> bool {
    operation matches Operation::Batch(times, events) ==> times.len() == events.len()
}

/// The map once something was done to it.
pub open spec fn performed<T>(
    map: EphemeralMapView<T>,
    operation: Operation<T>,
) -> EphemeralMapView<T> {
    match operation {
        Operation::Upsert(now, event) => upserted(map, now, event),
        Operation::Batch(times, events) => batch_applied(map, times, events),
        Operation::Remove(key) => removed_by_hand(map, key),
        Operation::Evict(now, keys) => evicted(map, now, keys),
    }
}

/// The end times of the events that the map accepts by what is done to it.
pub open spec fn accepted_times<T>(map: EphemeralMapView<T>, operation: Operation<T>) -> Set<u64> {
    match operation {
        Operation::Upsert(now, event) => Set::new(
            |time: u64| is_accepted(map.entries, now, event) && event.end_time == time,
        ),
        Operation::Batch(times, events) => Set::new(
            |time: u64|
                exists|i: int|
                    {
                        &&& 0 <= i < events.len()
                        &&& {
                            ||| (#[trigger] effect_at(map, times, events, i)) is Added
                            ||| effect_at(map, times, events, i) is Updated
                        }
                        &&& events[i].end_time == time
                    },
        ),
        Operation::Remove(_) => Set::empty(),
        Operation::Evict(_, _) => Set::empty(),
    }
}

/// A batch schedules the end times of the events that it accepts, beside those
/// that were scheduled before.
proof fn lemma_batch_schedules_accepted_times<T>(
    map: EphemeralMapView<T>,
    times: Seq<u64>,
    events: Seq<UpsertView<T>>,
    node: (u64, StickyKeyView),
)
    requires
        times.len() == events.len(),
        advanced_by_all(begun(map), times, events).schedule.contains(node),
    ensures
        map.schedule.contains(node) || accepted_times(
            map,
            Operation::Batch(times, events),
        ).contains(node.0),
    decreases events.len(),
{
    if events.len() > 0 {
        let (init_times, init_events) = (times.drop_last(), events.drop_last());
        let n = events.len() - 1;
        let init = advanced_by_all(begun(map), init_times, init_events);
        lemma_effect_at(map, times, events);
        if init.schedule.contains(node) {
            lemma_batch_schedules_accepted_times(map, init_times, init_events, node);
            if !map.schedule.contains(node) {
                let i = choose|i: int|
                    {
                        &&& 0 <= i < init_events.len()
                        &&& {
                            ||| (#[trigger] effect_at(map, init_times, init_events, i)) is Added
                            ||| effect_at(map, init_times, init_events, i) is Updated
                        }
                        &&& init_events[i].end_time == node.0
                    };
                assert(effect_at(map, times, events, i) == effect_at(
                    map,
                    init_times,
                    init_events,
                    i,
                ));
            }
        } else {
            assert(events[n].end_time == node.0);
            let what = effect_at(map, times, events, n);
            assert(what is Added || what is Updated);
        }
    }
}

/// Whatever is done to a map, each time that is scheduled afterwards was scheduled
/// before or is the end time of an event that the map has just accepted; and if
/// every entry was scheduled for the time at which it expires, every entry is.
pub proof fn law_scheduled_times_were_accepted<T>(
    map: EphemeralMapView<T>,
    operation: Operation<T>,
    accepted: Set<u64>,
)
    requires
        is_complete(operation),
        scheduled_within(map.schedule, accepted),
    ensures
        scheduled_within(
            performed(map, operation).schedule,
            accepted.union(accepted_times(map, operation)),
        ),
        all_scheduled(map.entries, map.schedule) ==> all_scheduled(
            performed(map, operation).entries,
            performed(map, operation).schedule,
        ),
{
    let after = performed(map, operation);
    assert forall|node: (u64, StickyKeyView)| #[trigger] after.schedule.contains(node) implies accepted.union(
        accepted_times(map, operation),
    ).contains(node.0) by {
        match operation {
            Operation::Upsert(now, event) => {
                assert(map.schedule.contains(node) || node == (event.end_time, event.key));
            },
            Operation::Batch(times, events) => {
                lemma_batch_schedules_accepted_times(map, times, events, node);
            },
            Operation::Remove(_) => {
                assert(map.schedule.contains(node));
            },
            Operation::Evict(_, _) => {
                assert(map.schedule.contains(node));
            },
        }
    }
    if all_scheduled(map.entries, map.schedule) {
        match operation {
            Operation::Upsert(now, event) => {
                lemma_event_keeps_all_scheduled(map.entries, map.schedule, now, event);
            },
            Operation::Batch(times, events) => {
                lemma_batch_keeps_all_scheduled(map, times, events);
            },
            Operation::Remove(_) => {},
            Operation::Evict(_, _) => {},
        }
    }
}

proof fn lemma_event_keeps_all_scheduled<T>(
    entries: Entries<T>,
    schedule: Schedule,
    now: u64,
    event: UpsertView<T>,
)
    requires
        all_scheduled(entries, schedule),
    ensures
        all_scheduled(
            entries_after(entries, now, event),
            schedule_after(schedule, entries, now, event),
        ),
{
    let after = entries_after(entries, now, event);
    let later = schedule_after(schedule, entries, now, event);
    assert forall|key: StickyKeyView| #[trigger] after.contains_key(key) implies later.contains(
        (after[key].end_time, key),
    ) by {
        if entries.contains_key(key) {
            assert(schedule.contains((entries[key].end_time, key)));
        }
    }
}

proof fn lemma_batch_keeps_all_scheduled<T>(
    map: EphemeralMapView<T>,
    times: Seq<u64>,
    events: Seq<UpsertView<T>>,
)
    requires
        all_scheduled(map.entries, map.schedule),
    ensures
        ({
            let reached = advanced_by_all(begun(map), times, events);
            all_scheduled(reached.entries, reached.schedule)
        }),
    decreases events.len(),
{
    if events.len() > 0 {
        let init = advanced_by_all(begun(map), times.drop_last(), events.drop_last());
        lemma_batch_keeps_all_scheduled(map, times.drop_last(), events.drop_last());
        lemma_event_keeps_all_scheduled(init.entries, init.schedule, times.last(), events.last());
    }
}

/// A new map, once all of this was done to it.
pub open spec fn with_history<T>(history: Seq<Operation<T>>) -> EphemeralMapView<T>
    decreases history.len(),
{
    if history.len() == 0 {
        EphemeralMapView::empty()
    } else {
        performed(with_history(history.drop_last()), history.last())
    }
}

/// The end times of all the events that a map with this history has accepted.
pub open spec fn times_ever_accepted<T>(history: Seq<Operation<T>>) -> Set<u64>
    decreases history.len(),
{
    if history.len() == 0 {
        Set::empty()
    } else {
        times_ever_accepted(history.drop_last()).union(
            accepted_times(with_history(history.drop_last()), history.last()),
        )
    }
}

proof fn lemma_history_schedules_accepted_times<T>(history: Seq<Operation<T>>)
    requires
        forall|i: int| 0 <= i < history.len() ==> is_complete(#[trigger] history[i]),
    ensures
        scheduled_within(with_history(history).schedule, times_ever_accepted(history)),
        all_scheduled(with_history(history).entries, with_history(history).schedule),
    decreases history.len(),
{
    if history.len() > 0 {
        let init = history.drop_last();
        assert forall|i: int| 0 <= i < init.len() implies is_complete(#[trigger] init[i]) by {
            assert(init[i] == history[i]);
        }
        lemma_history_schedules_accepted_times(init);
        assert(history.last() == history[history.len() - 1]);
        law_scheduled_times_were_accepted(
            with_history(init),
            history.last(),
            times_ever_accepted(init),
        );
    }
}

/// Whatever was done to a map since it was made, and however the times went, its
/// next expiry is never too late: no entry expires before it, and without one there
/// is no entry. It was the end time of some event that this map accepted.
pub proof fn law_next_expiry_over_any_history<T>(history: Seq<Operation<T>>, time: Option<u64>)
    requires
        forall|i: int| 0 <= i < history.len() ==> is_complete(#[trigger] history[i]),
        is_earliest(time, with_history(history).schedule),
    ensures
        forall|key: StickyKeyView| #[trigger]
            with_history(history).entries.contains_key(key) ==> time is Some && time->0
                <= with_history(history).entries[key].end_time,
        time matches Some(time) ==> times_ever_accepted(history).contains(time),
{
    let map = with_history(history);
    lemma_history_schedules_accepted_times(history);
    law_next_expiry_is_never_too_late(map.entries, map.schedule, time);
}

/// A batch, and an eviction pass, send one update at most, after those before
/// it, so that a subscriber sees their effect at once.
pub proof fn law_one_update_per_batch<T>(
    map: EphemeralMapView<T>,
    times: Seq<u64>,
    events: Seq<UpsertView<T>>,
    now: u64,
    keys: Seq<StickyKeyView>,
)
    ensures
        batch_applied(map, times, events).published == map.published || (exists|
            update: StickyEventsUpdateView,
        |
            batch_applied(map, times, events).published == #[trigger] map.published.push(update)),
        evicted(map, now, keys).published == map.published || evicted(map, now, keys).published
            == map.published.push(expiry_update(keys)),
{
}

/// `event` is one of `events`, is no removal, and is not expired when it arrives.
pub open spec fn arrives_live<T>(
    times: Seq<u64>,
    events: Seq<UpsertView<T>>,
    event: UpsertView<T>,
) -> bool {
    &&& !event.is_removal
    &&& exists|i: int|
        0 <= i < events.len() && #[trigger] events[i] == event && times[i] < event.end_time
}

/// Two entries hold the same event: event ids and expiry times are the same.
pub open spec fn same_event<T>(a: StickyEntryView<T>, b: StickyEntryView<T>) -> bool {
    a.end_time == b.end_time && a.event_id == b.event_id
}

/// `winner` is the entry for `key` after `events`: the one it had before, unless
/// an event outranks it, or else the event that no other one outranks.
pub open spec fn is_winner<T>(
    winner: StickyEntryView<T>,
    entries: Entries<T>,
    times: Seq<u64>,
    events: Seq<UpsertView<T>>,
    key: StickyKeyView,
) -> bool {
    &&& {
        ||| entries.contains_key(key) && winner == entries[key]
        ||| exists|event: UpsertView<T>| #[trigger]
            arrives_live(times, events, event) && event.key == key && winner == event.entry()
    }
    &&& entries.contains_key(key) ==> winner == entries[key] || outranks(
        winner.end_time,
        winner.event_id,
        entries[key],
    )
    &&& forall|event: UpsertView<T>| #[trigger]
        arrives_live(times, events, event) && event.key == key ==> !outranks(
            event.end_time,
            event.event_id,
            winner,
        )
}

proof fn lemma_outranks_transitive<T>(
    a: StickyEntryView<T>,
    b: StickyEntryView<T>,
    c: StickyEntryView<T>,
)
    requires
        outranks(a.end_time, a.event_id, b),
        outranks(b.end_time, b.event_id, c),
    ensures
        outranks(a.end_time, a.event_id, c),
{
    if a.end_time == b.end_time && b.end_time == c.end_time {
        lemma_text_order_transitive(c.event_id, b.event_id, a.event_id);
    }
}

proof fn lemma_outranks_asymmetric<T>(a: StickyEntryView<T>, b: StickyEntryView<T>)
    requires
        outranks(a.end_time, a.event_id, b),
    ensures
        !outranks(b.end_time, b.event_id, a),
        !same_event(a, b),
{
    if a.end_time == b.end_time {
        lemma_text_order_asymmetric(b.event_id, a.event_id);
    }
}

proof fn lemma_outranks_total<T>(a: StickyEntryView<T>, b: StickyEntryView<T>)
    ensures
        same_event(a, b) || outranks(a.end_time, a.event_id, b) || outranks(
            b.end_time,
            b.event_id,
            a,
        ),
{
    lemma_text_order_total(a.event_id, b.event_id);
}

/// Last-to-expire wins, then highest event id: after a batch in which no removal
/// takes away an entry for a key, the entry for that key is the winner among the
/// events that arrived live and the entry before, and there is one if there is any
/// of these.
pub proof fn law_last_to_expire_wins<T>(
    map: EphemeralMapView<T>,
    times: Seq<u64>,
    events: Seq<UpsertView<T>>,
    key: StickyKeyView,
)
    requires
        times.len() == events.len(),
        !takes_away(map, times, events, key),
    ensures
        ({
            let after = batch_applied(map, times, events).entries;
            &&& after.contains_key(key) <==> map.entries.contains_key(key) || exists|
                event: UpsertView<T>,
            | #[trigger]
                arrives_live(times, events, event) && event.key == key
            &&& after.contains_key(key) ==> is_winner(after[key], map.entries, times, events, key)
        }),
    decreases events.len(),
{
    if events.len() > 0 {
        let start = map.entries;
        let after = batch_applied(map, times, events).entries;
        let (init_times, init_events) = (times.drop_last(), events.drop_last());
        let (now, last) = (times.last(), events.last());
        let init = advanced_by_all(begun(map), init_times, init_events);
        lemma_nothing_taken_away_before(map, times, events, key);
        lemma_effect_at(map, times, events);
        if key == last.key {
            assert(!(effect_at(map, times, events, events.len() - 1) is Removed));
        }
        law_last_to_expire_wins(map, init_times, init_events, key);
        assert forall|event: UpsertView<T>| #[trigger] arrives_live(times, events, event) <==> {
            ||| arrives_live(init_times, init_events, event)
            ||| event == last && now < last.end_time && !last.is_removal
        } by {
            if arrives_live(times, events, event) {
                let i = choose|i: int|
                    0 <= i < events.len() && #[trigger] events[i] == event && times[i]
                        < event.end_time;
                if i < init_events.len() {
                    assert(init_events[i] == event);
                }
            }
            if arrives_live(init_times, init_events, event) {
                let i = choose|i: int|
                    0 <= i < init_events.len() && #[trigger] init_events[i] == event
                        && init_times[i] < event.end_time;
                assert(events[i] == event);
            }
            if event == last && now < last.end_time {
                assert(events[events.len() - 1] == event);
            }
        }
        if key == last.key && now < last.end_time && !last.is_removal {
            assert(arrives_live(times, events, last));
            if init.entries.contains_key(key) {
                let before = init.entries[key];
                if outranks(last.end_time, last.event_id, before) {
                    assert(after[key] == last.entry());
                    if start.contains_key(key) && before != start[key] {
                        lemma_outranks_transitive(last.entry(), before, start[key]);
                    }
                    assert forall|event: UpsertView<T>| #[trigger]
                        arrives_live(times, events, event) && event.key == key implies !outranks(
                        event.end_time,
                        event.event_id,
                        after[key],
                    ) by {
                        if outranks(event.end_time, event.event_id, last.entry()) {
                            if event == last {
                                lemma_outranks_asymmetric(last.entry(), last.entry());
                            } else {
                                lemma_outranks_transitive(event.entry(), last.entry(), before);
                            }
                        }
                    }
                } else {
                    assert(after == init.entries);
                }
            } else {
                assert(after[key] == last.entry());
                assert forall|event: UpsertView<T>| #[trigger]
                    arrives_live(times, events, event) && event.key == key implies !outranks(
                    event.end_time,
                    event.event_id,
                    after[key],
                ) by {
                    if event == last && outranks(event.end_time, event.event_id, last.entry()) {
                        lemma_outranks_asymmetric(last.entry(), last.entry());
                    }
                }
            }
        } else {
            assert(after.contains_key(key) <==> init.entries.contains_key(key));
            assert(after.contains_key(key) ==> after[key] == init.entries[key]);
        }
        if after.contains_key(key) && after[key] == init.entries[key] && init.entries.contains_key(
            key,
        ) {
            if !(start.contains_key(key) && after[key] == start[key]) {
                let event = choose|event: UpsertView<T>| #[trigger]
                    arrives_live(init_times, init_events, event) && event.key == key && after[key]
                        == event.entry();
                assert(arrives_live(times, events, event));
            }
        }
    }
}

/// Last-to-expire wins, then highest event id, whatever the order of arrival:
/// two batches that bring the same events, in any order and with any repetitions,
/// leave the same entries, unless a removal takes away an entry in one of them. It
/// takes that no two of the events claim the same key, expiry time and event id
/// with different values.
pub proof fn law_order_of_arrival_does_not_matter<T>(
    map: EphemeralMapView<T>,
    times: Seq<u64>,
    events: Seq<UpsertView<T>>,
    other_times: Seq<u64>,
    other_events: Seq<UpsertView<T>>,
)
    requires
        times.len() == events.len(),
        other_times.len() == other_events.len(),
        forall|key: StickyKeyView| !#[trigger] takes_away(map, times, events, key),
        forall|key: StickyKeyView| !#[trigger] takes_away(map, other_times, other_events, key),
        forall|event: UpsertView<T>| #[trigger]
            arrives_live(times, events, event) <==> arrives_live(other_times, other_events, event),
        forall|a: UpsertView<T>, b: UpsertView<T>|
            #![trigger arrives_live(times, events, a), arrives_live(times, events, b)]
            arrives_live(times, events, a) && arrives_live(times, events, b) && a.key == b.key
                && same_event(a.entry(), b.entry()) ==> a.value == b.value,
    ensures
        batch_applied(map, times, events).entries == batch_applied(
            map,
            other_times,
            other_events,
        ).entries,
{
    let one = advanced_by_all(begun(map), times, events).entries;
    let two = advanced_by_all(begun(map), other_times, other_events).entries;
    assert forall|key: StickyKeyView| #[trigger] one.contains_key(key) <==> two.contains_key(key) by {
        law_last_to_expire_wins(map, times, events, key);
        law_last_to_expire_wins(map, other_times, other_events, key);
        if one.contains_key(key) && !map.entries.contains_key(key) {
            let event = choose|event: UpsertView<T>| #[trigger]
                arrives_live(times, events, event) && event.key == key;
            assert(arrives_live(other_times, other_events, event));
        }
        if two.contains_key(key) && !map.entries.contains_key(key) {
            let event = choose|event: UpsertView<T>| #[trigger]
                arrives_live(other_times, other_events, event) && event.key == key;
            assert(arrives_live(times, events, event));
        }
    }
    assert forall|key: StickyKeyView| #[trigger] one.contains_key(key) implies one[key] == two[key] by {
        law_last_to_expire_wins(map, times, events, key);
        law_last_to_expire_wins(map, other_times, other_events, key);
        let (a, b) = (one[key], two[key]);
        lemma_outranks_total(a, b);
        let held = map.entries;
        let a_is_held = held.contains_key(key) && a == held[key];
        let b_is_held = held.contains_key(key) && b == held[key];
        if a_is_held && !b_is_held {
            let event = choose|event: UpsertView<T>| #[trigger]
                arrives_live(other_times, other_events, event) && event.key == key && b
                    == event.entry();
            assert(arrives_live(times, events, event));
        } else if b_is_held && !a_is_held {
            let event = choose|event: UpsertView<T>| #[trigger]
                arrives_live(times, events, event) && event.key == key && a == event.entry();
            assert(arrives_live(other_times, other_events, event));
        } else if !a_is_held && !b_is_held {
            let x = choose|event: UpsertView<T>| #[trigger]
                arrives_live(times, events, event) && event.key == key && a == event.entry();
            let y = choose|event: UpsertView<T>| #[trigger]
                arrives_live(other_times, other_events, event) && event.key == key && b
                    == event.entry();
            assert(arrives_live(times, events, y));
            assert(arrives_live(other_times, other_events, x));
        }
    }
    assert(one =~= two);
}

} // verus!
