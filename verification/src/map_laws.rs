//! What each operation on a sticky-events map does, told of what goes in and what
//! comes out.

use crate::key::{RemovalReason, StickyEntry, StickyKey};
use crate::map::{Upsert, MAX_STICKY_DURATION_MS};
use vstd::prelude::*;

verus! {

use crate::key::{
    key_before, lemma_key_order_asymmetric, StickyEntryView, StickyEventsUpdateView, StickyKeyView,
};
use crate::laws::{
    effect_at, law_update_is_the_net_effect, lemma_effect_at, lemma_touched_keys,
};
use crate::map::{
    all_at, batch_outcome, earlier, end_after, upsert_outcome, upsert_view, upsert_views,
};
use crate::model::{
    advanced_by_all, are_expired_keys, batch_applied, begun, effect, evicted, expiry_update,
    is_earliest, is_entry_of, lemma_empty_update_means_no_change, lemma_net_update_names,
    lemma_untouched_entries_are_kept, listing, lists, live_entries, net_effect, net_update,
    node_before, outranks, recorded, removed_by_hand, upserted, Entries, EphemeralMapView,
    Schedule, UpsertView,
};
use crate::text::text_before;

/// A sticky event lasts exactly as long as it declares, up to one hour and no
/// longer, from the earlier of its two timestamps; it never lasts beyond the last
/// time there is.
pub proof fn law_event_lasts_as_long_as_it_declares(
    origin_server_ts: u64,
    received_ts: u64,
    duration_ms: u32,
)
    ensures
        ({
            let end = end_after(earlier(origin_server_ts, received_ts), duration_ms as u64);
            let start = if origin_server_ts <= received_ts {
                origin_server_ts as int
            } else {
                received_ts as int
            };
            &&& duration_ms <= 3_600_000 && start + duration_ms <= u64::MAX ==> end - start
                == duration_ms
            &&& duration_ms > 3_600_000 && start + 3_600_000 <= u64::MAX ==> end - start
                == 3_600_000
            &&& start <= end
            &&& end - start <= duration_ms
            &&& end < u64::MAX ==> end - start == duration_ms || end - start == 3_600_000
        }),
{
}

/// Counted from any start, a duration of up to one hour ends after exactly that
/// time, a longer one after exactly one hour, and what would end after the last
/// time there is ends then.
pub proof fn law_duration_is_added_in_full(start: u64, duration_ms: u64)
    ensures
        duration_ms <= 3_600_000 && start + duration_ms <= u64::MAX ==> end_after(
            start,
            duration_ms,
        ) - start == duration_ms,
        duration_ms >= 3_600_000 && start + 3_600_000 <= u64::MAX ==> end_after(start, duration_ms)
            - start == 3_600_000,
        duration_ms <= 3_600_000 && start + duration_ms > u64::MAX ==> end_after(start, duration_ms)
            == u64::MAX,
        duration_ms >= 3_600_000 && start + 3_600_000 > u64::MAX ==> end_after(start, duration_ms)
            == u64::MAX,
        MAX_STICKY_DURATION_MS == 3_600_000,
{
}

/// The earlier of two times is one of them, and neither is before it.
pub proof fn law_earlier_time_is_the_smaller_one(a: u64, b: u64)
    ensures
        earlier(a, b) <= a,
        earlier(a, b) <= b,
        earlier(a, b) == a || earlier(a, b) == b,
{
}

/// An event on its way into the map is its own key, value, event id, expiry time
/// and mark of removal, and a batch of them is these events in order.
pub proof fn law_upsert_is_its_parts<T>(events: Seq<Upsert<T>>, i: int)
    requires
        0 <= i < events.len(),
    ensures
        upsert_views(events).len() == events.len(),
        upsert_views(events)[i] == upsert_view(events[i]),
        upsert_view(events[i]).key == events[i].0@,
        upsert_view(events[i]).value == events[i].1,
        upsert_view(events[i]).event_id == events[i].2@,
        upsert_view(events[i]).end_time == events[i].3,
        upsert_view(events[i]).is_removal == events[i].4,
        upsert_view(events[i]).entry().value == events[i].1,
        upsert_view(events[i]).entry().event_id == events[i].2@,
        upsert_view(events[i]).entry().end_time == events[i].3,
{
}

/// Where a batch arrives at one time, each of its events arrives at that time.
pub proof fn law_one_time_for_all(now: u64, count: nat, i: int)
    ensures
        all_at(now, count).len() == count,
        0 <= i < count ==> all_at(now, count)[i] == now,
{
}

/// A new map holds nothing, has nothing scheduled, and has told nobody anything.
pub proof fn law_new_map_is_empty<T>(key: StickyKeyView, node: (u64, StickyKeyView))
    ensures
        !EphemeralMapView::<T>::empty().entries.contains_key(key),
        !EphemeralMapView::<T>::empty().schedule.contains(node),
        EphemeralMapView::<T>::empty().published.len() == 0,
        EphemeralMapView::<T>::empty().wakeups == 0,
{
}

/// An event outranks an entry exactly if it expires later or, where both expire at
/// the same time, its event id is the higher one.
pub proof fn law_later_expiry_then_higher_event_id_outranks<T>(
    end_time: u64,
    event_id: Seq<char>,
    current: StickyEntryView<T>,
)
    ensures
        end_time > current.end_time ==> outranks(end_time, event_id, current),
        end_time < current.end_time ==> !outranks(end_time, event_id, current),
        end_time == current.end_time ==> (outranks(end_time, event_id, current) <==> text_before(
            current.event_id,
            event_id,
        )),
{
}

/// `event` is not held off by the entry of its key: there is none, or one that
/// expires earlier, or at the same time with a lower event id.
pub open spec fn prevails<T>(entries: Entries<T>, event: UpsertView<T>) -> bool {
    ||| !entries.contains_key(event.key)
    ||| event.end_time > entries[event.key].end_time
    ||| {
        &&& event.end_time == entries[event.key].end_time
        &&& text_before(entries[event.key].event_id, event.event_id)
    }
}

/// The last update that a map has published is the only new one, and says this.
pub open spec fn tells_this<T>(
    before: EphemeralMapView<T>,
    after: EphemeralMapView<T>,
    added: Seq<StickyKeyView>,
    updated: Seq<StickyKeyView>,
    removed: Seq<(StickyKeyView, RemovalReason)>,
) -> bool {
    &&& after.published.len() == before.published.len() + 1
    &&& forall|i: int|
        0 <= i < before.published.len() ==> #[trigger] after.published[i] == before.published[i]
    &&& after.published.last().added == added
    &&& after.published.last().updated == updated
    &&& after.published.last().removed == removed
}

/// An upsert files a live event that prevails: a read of its key gives its value,
/// event id and expiry time, it is scheduled for that time, the maintenance task is
/// woken, and subscribers are told of an added key, or of an updated one where
/// there was an entry.
pub proof fn law_upsert_files_what_prevails<T>(
    before: EphemeralMapView<T>,
    now: u64,
    event: UpsertView<T>,
    after: EphemeralMapView<T>,
    changed: bool,
)
    requires
        upsert_outcome(before, now, event, after, changed),
        prevails(before.entries, event),
        !event.is_removal,
        event.end_time > now,
    ensures
        changed,
        after.entries.contains_key(event.key),
        after.entries[event.key].value == event.value,
        after.entries[event.key].event_id == event.event_id,
        after.entries[event.key].end_time == event.end_time,
        after.schedule == before.schedule.insert((event.end_time, event.key)),
        after.wakeups == before.wakeups + 1,
        before.entries.contains_key(event.key) ==> tells_this(
            before,
            after,
            seq![],
            seq![event.key],
            seq![],
        ),
        !before.entries.contains_key(event.key) ==> tells_this(
            before,
            after,
            seq![event.key],
            seq![],
            seq![],
        ),
{
    let update = after.published.last();
    assert(update.added =~= seq![event.key] || update.updated =~= seq![event.key]);
    assert(update.added =~= seq![] || update.updated =~= seq![]);
    assert(update.removed =~= seq![]);
}

/// An upsert of a removal that prevails over an entry takes that entry away, and
/// tells subscribers so; nothing is scheduled and nobody is woken.
pub proof fn law_upsert_of_a_removal_removes<T>(
    before: EphemeralMapView<T>,
    now: u64,
    event: UpsertView<T>,
    after: EphemeralMapView<T>,
    changed: bool,
)
    requires
        upsert_outcome(before, now, event, after, changed),
        before.entries.contains_key(event.key),
        prevails(before.entries, event),
        event.is_removal,
    ensures
        changed,
        !after.entries.contains_key(event.key),
        after.schedule == before.schedule,
        after.wakeups == before.wakeups,
        tells_this(before, after, seq![], seq![], seq![(event.key, RemovalReason::Replaced)]),
{
    let told = recorded(
        StickyEventsUpdateView::empty(),
        event.key,
        effect(before.entries, now, event),
    );
    assert(told.removed.len() == 1);
    assert(after.published.last() == told);
    assert(told.added =~= seq![]);
    assert(told.updated =~= seq![]);
    assert(told.removed =~= seq![(event.key, RemovalReason::Replaced)]);
}

/// An upsert changes nothing at all where the event does not prevail, is expired on
/// arrival, or is a removal of what is not there; and it never touches another key.
pub proof fn law_upsert_changes_nothing_else<T>(
    before: EphemeralMapView<T>,
    now: u64,
    event: UpsertView<T>,
    after: EphemeralMapView<T>,
    changed: bool,
    other: StickyKeyView,
)
    requires
        upsert_outcome(before, now, event, after, changed),
    ensures
        !prevails(before.entries, event) ==> !changed && after == before,
        !event.is_removal && event.end_time <= now ==> !changed && after == before,
        event.is_removal && !before.entries.contains_key(event.key) ==> !changed && after == before,
        other != event.key ==> {
            &&& after.entries.contains_key(other) <==> before.entries.contains_key(other)
            &&& before.entries.contains_key(other) ==> after.entries[other] == before.entries[other]
        },
{
}

/// A batch of no events changes nothing, and one more event at its end does to the
/// entries and the schedule what it does on its own after the others.
pub proof fn law_batch_goes_event_by_event<T>(
    map: EphemeralMapView<T>,
    times: Seq<u64>,
    events: Seq<UpsertView<T>>,
    now: u64,
    event: UpsertView<T>,
)
    requires
        times.len() == events.len(),
    ensures
        batch_applied(map, Seq::empty(), Seq::empty()) == map,
        batch_applied(map, times.push(now), events.push(event)).entries == upserted(
            batch_applied(map, times, events),
            now,
            event,
        ).entries,
        batch_applied(map, times.push(now), events.push(event)).schedule == upserted(
            batch_applied(map, times, events),
            now,
            event,
        ).schedule,
{
    assert(times.push(now).drop_last() =~= times);
    assert(events.push(event).drop_last() =~= events);
    let none = Seq::<StickyKeyView>::empty();
    assert(net_update(map.entries, map.entries, none) =~= StickyEventsUpdateView::empty());
}

/// A batch wakes the maintenance task once if a key has an entry that had none, or
/// one that an event of the batch has filed in place of another, and not
/// otherwise; it says that it changed the map exactly if it has told subscribers
/// of anything.
pub proof fn law_batch_wakes_and_reports_by_what_it_tells<T>(
    before: EphemeralMapView<T>,
    times: Seq<u64>,
    events: Seq<UpsertView<T>>,
    after: EphemeralMapView<T>,
    changed: bool,
)
    requires
        batch_outcome(before, times, events, after, changed),
    ensures
        !changed ==> after.published == before.published && after.wakeups == before.wakeups
            && after.entries == before.entries,
        changed ==> {
            let told = after.published.last();
            &&& tells_this(before, after, told.added, told.updated, told.removed)
            &&& told.added.len() + told.updated.len() + told.removed.len() > 0
            &&& after.wakeups == before.wakeups + (if told.added.len() + told.updated.len() > 0 {
                1int
            } else {
                0
            })
            &&& forall|key: StickyKeyView| #[trigger]
                told.added.contains(key) <==> !before.entries.contains_key(key)
                    && after.entries.contains_key(key)
            &&& forall|key: StickyKeyView, reason: RemovalReason| #[trigger]
                told.removed.contains((key, reason)) <==> {
                    &&& before.entries.contains_key(key)
                    &&& !after.entries.contains_key(key)
                    &&& reason == RemovalReason::Replaced
                }
            &&& forall|key: StickyKeyView| #[trigger]
                told.updated.contains(key) ==> before.entries.contains_key(key)
                    && after.entries.contains_key(key)
            &&& forall|key: StickyKeyView|
                before.entries.contains_key(key) && #[trigger] after.entries.contains_key(key)
                    && after.entries[key] != before.entries[key] ==> told.updated.contains(key)
        },
{
    law_update_is_the_net_effect(before, times, events);
    let reached = advanced_by_all(begun(before), times, events);
    let update = net_update(before.entries, reached.entries, reached.touched);
    lemma_untouched_entries_are_kept(before, times, events);
    lemma_net_update_names(before.entries, reached.entries, reached.touched);
    lemma_empty_update_means_no_change(before, times, events);
    if changed {
        assert(after.published.last() == update);
        if update.added.len() + update.updated.len() + update.removed.len() == 0 {
            assert(update =~= StickyEventsUpdateView::empty());
        }
        assert forall|key: StickyKeyView|
            before.entries.contains_key(key) && #[trigger] after.entries.contains_key(key)
                && after.entries[key] != before.entries[key] implies update.updated.contains(
            key,
        ) by {
            if !reached.touched.contains(key) {
                assert(reached.entries.contains_key(key));
            }
        }
        assert forall|key: StickyKeyView| #[trigger] update.updated.contains(
            key,
        ) implies before.entries.contains_key(key) && after.entries.contains_key(key) by {
            assert(net_effect(before.entries, reached.entries, key) is Updated);
        }
    }
}

/// The event in place `i` is the first that has an effect on the entry of its key.
pub open spec fn is_first_effect<T>(
    map: EphemeralMapView<T>,
    times: Seq<u64>,
    events: Seq<UpsertView<T>>,
    i: int,
) -> bool {
    &&& 0 <= i < events.len()
    &&& !(effect_at(map, times, events, i) is Ignored)
    &&& forall|j: int|
        0 <= j < i && events[j].key == events[i].key ==> #[trigger] effect_at(
            map,
            times,
            events,
            j,
        ) is Ignored
}

/// The keys that a batch touches stand in the order in which they are touched.
proof fn lemma_touched_in_order<T>(
    map: EphemeralMapView<T>,
    times: Seq<u64>,
    events: Seq<UpsertView<T>>,
    p: int,
    q: int,
)
    requires
        times.len() == events.len(),
        0 <= p < q < advanced_by_all(begun(map), times, events).touched.len(),
    ensures
        ({
            let touched = advanced_by_all(begun(map), times, events).touched;
            exists|i: int, j: int|
                {
                    &&& i < j
                    &&& #[trigger] is_first_effect(map, times, events, i)
                    &&& #[trigger] is_first_effect(map, times, events, j)
                    &&& events[i].key == touched[p]
                    &&& events[j].key == touched[q]
                }
        }),
    decreases events.len(),
{
    if events.len() > 0 {
        let (init_times, init_events) = (times.drop_last(), events.drop_last());
        let n = events.len() - 1;
        let init = advanced_by_all(begun(map), init_times, init_events);
        let touched = advanced_by_all(begun(map), times, events).touched;
        lemma_effect_at(map, times, events);
        if q < init.touched.len() {
            lemma_touched_in_order(map, init_times, init_events, p, q);
            let (i, j) = choose|i: int, j: int|
                {
                    &&& i < j
                    &&& #[trigger] is_first_effect(map, init_times, init_events, i)
                    &&& #[trigger] is_first_effect(map, init_times, init_events, j)
                    &&& init_events[i].key == init.touched[p]
                    &&& init_events[j].key == init.touched[q]
                };
            lemma_first_effect_stays(map, times, events, i);
            lemma_first_effect_stays(map, times, events, j);
            assert(events[i].key == touched[p] && events[j].key == touched[q]);
        } else {
            lemma_touched_has_first_effect(map, init_times, init_events, p);
            let i = choose|i: int| #[trigger]
                is_first_effect(map, init_times, init_events, i) && init_events[i].key
                    == init.touched[p];
            lemma_first_effect_stays(map, times, events, i);
            assert(events[i].key == touched[p]);
            assert(touched[q] == events[n].key);
            assert forall|j: int| 0 <= j < n && events[j].key == events[n].key implies #[trigger] effect_at(
                map,
                times,
                events,
                j,
            ) is Ignored by {
                lemma_touched_keys(map, init_times, init_events, events[n].key);
                assert(!init.touched.contains(events[n].key));
                assert(init_events[j].key == events[n].key);
                assert(effect_at(map, init_times, init_events, j) is Ignored);
            }
            assert(is_first_effect(map, times, events, n));
        }
    }
}

proof fn lemma_first_effect_stays<T>(
    map: EphemeralMapView<T>,
    times: Seq<u64>,
    events: Seq<UpsertView<T>>,
    i: int,
)
    requires
        times.len() == events.len(),
        events.len() > 0,
        is_first_effect(map, times.drop_last(), events.drop_last(), i),
    ensures
        is_first_effect(map, times, events, i),
{
    lemma_effect_at(map, times, events);
    let (init_times, init_events) = (times.drop_last(), events.drop_last());
    assert(effect_at(map, times, events, i) == effect_at(map, init_times, init_events, i));
    assert forall|j: int| 0 <= j < i && events[j].key == events[i].key implies #[trigger] effect_at(
        map,
        times,
        events,
        j,
    ) is Ignored by {
        assert(effect_at(map, init_times, init_events, j) is Ignored);
    }
}

proof fn lemma_touched_has_first_effect<T>(
    map: EphemeralMapView<T>,
    times: Seq<u64>,
    events: Seq<UpsertView<T>>,
    p: int,
)
    requires
        times.len() == events.len(),
        0 <= p < advanced_by_all(begun(map), times, events).touched.len(),
    ensures
        exists|i: int| #[trigger]
            is_first_effect(map, times, events, i) && events[i].key == advanced_by_all(
                begun(map),
                times,
                events,
            ).touched[p],
    decreases events.len(),
{
    if events.len() > 0 {
        let (init_times, init_events) = (times.drop_last(), events.drop_last());
        let n = events.len() - 1;
        let init = advanced_by_all(begun(map), init_times, init_events);
        let touched = advanced_by_all(begun(map), times, events).touched;
        lemma_effect_at(map, times, events);
        if p < init.touched.len() {
            lemma_touched_has_first_effect(map, init_times, init_events, p);
            let i = choose|i: int| #[trigger]
                is_first_effect(map, init_times, init_events, i) && init_events[i].key
                    == init.touched[p];
            lemma_first_effect_stays(map, times, events, i);
            assert(events[i].key == touched[p]);
        } else {
            assert(touched[p] == events[n].key);
            assert forall|j: int| 0 <= j < n && events[j].key == events[n].key implies #[trigger] effect_at(
                map,
                times,
                events,
                j,
            ) is Ignored by {
                lemma_touched_keys(map, init_times, init_events, events[n].key);
                assert(!init.touched.contains(events[n].key));
                assert(init_events[j].key == events[n].key);
                assert(effect_at(map, init_times, init_events, j) is Ignored);
            }
            assert(is_first_effect(map, times, events, n));
        }
    }
}

/// The lists of a net update keep the order of the keys.
proof fn lemma_net_update_keeps_order<T>(
    before: Entries<T>,
    after: Entries<T>,
    keys: Seq<StickyKeyView>,
    a: int,
    b: int,
)
    requires
        0 <= a < b,
    ensures
        ({
            let update = net_update(before, after, keys);
            &&& b < update.added.len() ==> exists|p: int, q: int|
                0 <= p < q < keys.len() && #[trigger] keys[p] == update.added[a]
                    && #[trigger] keys[q] == update.added[b]
            &&& b < update.updated.len() ==> exists|p: int, q: int|
                0 <= p < q < keys.len() && #[trigger] keys[p] == update.updated[a]
                    && #[trigger] keys[q] == update.updated[b]
            &&& b < update.removed.len() ==> exists|p: int, q: int|
                0 <= p < q < keys.len() && #[trigger] keys[p] == update.removed[a].0
                    && #[trigger] keys[q] == update.removed[b].0
        }),
    decreases keys.len(),
{
    if keys.len() > 0 {
        let init = keys.drop_last();
        let n = keys.len() - 1;
        let earlier_update = net_update(before, after, init);
        let update = net_update(before, after, keys);
        lemma_net_update_keeps_order(before, after, init, a, b);
        lemma_net_update_names(before, after, init);
        if b < update.added.len() {
            if b < earlier_update.added.len() {
                let (p, q) = choose|p: int, q: int|
                    0 <= p < q < init.len() && #[trigger] init[p] == earlier_update.added[a]
                        && #[trigger] init[q] == earlier_update.added[b];
                assert(keys[p] == update.added[a] && keys[q] == update.added[b]);
            } else {
                assert(earlier_update.added.contains(earlier_update.added[a]));
                let p = choose|p: int| 0 <= p < init.len() && init[p] == update.added[a];
                assert(keys[p] == update.added[a] && keys[n] == update.added[b]);
            }
        }
        if b < update.updated.len() {
            if b < earlier_update.updated.len() {
                let (p, q) = choose|p: int, q: int|
                    0 <= p < q < init.len() && #[trigger] init[p] == earlier_update.updated[a]
                        && #[trigger] init[q] == earlier_update.updated[b];
                assert(keys[p] == update.updated[a] && keys[q] == update.updated[b]);
            } else {
                assert(earlier_update.updated.contains(earlier_update.updated[a]));
                let p = choose|p: int| 0 <= p < init.len() && init[p] == update.updated[a];
                assert(keys[p] == update.updated[a] && keys[n] == update.updated[b]);
            }
        }
        if b < update.removed.len() {
            if b < earlier_update.removed.len() {
                let (p, q) = choose|p: int, q: int|
                    0 <= p < q < init.len() && #[trigger] init[p] == earlier_update.removed[a].0
                        && #[trigger] init[q] == earlier_update.removed[b].0;
                assert(keys[p] == update.removed[a].0 && keys[q] == update.removed[b].0);
            } else {
                let removal = earlier_update.removed[a];
                assert(earlier_update.removed.contains((removal.0, removal.1)));
                let p = choose|p: int| 0 <= p < init.len() && init[p] == update.removed[a].0;
                assert(keys[p] == update.removed[a].0 && keys[n] == update.removed[b].0);
            }
        }
    }
}

/// The update of a batch names keys in the order of arrival: of two keys in one of
/// its lists, the first event with an effect on the one arrived before the first
/// event with an effect on the other.
pub proof fn law_update_names_keys_in_order_of_arrival<T>(
    before: EphemeralMapView<T>,
    times: Seq<u64>,
    events: Seq<UpsertView<T>>,
    after: EphemeralMapView<T>,
    a: int,
    b: int,
    one: StickyKeyView,
    two: StickyKeyView,
)
    requires
        batch_outcome(before, times, events, after, true),
        0 <= a < b,
        ({
            let told = after.published.last();
            ||| b < told.added.len() && told.added[a] == one && told.added[b] == two
            ||| b < told.updated.len() && told.updated[a] == one && told.updated[b] == two
            ||| b < told.removed.len() && told.removed[a].0 == one && told.removed[b].0 == two
        }),
    ensures
        exists|i: int, j: int|
            {
                &&& i < j
                &&& #[trigger] is_first_effect(before, times, events, i)
                &&& #[trigger] is_first_effect(before, times, events, j)
                &&& events[i].key == one
                &&& events[j].key == two
            },
{
    let reached = advanced_by_all(begun(before), times, events);
    law_update_is_the_net_effect(before, times, events);
    lemma_net_update_keeps_order(before.entries, reached.entries, reached.touched, a, b);
    let keys = reached.touched;
    let (p, q) = choose|p: int, q: int|
        0 <= p < q < keys.len() && #[trigger] keys[p] == one && #[trigger] keys[q] == two;
    lemma_touched_in_order(before, times, events, p, q);
}

/// Removing a key by hand takes away its entry and no other, and tells subscribers
/// of just that; where there is no entry nothing happens at all.
pub proof fn law_removal_by_hand_takes_one_entry<T>(
    before: EphemeralMapView<T>,
    key: StickyKeyView,
    other: StickyKeyView,
)
    ensures
        ({
            let after = removed_by_hand(before, key);
            &&& !after.entries.contains_key(key)
            &&& other != key ==> (after.entries.contains_key(other)
                <==> before.entries.contains_key(other))
            &&& other != key && before.entries.contains_key(other) ==> after.entries[other]
                == before.entries[other]
            &&& after.schedule == before.schedule
            &&& after.wakeups == before.wakeups
            &&& before.entries.contains_key(key) ==> tells_this(
                before,
                after,
                seq![],
                seq![],
                seq![(key, RemovalReason::ExplicitRemoval)],
            )
            &&& !before.entries.contains_key(key) ==> after == before
        }),
{
    let after = removed_by_hand(before, key);
    if before.entries.contains_key(key) {
        let update = StickyEventsUpdateView {
            removed: seq![(key, RemovalReason::ExplicitRemoval)],
            ..StickyEventsUpdateView::empty()
        };
        assert(update.removed.len() == 1);
        assert(after.published.last() == update);
        assert(update.added =~= seq![]);
        assert(update.updated =~= seq![]);
        assert(update.removed =~= seq![(key, RemovalReason::ExplicitRemoval)]);
    }
}

/// An entry is live exactly as long as the time is before its end, and is then
/// what it is in the map.
pub proof fn law_entry_is_live_before_its_end<T>(entries: Entries<T>, now: u64, key: StickyKeyView)
    ensures
        live_entries(entries, now).contains_key(key) <==> entries.contains_key(key) && now
            < entries[key].end_time,
        live_entries(entries, now).contains_key(key) ==> live_entries(entries, now)[key]
            == entries[key],
{
}

/// Eviction takes away every entry whose end has come and no other, and every time
/// that has come out of the schedule and no other. It reports the keys it took,
/// each once, those that were due earlier first and those due at the same time in
/// the order of keys, and tells subscribers of the same; it tells nothing where
/// there are none.
pub proof fn law_eviction_takes_what_has_expired<T>(
    before: EphemeralMapView<T>,
    now: u64,
    keys: Seq<StickyKeyView>,
    key: StickyKeyView,
    node: (u64, StickyKeyView),
    i: int,
    j: int,
)
    requires
        are_expired_keys(keys, before.entries, now),
    ensures
        ({
            let after = evicted(before, now, keys);
            &&& after.entries.contains_key(key) <==> before.entries.contains_key(key)
                && before.entries[key].end_time > now
            &&& after.entries.contains_key(key) ==> after.entries[key] == before.entries[key]
            &&& node.0 > now ==> after.schedule.count(node) == before.schedule.count(node)
            &&& node.0 <= now ==> after.schedule.count(node) == 0
            &&& after.wakeups == before.wakeups
            &&& keys.contains(key) <==> before.entries.contains_key(key)
                && before.entries[key].end_time <= now
            &&& 0 <= i < j < keys.len() ==> {
                &&& keys[i] != keys[j]
                &&& before.entries[keys[i]].end_time <= before.entries[keys[j]].end_time
                &&& before.entries[keys[i]].end_time == before.entries[keys[j]].end_time
                    ==> key_before(keys[i], keys[j])
            }
            &&& keys.len() == 0 ==> after.published == before.published
            &&& keys.len() > 0 ==> {
                &&& tells_this(before, after, seq![], seq![], after.published.last().removed)
                &&& after.published.last().removed.len() == keys.len()
                &&& 0 <= i < keys.len() ==> after.published.last().removed[i] == (
                    keys[i],
                    RemovalReason::Expired,
                )
            }
        }),
{
    let after = evicted(before, now, keys);
    if keys.contains(key) {
        let k = choose|k: int| 0 <= k < keys.len() && keys[k] == key;
        assert(before.entries.contains_key(keys[k]));
    }
    if 0 <= i < j < keys.len() {
        assert(node_before(
            (before.entries[keys[i]].end_time, keys[i]),
            (before.entries[keys[j]].end_time, keys[j]),
        ));
        if keys[i] == keys[j] {
            lemma_key_order_asymmetric(keys[i], keys[j]);
        }
    }
    let update = expiry_update(keys);
    if keys.len() == 0 {
        assert(update =~= StickyEventsUpdateView::empty());
    } else {
        assert(update.removed.len() == keys.len());
        assert(update.added =~= seq![]);
        assert(update.updated =~= seq![]);
    }
}

/// The earliest time of a schedule is in it, and no time in it is earlier; there is
/// none exactly if nothing is scheduled.
pub proof fn law_earliest_time_is_scheduled(
    time: Option<u64>,
    schedule: Schedule,
    node: (u64, StickyKeyView),
)
    requires
        is_earliest(time, schedule),
    ensures
        schedule.contains(node) ==> time is Some && time->0 <= node.0,
        time matches Some(time) ==> exists|n: (u64, StickyKeyView)| #[trigger]
            schedule.contains(n) && n.0 == time,
{
}

/// What is given back for a key is the entry that there is for it, field by field,
/// and nothing exactly if there is none.
pub proof fn law_read_gives_the_entry<T>(
    entry: Option<&StickyEntry<T>>,
    key: StickyKeyView,
    entries: Entries<T>,
)
    requires
        is_entry_of(entry, key, entries),
    ensures
        entry is Some <==> entries.contains_key(key),
        entry matches Some(entry) ==> {
            &&& entries[key].value == entry.value
            &&& entries[key].event_id == entry.event_id@
            &&& entries[key].end_time == entry.end_time
        },
{
}

/// A listing names exactly the keys that there are entries for, each once and with
/// its own entry.
pub proof fn law_listing_is_complete<T>(
    pairs: Seq<(&StickyKey, &StickyEntry<T>)>,
    entries: Entries<T>,
    i: int,
    j: int,
    key: StickyKeyView,
)
    requires
        lists(listing(pairs), entries),
    ensures
        0 <= i < pairs.len() ==> {
            &&& entries.contains_key(pairs[i].0@)
            &&& entries[pairs[i].0@].value == pairs[i].1.value
            &&& entries[pairs[i].0@].event_id == pairs[i].1.event_id@
            &&& entries[pairs[i].0@].end_time == pairs[i].1.end_time
        },
        0 <= i < j < pairs.len() ==> pairs[i].0@ != pairs[j].0@,
        entries.contains_key(key) ==> exists|n: int|
            0 <= n < pairs.len() && (#[trigger] pairs[n]).0@ == key,
{
    let all = listing(pairs);
    if 0 <= i < pairs.len() {
        assert(all[i] == (pairs[i].0@, pairs[i].1@));
    }
    if 0 <= i < j < pairs.len() {
        assert(all[i].0 != all[j].0);
    }
    if entries.contains_key(key) {
        let n = choose|n: int| 0 <= n < all.len() && (#[trigger] all[n]).0 == key;
        assert(pairs[n].0@ == key);
    }
}

} // verus!
