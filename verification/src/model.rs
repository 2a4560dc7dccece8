//! What a sticky-events map is, mathematically: its entries, the times at which
//! they are due, and how an event changes them.

use crate::key::{RemovalReason, StickyEntry, StickyKey};
use vstd::prelude::*;

verus! {

use crate::key::{key_before, StickyEntryView, StickyEventsUpdateView, StickyKeyView};
use crate::text::text_before;
use vstd::multiset::Multiset;

/// One entry per key.
pub type Entries<T> = Map<StickyKeyView, StickyEntryView<T>>;

/// The keys that are due, each with the time.
pub type Schedule = Multiset<(u64, StickyKeyView)>;

/// What an [`EphemeralMap`](crate::map::EphemeralMap) stands for.
#[verifier::ext_equal]
pub struct EphemeralMapView<T> {
    /// The entries, expired ones among them until they are evicted.
    pub entries: Entries<T>,
    /// When which key is due. It may hold times at which a key's entry is no
    /// longer due.
    pub schedule: Schedule,
    /// The updates sent to subscribers so far, oldest first.
    pub published: Seq<StickyEventsUpdateView>,
    /// How often the maintenance task was woken.
    pub wakeups: nat,
}

impl<T> EphemeralMapView<T> {
    /// A new map.
    pub open spec fn empty() -> EphemeralMapView<T> {
        EphemeralMapView {
            entries: Map::empty(),
            schedule: Multiset::empty(),
            published: Seq::empty(),
            wakeups: 0,
        }
    }
}

/// A sticky event on its way into a map.
#[verifier::ext_equal]
pub struct UpsertView<T> {
    pub key: StickyKeyView,
    pub value: T,
    pub event_id: Seq<char>,
    pub end_time: u64,
    pub is_removal: bool,
}

impl<T> UpsertView<T> {
    /// The entry that the event leaves behind when it is filed.
    pub open spec fn entry(self) -> StickyEntryView<T> {
        StickyEntryView { value: self.value, event_id: self.event_id, end_time: self.end_time }
    }
}

/// `a` is due before `b`: by time, then by key.
pub open spec fn node_before(a: (u64, StickyKeyView), b: (u64, StickyKeyView)) -> bool {
    ||| a.0 < b.0
    ||| a.0 == b.0 && key_before(a.1, b.1)
}

/// An event supersedes an entry: it is the last to expire or, where both expire
/// at the same time, has the higher event id.
pub open spec fn outranks<T>(
    end_time: u64,
    event_id: Seq<char>,
    current: StickyEntryView<T>,
) -> bool {
    ||| end_time > current.end_time
    ||| end_time == current.end_time && text_before(current.event_id, event_id)
}

/// What an event does to the entry of its key.
#[verifier::ext_equal]
pub enum Effect {
    /// Nothing.
    Ignored,
    /// It becomes the first entry of its key.
    Added,
    /// It takes the place of the entry of its key.
    Updated,
    /// It takes away the entry of its key.
    Removed,
}

/// What `event` does to `entries` when it arrives at the time `now`.
///
/// An event supersedes the entry of its key only if it outranks it. A removal
/// without such an entry has nothing to do; any other event is ignored if it is
/// already expired.
pub open spec fn effect<T>(entries: Entries<T>, now: u64, event: UpsertView<T>) -> Effect {
    let present = entries.contains_key(event.key);
    if present && !outranks(event.end_time, event.event_id, entries[event.key]) {
        Effect::Ignored
    } else if event.is_removal {
        if present { Effect::Removed } else { Effect::Ignored }
    } else if event.end_time <= now {
        Effect::Ignored
    } else if present {
        Effect::Updated
    } else {
        Effect::Added
    }
}

/// The entries once `event` has arrived at the time `now`.
pub open spec fn entries_after<T>(entries: Entries<T>, now: u64, event: UpsertView<T>) -> Entries<T> {
    match effect(entries, now, event) {
        Effect::Ignored => entries,
        Effect::Removed => entries.remove(event.key),
        Effect::Added | Effect::Updated => entries.insert(event.key, event.entry()),
    }
}

/// The schedule once `event` has arrived at the time `now`.
pub open spec fn schedule_after<T>(
    schedule: Schedule,
    entries: Entries<T>,
    now: u64,
    event: UpsertView<T>,
) -> Schedule {
    match effect(entries, now, event) {
        Effect::Added | Effect::Updated => schedule.insert((event.end_time, event.key)),
        _ => schedule,
    }
}

/// `update` with what happened to `key` added to it.
pub open spec fn recorded(
    update: StickyEventsUpdateView,
    key: StickyKeyView,
    effect: Effect,
) -> StickyEventsUpdateView {
    match effect {
        Effect::Ignored => update,
        Effect::Added => StickyEventsUpdateView { added: update.added.push(key), ..update },
        Effect::Updated => StickyEventsUpdateView { updated: update.updated.push(key), ..update },
        Effect::Removed => StickyEventsUpdateView {
            removed: update.removed.push((key, RemovalReason::Replaced)),
            ..update
        },
    }
}

/// What has become, all in all, of the entry for `key`, which some event has
/// changed, where the entries were `before` and are `after`.
pub open spec fn net_effect<T>(
    before: Entries<T>,
    after: Entries<T>,
    key: StickyKeyView,
) -> Effect {
    if before.contains_key(key) {
        if after.contains_key(key) { Effect::Updated } else { Effect::Removed }
    } else {
        if after.contains_key(key) { Effect::Added } else { Effect::Ignored }
    }
}

/// The update that reports what has become, all in all, of the entries for
/// `keys`, in their order.
pub open spec fn net_update<T>(
    before: Entries<T>,
    after: Entries<T>,
    keys: Seq<StickyKeyView>,
) -> StickyEventsUpdateView
    decreases keys.len(),
{
    if keys.len() == 0 {
        StickyEventsUpdateView::empty()
    } else {
        recorded(
            net_update(before, after, keys.drop_last()),
            keys.last(),
            net_effect(before, after, keys.last()),
        )
    }
}

/// How far the events of a batch have come.
#[verifier::ext_equal]
pub struct Progress<T> {
    pub entries: Entries<T>,
    pub schedule: Schedule,
    /// The keys whose entries an event of the batch has changed, each once, in
    /// the order in which the first such event arrived.
    pub touched: Seq<StickyKeyView>,
}

/// A batch that begins with a map as it is.
pub open spec fn begun<T>(map: EphemeralMapView<T>) -> Progress<T> {
    Progress { entries: map.entries, schedule: map.schedule, touched: Seq::empty() }
}

/// `touched` with `key`, if an event with the given effect is the first to
/// change its entry.
pub open spec fn touched_after(
    touched: Seq<StickyKeyView>,
    key: StickyKeyView,
    effect: Effect,
) -> Seq<StickyKeyView> {
    if effect is Ignored || touched.contains(key) {
        touched
    } else {
        touched.push(key)
    }
}

/// The progress once `event` has arrived at the time `now`.
pub open spec fn advanced<T>(progress: Progress<T>, now: u64, event: UpsertView<T>) -> Progress<T> {
    Progress {
        entries: entries_after(progress.entries, now, event),
        schedule: schedule_after(progress.schedule, progress.entries, now, event),
        touched: touched_after(
            progress.touched,
            event.key,
            effect(progress.entries, now, event),
        ),
    }
}

/// The progress once each of `events` has arrived, in order, at the time that
/// stands at its place in `times`.
pub open spec fn advanced_by_all<T>(
    progress: Progress<T>,
    times: Seq<u64>,
    events: Seq<UpsertView<T>>,
) -> Progress<T>
    decreases events.len(),
{
    if events.len() == 0 {
        progress
    } else {
        advanced(
            advanced_by_all(progress, times.drop_last(), events.drop_last()),
            times.last(),
            events.last(),
        )
    }
}

/// The map once `update` was published: unless it is empty it is sent, and the
/// maintenance task is woken if an entry was added or updated, which may bring
/// the next expiry forward.
pub open spec fn published<T>(
    map: EphemeralMapView<T>,
    update: StickyEventsUpdateView,
) -> EphemeralMapView<T> {
    if update == StickyEventsUpdateView::empty() {
        map
    } else {
        EphemeralMapView {
            published: map.published.push(update),
            wakeups: if update.added.len() > 0 || update.updated.len() > 0 {
                map.wakeups + 1
            } else {
                map.wakeups
            },
            ..map
        }
    }
}

/// All in all a batch changes the entries `before`: an event has changed the entry
/// for a key that had one before, or that has one now.
pub open spec fn changes<T>(before: Entries<T>, progress: Progress<T>) -> bool {
    exists|key: StickyKeyView| #[trigger]
        progress.touched.contains(key) && (before.contains_key(key)
            || progress.entries.contains_key(key))
}

/// The map once a batch has come to its end. What is published is its net
/// effect: one update that tells what has become of the entries that it has changed.
pub open spec fn concluded<T>(map: EphemeralMapView<T>, progress: Progress<T>) -> EphemeralMapView<T> {
    published(
        EphemeralMapView { entries: progress.entries, schedule: progress.schedule, ..map },
        net_update(map.entries, progress.entries, progress.touched),
    )
}

/// The map once `event` has arrived on its own at the time `now`.
pub open spec fn upserted<T>(
    map: EphemeralMapView<T>,
    now: u64,
    event: UpsertView<T>,
) -> EphemeralMapView<T> {
    published(
        EphemeralMapView {
            entries: entries_after(map.entries, now, event),
            schedule: schedule_after(map.schedule, map.entries, now, event),
            ..map
        },
        recorded(
            StickyEventsUpdateView::empty(),
            event.key,
            effect(map.entries, now, event),
        ),
    )
}

/// The map once `events` have arrived as one batch, at the given times.
pub open spec fn batch_applied<T>(
    map: EphemeralMapView<T>,
    times: Seq<u64>,
    events: Seq<UpsertView<T>>,
) -> EphemeralMapView<T> {
    concluded(map, advanced_by_all(begun(map), times, events))
}

/// The map once the entry for `key`, if there is one, was removed by hand.
pub open spec fn removed_by_hand<T>(
    map: EphemeralMapView<T>,
    key: StickyKeyView,
) -> EphemeralMapView<T> {
    if map.entries.contains_key(key) {
        published(
            EphemeralMapView { entries: map.entries.remove(key), ..map },
            StickyEventsUpdateView {
                removed: seq![(key, RemovalReason::ExplicitRemoval)],
                ..StickyEventsUpdateView::empty()
            },
        )
    } else {
        map
    }
}

/// The entries that are live at the time `now`.
pub open spec fn live_entries<T>(entries: Entries<T>, now: u64) -> Entries<T> {
    entries.filter_keys(|key: StickyKeyView| entries[key].end_time > now)
}

/// `keys` are the keys of the entries that have expired at the time `now`, each
/// once, in the order in which they were due.
pub open spec fn are_expired_keys<T>(
    keys: Seq<StickyKeyView>,
    entries: Entries<T>,
    now: u64,
) -> bool {
    &&& forall|i: int|
        0 <= i < keys.len() ==> entries.contains_key(#[trigger] keys[i])
            && entries[keys[i]].end_time <= now
    &&& forall|key: StickyKeyView| #[trigger]
        entries.contains_key(key) && entries[key].end_time <= now ==> keys.contains(key)
    &&& forall|i: int, j: int|
        0 <= i < j < keys.len() ==> node_before(
            (entries[#[trigger] keys[i]].end_time, keys[i]),
            (entries[#[trigger] keys[j]].end_time, keys[j]),
        )
}

/// The update that reports the expiry of `keys`.
pub open spec fn expiry_update(keys: Seq<StickyKeyView>) -> StickyEventsUpdateView {
    StickyEventsUpdateView {
        removed: keys.map_values(|key: StickyKeyView| (key, RemovalReason::Expired)),
        ..StickyEventsUpdateView::empty()
    }
}

/// The map once the entries with the given keys, those that have expired at the
/// time `now`, were evicted.
pub open spec fn evicted<T>(
    map: EphemeralMapView<T>,
    now: u64,
    keys: Seq<StickyKeyView>,
) -> EphemeralMapView<T> {
    published(
        EphemeralMapView {
            entries: live_entries(map.entries, now),
            schedule: map.schedule.filter(|node: (u64, StickyKeyView)| node.0 > now),
            ..map
        },
        expiry_update(keys),
    )
}

/// `time` is the earliest one in `schedule`.
pub open spec fn is_earliest(time: Option<u64>, schedule: Schedule) -> bool {
    match time {
        Some(time) => {
            &&& exists|node: (u64, StickyKeyView)| #[trigger] schedule.contains(node) && node.0 == time
            &&& forall|node: (u64, StickyKeyView)| #[trigger] schedule.contains(node) ==> time <= node.0
        },
        None => schedule == Multiset::<(u64, StickyKeyView)>::empty(),
    }
}

/// Every entry is scheduled for the time at which it expires.
pub open spec fn all_scheduled<T>(entries: Entries<T>, schedule: Schedule) -> bool {
    forall|key: StickyKeyView| #[trigger]
        entries.contains_key(key) ==> schedule.contains((entries[key].end_time, key))
}

/// `entry` is the one for `key`, or there is none.
pub open spec fn is_entry_of<T>(
    entry: Option<&StickyEntry<T>>,
    key: StickyKeyView,
    entries: Entries<T>,
) -> bool {
    match entry {
        Some(entry) => entries.contains_key(key) && entries[key] == entry@,
        None => !entries.contains_key(key),
    }
}

/// `listing` holds each of `entries` once, in some order.
pub open spec fn lists<T>(
    listing: Seq<(StickyKeyView, StickyEntryView<T>)>,
    entries: Entries<T>,
) -> bool {
    &&& forall|i: int|
        0 <= i < listing.len() ==> entries.contains_key((#[trigger] listing[i]).0)
            && entries[listing[i].0] == listing[i].1
    &&& forall|key: StickyKeyView| #[trigger]
        entries.contains_key(key) ==> exists|i: int|
            0 <= i < listing.len() && (#[trigger] listing[i]).0 == key
    &&& forall|i: int, j: int|
        0 <= i < j < listing.len() ==> (#[trigger] listing[i]).0 != (#[trigger] listing[j]).0
}

/// What keys and entries stand for, in order.
pub open spec fn listing<T>(pairs: Seq<(&StickyKey, &StickyEntry<T>)>) -> Seq<
    (StickyKeyView, StickyEntryView<T>),
> {
    pairs.map_values(|pair: (&StickyKey, &StickyEntry<T>)| (pair.0@, pair.1@))
}

/// A listing is as long as there are entries.
pub proof fn lemma_listing_len<T>(
    listing: Seq<(StickyKeyView, StickyEntryView<T>)>,
    entries: Entries<T>,
)
    requires
        lists(listing, entries),
    ensures
        entries.dom().finite(),
        entries.len() == listing.len(),
    decreases listing.len(),
{
    if listing.len() == 0 {
        assert(entries.dom() =~= Set::empty());
    } else {
        let rest = listing.drop_last();
        let key = listing.last().0;
        let others = entries.remove(key);
        assert forall|i: int| 0 <= i < rest.len() implies others.contains_key((#[trigger] rest[i]).0)
            && others[rest[i].0] == rest[i].1 by {
            assert(rest[i] == listing[i]);
            assert(listing[i].0 != listing[listing.len() - 1].0);
        }
        assert forall|k: StickyKeyView| #[trigger] others.contains_key(k) implies exists|i: int|
            0 <= i < rest.len() && (#[trigger] rest[i]).0 == k by {
            assert(entries.contains_key(k));
            let i = choose|i: int| 0 <= i < listing.len() && (#[trigger] listing[i]).0 == k;
            assert(rest[i].0 == k);
        }
        lemma_listing_len(rest, others);
        assert(entries.contains_key(listing[listing.len() - 1].0));
        assert(entries =~= others.insert(key, entries[key]));
    }
}

/// An entry that no event of a batch has changed is what it was, and no key is
/// named twice among those that were touched.
pub proof fn lemma_untouched_entries_are_kept<T>(
    map: EphemeralMapView<T>,
    times: Seq<u64>,
    events: Seq<UpsertView<T>>,
)
    requires
        times.len() == events.len(),
    ensures
        ({
            let reached = advanced_by_all(begun(map), times, events);
            &&& forall|key: StickyKeyView|
                #![trigger reached.entries.contains_key(key)]
                #![trigger map.entries.contains_key(key)]
                !reached.touched.contains(key) ==> {
                    &&& reached.entries.contains_key(key) <==> map.entries.contains_key(key)
                    &&& map.entries.contains_key(key) ==> reached.entries[key] == map.entries[key]
                }
            &&& reached.touched.no_duplicates()
        }),
    decreases events.len(),
{
    if events.len() > 0 {
        let init = advanced_by_all(begun(map), times.drop_last(), events.drop_last());
        lemma_untouched_entries_are_kept(map, times.drop_last(), events.drop_last());
        let event = events.last();
        let reached = advanced(init, times.last(), event);
        assert forall|key: StickyKeyView| init.touched.contains(key) implies reached.touched.contains(
            key,
        ) by {
            let i = choose|i: int| 0 <= i < init.touched.len() && init.touched[i] == key;
            assert(reached.touched[i] == key);
        }
        if !(effect(init.entries, times.last(), event) is Ignored) && !init.touched.contains(
            event.key,
        ) {
            assert(reached.touched.last() == event.key);
            assert(reached.touched.contains(event.key));
        }
        assert forall|key: StickyKeyView|
            #![trigger reached.entries.contains_key(key)]
            #![trigger map.entries.contains_key(key)]
            !reached.touched.contains(key) implies {
            &&& reached.entries.contains_key(key) <==> map.entries.contains_key(key)
            &&& map.entries.contains_key(key) ==> reached.entries[key] == map.entries[key]
        } by {
            assert(!init.touched.contains(key));
            assert(init.entries.contains_key(key) <==> map.entries.contains_key(key));
        }
    }
}

/// A net update names a key where, and as, the net effect says.
pub proof fn lemma_net_update_names<T>(
    before: Entries<T>,
    after: Entries<T>,
    keys: Seq<StickyKeyView>,
)
    ensures
        ({
            let update = net_update(before, after, keys);
            &&& forall|key: StickyKeyView| #[trigger]
                update.added.contains(key) <==> keys.contains(key) && net_effect(
                    before,
                    after,
                    key,
                ) is Added
            &&& forall|key: StickyKeyView| #[trigger]
                update.updated.contains(key) <==> keys.contains(key) && net_effect(
                    before,
                    after,
                    key,
                ) is Updated
            &&& forall|key: StickyKeyView, reason: RemovalReason| #[trigger]
                update.removed.contains((key, reason)) <==> {
                    &&& keys.contains(key)
                    &&& net_effect(before, after, key) is Removed
                    &&& reason == RemovalReason::Replaced
                }
            &&& keys.no_duplicates() ==> {
                &&& update.added.no_duplicates()
                &&& update.updated.no_duplicates()
                &&& update.removed.no_duplicates()
            }
        }),
    decreases keys.len(),
{
    if keys.len() > 0 {
        let init = keys.drop_last();
        let last = keys.last();
        let earlier = net_update(before, after, init);
        let update = net_update(before, after, keys);
        lemma_net_update_names(before, after, init);
        assert forall|key: StickyKeyView| #[trigger] keys.contains(key) <==> init.contains(key)
            || key == last by {
            if init.contains(key) {
                let i = choose|i: int| 0 <= i < init.len() && init[i] == key;
                assert(keys[i] == key);
            }
            if key == last {
                assert(keys[keys.len() - 1] == key);
            }
            if keys.contains(key) && key != last {
                let i = choose|i: int| 0 <= i < keys.len() && keys[i] == key;
                assert(init[i] == key);
            }
        }
        if keys.no_duplicates() {
            assert(!init.contains(last));
            assert(init.no_duplicates());
        }
        match net_effect(before, after, last) {
            Effect::Ignored => {},
            Effect::Added => {
                lemma_push_contains(earlier.added, last);
            },
            Effect::Updated => {
                lemma_push_contains(earlier.updated, last);
            },
            Effect::Removed => {
                lemma_push_contains(earlier.removed, (last, RemovalReason::Replaced));
            },
        }
    } else {
        let update = net_update(before, after, keys);
        assert(update.added.len() == 0);
    }
}

/// What a sequence contains after a push.
proof fn lemma_push_contains<A>(items: Seq<A>, item: A)
    ensures
        forall|a: A| #[trigger] items.push(item).contains(a) <==> items.contains(a) || a == item,
        items.no_duplicates() && !items.contains(item) ==> items.push(item).no_duplicates(),
{
    assert forall|a: A| #[trigger] items.push(item).contains(a) <==> items.contains(a) || a
        == item by {
        if items.contains(a) {
            let i = choose|i: int| 0 <= i < items.len() && items[i] == a;
            assert(items.push(item)[i] == a);
        }
        if a == item {
            assert(items.push(item)[items.len() as int] == a);
        }
    }
}

/// The update of a batch is empty exactly if, all in all, the batch changes
/// nothing. The entries are then as before.
pub proof fn lemma_empty_update_means_no_change<T>(
    map: EphemeralMapView<T>,
    times: Seq<u64>,
    events: Seq<UpsertView<T>>,
)
    requires
        times.len() == events.len(),
    ensures
        ({
            let reached = advanced_by_all(begun(map), times, events);
            &&& net_update(map.entries, reached.entries, reached.touched)
                == StickyEventsUpdateView::empty() <==> !changes(map.entries, reached)
            &&& !changes(map.entries, reached) ==> reached.entries == map.entries
        }),
{
    let reached = advanced_by_all(begun(map), times, events);
    let (before, after, touched) = (map.entries, reached.entries, reached.touched);
    let update = net_update(before, after, touched);
    lemma_untouched_entries_are_kept(map, times, events);
    lemma_net_update_names(before, after, touched);
    if changes(before, reached) {
        let key = choose|key: StickyKeyView| #[trigger]
            touched.contains(key) && (before.contains_key(key) || after.contains_key(key));
        assert({
            ||| update.added.contains(key)
            ||| update.updated.contains(key)
            ||| update.removed.contains((key, RemovalReason::Replaced))
        });
    } else {
        if update.added.len() > 0 {
            assert(update.added.contains(update.added[0]));
        }
        if update.updated.len() > 0 {
            assert(update.updated.contains(update.updated[0]));
        }
        if update.removed.len() > 0 {
            assert(update.removed.contains((update.removed[0].0, update.removed[0].1)));
        }
        assert(update =~= StickyEventsUpdateView::empty());
        assert forall|key: StickyKeyView| before.contains_key(key) == #[trigger] after.contains_key(
            key,
        ) by {}
        assert(after =~= before);
    }
}

} // verus!
