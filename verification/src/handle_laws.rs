//! What each operation on the store of a room does, told of what goes in and what
//! comes out.

use crate::event::TimelineEventKind;
use crate::eviction::{UpdateReceipt, Wakeup};
use crate::extract::StickyCandidate;
use crate::handle::{
    MaintenanceStart, ParkedEvent, PersistedPendingStickyEvent, PersistedStickyEvent,
    StickyLiveEvent, StoreWrite,
};
use vstd::prelude::*;

verus! {

use crate::channel::{missed_updates, wakeup_count};
use crate::extract::StickyCandidateView;
use crate::handle::{
    candidate_upsert, candidate_upserts, ingest_outcome, is_start,
    lemma_distinct_events_are_restored, live_listing, load_outcome, load_pending_outcome,
    maintenance_outcome, may_be_live, pending_listing, persisted_listing, persisted_upsert,
    restored, restored_pending, with_parked, without_parked, StickyEventsView,
};
use crate::key::StickyKeyView;
use crate::model::{
    are_expired_keys, batch_applied, evicted, lists, live_entries, Entries, UpsertView,
};

/// The key that a record names by its sender, type and sticky key.
pub open spec fn record_key<I>(record: PersistedStickyEvent<I>) -> StickyKeyView {
    StickyKeyView {
        sender: record.sender@,
        event_type: record.event_type@,
        sticky_key: match record.sticky_key {
            Some(text) => Some(text@),
            None => None,
        },
    }
}

/// A new store is empty, has nothing parked, has not started its task, and writes
/// exactly if it is to.
pub proof fn law_new_store_is_empty<I>(persisting: bool, key: StickyKeyView)
    ensures
        !StickyEventsView::<I>::empty(persisting).map.entries.contains_key(key),
        StickyEventsView::<I>::empty(persisting).map.published.len() == 0,
        StickyEventsView::<I>::empty(persisting).pending.len() == 0,
        StickyEventsView::<I>::empty(persisting).pending_wakeups == 0,
        StickyEventsView::<I>::empty(persisting).persisting == persisting,
        !StickyEventsView::<I>::empty(persisting).task_started,
{
}

/// The task is started exactly when there is need of it and it does not run yet.
/// With a store to write to it follows the updates from here on and the parked
/// buffer; without one, neither.
pub proof fn law_task_starts_when_needed<I>(
    start: Option<MaintenanceStart>,
    before: StickyEventsView<I>,
    needed: bool,
)
    requires
        is_start(start, before, needed),
    ensures
        start is Some <==> needed && !before.task_started,
        start is Some && before.persisting ==> {
            &&& start->0.updates is Some
            &&& missed_updates(start->0.updates->0) == before.map.published
            &&& start->0.pending_changed is Some
            &&& wakeup_count(*start->0.pending_changed->0) == before.pending_wakeups
        },
        start is Some && !before.persisting ==> start->0.updates is None
            && start->0.pending_changed is None,
{
}

/// A record goes back into the map under its own sender, type and sticky key, with
/// its own event, event id and expiry time, and is no removal.
pub proof fn law_record_is_loaded_field_by_field<I>(record: PersistedStickyEvent<I>)
    ensures
        persisted_upsert(record).key.sender == record.sender@,
        persisted_upsert(record).key.event_type == record.event_type@,
        record.sticky_key is None <==> persisted_upsert(record).key.sticky_key is None,
        record.sticky_key matches Some(text) ==> persisted_upsert(record).key.sticky_key == Some(
            text@,
        ),
        persisted_upsert(record).value == record.kind,
        persisted_upsert(record).event_id == record.event_id@,
        persisted_upsert(record).end_time == record.end_time,
        !persisted_upsert(record).is_removal,
{
}

/// What goes back into the map is each record that has not expired, once and in
/// order, and nothing else.
pub proof fn law_unexpired_records_go_back<I>(records: Seq<PersistedStickyEvent<I>>, now: u64)
    ensures
        restored(records, now) == records.filter(
            |record: PersistedStickyEvent<I>| record.end_time > now,
        ).map_values(
            |record: PersistedStickyEvent<I>|
                UpsertView {
                    key: record_key(record),
                    value: record.kind,
                    event_id: record.event_id@,
                    end_time: record.end_time,
                    is_removal: false,
                },
        ),
    decreases records.len(),
{
    reveal(Seq::filter);
    let live = |record: PersistedStickyEvent<I>| record.end_time > now;
    let upsert = |record: PersistedStickyEvent<I>|
        UpsertView {
            key: record_key(record),
            value: record.kind,
            event_id: record.event_id@,
            end_time: record.end_time,
            is_removal: false,
        };
    if records.len() > 0 {
        law_unexpired_records_go_back(records.drop_last(), now);
        let last = records.last();
        assert(persisted_upsert(last) == upsert(last));
        if last.end_time > now {
            assert(records.filter(live).map_values(upsert) =~= records.drop_last().filter(
                live,
            ).map_values(upsert).push(upsert(last)));
        }
    } else {
        assert(records.filter(live).map_values(upsert) =~= Seq::empty());
    }
}

/// Loaded into a new store, a record that is still live makes an entry under its own
/// sender, type and sticky key, with its own event, event id and expiry time; and
/// every entry there is such a record.
pub proof fn law_loaded_record_is_found_under_its_own_key<I>(
    records: Seq<PersistedStickyEvent<I>>,
    now: u64,
    times: Seq<u64>,
    later: u64,
    persisting: bool,
    after: StickyEventsView<I>,
    start: Option<MaintenanceStart>,
    i: int,
    key: StickyKeyView,
)
    requires
        load_outcome(StickyEventsView::empty(persisting), now, times, records, after, start),
        forall|a: int, b: int|
            0 <= a < b < records.len() ==> record_key(#[trigger] records[a]) != record_key(
                #[trigger] records[b],
            ),
        now <= later,
        forall|n: int| 0 <= n < times.len() ==> #[trigger] times[n] <= later,
    ensures
        0 <= i < records.len() && records[i].end_time > later ==> {
            &&& after.map.entries.contains_key(record_key(records[i]))
            &&& after.map.entries[record_key(records[i])].value == records[i].kind
            &&& after.map.entries[record_key(records[i])].event_id == records[i].event_id@
            &&& after.map.entries[record_key(records[i])].end_time == records[i].end_time
        },
        after.map.entries.contains_key(key) ==> exists|n: int|
            0 <= n < records.len() && record_key(#[trigger] records[n]) == key,
{
    assert forall|n: int| 0 <= n < records.len() implies persisted_upsert(
        #[trigger] records[n],
    ).key == record_key(records[n]) by {}
    lemma_distinct_events_are_restored(records, now, times, later, persisting);
    if 0 <= i < records.len() && records[i].end_time > later {
        assert(persisted_upsert(records[i]).key == record_key(records[i]));
    }
}

/// Loading records changes only the map, and starts the task exactly if a record
/// has not expired; if all have, nothing changes.
pub proof fn law_loading_changes_only_the_map<I>(
    before: StickyEventsView<I>,
    now: u64,
    times: Seq<u64>,
    records: Seq<PersistedStickyEvent<I>>,
    after: StickyEventsView<I>,
    start: Option<MaintenanceStart>,
)
    requires
        load_outcome(before, now, times, records, after, start),
    ensures
        after.pending == before.pending,
        after.pending_wakeups == before.pending_wakeups,
        after.persisting == before.persisting,
        (forall|i: int| 0 <= i < records.len() ==> (#[trigger] records[i]).end_time <= now) ==> {
            &&& after == before
            &&& start is None
        },
        (exists|i: int| 0 <= i < records.len() && (#[trigger] records[i]).end_time > now) ==> {
            &&& after.task_started
            &&& start is Some <==> !before.task_started
        },
{
    lemma_restored_some(records, now);
}

proof fn lemma_restored_some<I>(records: Seq<PersistedStickyEvent<I>>, now: u64)
    ensures
        restored(records, now).len() > 0 <==> exists|i: int|
            0 <= i < records.len() && (#[trigger] records[i]).end_time > now,
    decreases records.len(),
{
    if records.len() > 0 {
        let init = records.drop_last();
        lemma_restored_some(init, now);
        assert(records[records.len() - 1] == records.last());
        if exists|i: int| 0 <= i < init.len() && (#[trigger] init[i]).end_time > now {
            let i = choose|i: int| 0 <= i < init.len() && (#[trigger] init[i]).end_time > now;
            assert(records[i].end_time > now);
        }
        if exists|i: int| 0 <= i < records.len() && (#[trigger] records[i]).end_time > now {
            let i = choose|i: int|
                0 <= i < records.len() && (#[trigger] records[i]).end_time > now;
            if i < init.len() {
                assert(init[i].end_time > now);
            }
        }
    }
}

/// A parked event is kept exactly if it was received less than one hour ago.
pub proof fn law_parked_event_is_kept_for_one_hour(received_ts: u64, now: u64)
    ensures
        received_ts + 3_600_000 <= u64::MAX ==> (may_be_live(received_ts, now) <==> now
            < received_ts + 3_600_000),
        received_ts + 3_600_000 > u64::MAX ==> (may_be_live(received_ts, now) <==> now < u64::MAX),
{
}

/// Loading parked events adds to the buffer, in order, each of them that was
/// received less than one hour ago, with the time at which it was received, and
/// nothing else. It changes nothing else but that it starts the task if there are
/// any.
pub proof fn law_recent_parked_events_are_loaded<I>(
    before: StickyEventsView<I>,
    now: u64,
    records: Seq<PersistedPendingStickyEvent>,
    after: StickyEventsView<I>,
    start: Option<MaintenanceStart>,
)
    requires
        load_pending_outcome(before, now, records, after, start),
    ensures
        ({
            let recent = records.filter(
                |record: PersistedPendingStickyEvent| may_be_live(record.received_ts, now),
            ).map_values(
                |record: PersistedPendingStickyEvent| (record.received_ts, record.event),
            );
            &&& after.pending == before.pending + recent
            &&& after.map == before.map
            &&& after.pending_wakeups == before.pending_wakeups
            &&& after.persisting == before.persisting
            &&& after.task_started <==> before.task_started || recent.len() > 0
            &&& start is Some <==> recent.len() > 0 && !before.task_started
        }),
{
    lemma_recent_parked_events(records, now);
    assert(before.pending + Seq::<ParkedEvent>::empty() =~= before.pending);
    if restored_pending(records, now).len() == 0 {
        assert(restored_pending(records, now) =~= Seq::empty());
    }
}

proof fn lemma_recent_parked_events(records: Seq<PersistedPendingStickyEvent>, now: u64)
    ensures
        restored_pending(records, now) == records.filter(
            |record: PersistedPendingStickyEvent| may_be_live(record.received_ts, now),
        ).map_values(|record: PersistedPendingStickyEvent| (record.received_ts, record.event)),
    decreases records.len(),
{
    reveal(Seq::filter);
    let recent = |record: PersistedPendingStickyEvent| may_be_live(record.received_ts, now);
    let parked = |record: PersistedPendingStickyEvent| (record.received_ts, record.event);
    if records.len() > 0 {
        lemma_recent_parked_events(records.drop_last(), now);
        let last = records.last();
        if may_be_live(last.received_ts, now) {
            assert(records.filter(recent).map_values(parked) =~= records.drop_last().filter(
                recent,
            ).map_values(parked).push(parked(last)));
        }
    } else {
        assert(records.filter(recent).map_values(parked) =~= Seq::empty());
    }
}

/// A candidate goes into the map under its own key, with its own event id, expiry
/// time and mark of removal, and with the event given for it.
pub proof fn law_candidate_goes_in_as_it_is<I>(
    items: Seq<(StickyCandidate, TimelineEventKind<I>)>,
    candidate: StickyCandidateView,
    kind: TimelineEventKind<I>,
    i: int,
)
    ensures
        candidate_upserts(items).len() == items.len(),
        0 <= i < items.len() ==> {
            &&& candidate_upserts(items)[i].key == items[i].0.key@
            &&& candidate_upserts(items)[i].value == items[i].1
            &&& candidate_upserts(items)[i].event_id == items[i].0.event_id@
            &&& candidate_upserts(items)[i].end_time == items[i].0.end_time
            &&& candidate_upserts(items)[i].is_removal == items[i].0.is_removal
        },
        candidate_upsert(candidate, kind).key == candidate.key,
        candidate_upsert(candidate, kind).value == kind,
        candidate_upsert(candidate, kind).event_id == candidate.event_id,
        candidate_upsert(candidate, kind).end_time == candidate.end_time,
        candidate_upsert(candidate, kind).is_removal == candidate.is_removal,
{
}

/// Ingesting events does to the map what a batch of them does, starts the task if
/// there are any, and changes nothing else.
pub proof fn law_ingesting_is_a_batch_on_the_map<I>(
    before: StickyEventsView<I>,
    times: Seq<u64>,
    events: Seq<UpsertView<TimelineEventKind<I>>>,
    after: StickyEventsView<I>,
)
    requires
        ingest_outcome(before, times, events, after),
    ensures
        after.map == batch_applied(before.map, times, events),
        after.pending == before.pending,
        after.pending_wakeups == before.pending_wakeups,
        after.persisting == before.persisting,
        after.task_started <==> before.task_started || events.len() > 0,
        times.len() == events.len(),
{
    if events.len() == 0 {
        assert(times =~= Seq::empty());
        assert(events =~= Seq::empty());
        crate::map_laws::law_batch_goes_event_by_event(
            before.map,
            times,
            events,
            0,
            arbitrary(),
        );
    }
}

/// Parking events puts them after those that are parked, in order, tells the task
/// that the buffer changed, and sees that it runs; parking none changes nothing.
/// Taking the parked events leaves none, and tells the task if there were any.
/// Neither touches the map.
pub proof fn law_parking_appends_and_taking_empties<I>(
    before: StickyEventsView<I>,
    events: Seq<ParkedEvent>,
)
    ensures
        ({
            let parked = with_parked(before, events);
            &&& parked.pending == before.pending + events
            &&& parked.map == before.map
            &&& parked.persisting == before.persisting
            &&& parked.pending_wakeups == before.pending_wakeups + (if events.len() > 0 {
                1int
            } else {
                0
            })
            &&& parked.task_started <==> before.task_started || events.len() > 0
        }),
        ({
            let taken = without_parked(before);
            &&& taken.pending.len() == 0
            &&& taken.map == before.map
            &&& taken.persisting == before.persisting
            &&& taken.task_started == before.task_started
            &&& taken.pending_wakeups == before.pending_wakeups + (if before.pending.len() > 0 {
                1int
            } else {
                0
            })
        }),
{
    if events.len() == 0 {
        assert(before.pending + events =~= before.pending);
    }
}

/// The live events that are handed out are the live entries, each once: under its
/// own key, with its own event, event id and expiry time.
pub proof fn law_live_events_are_the_live_entries<I>(
    live: Seq<StickyLiveEvent<I>>,
    entries: Entries<TimelineEventKind<I>>,
    now: u64,
    i: int,
    j: int,
    key: StickyKeyView,
)
    requires
        lists(live_listing(live), live_entries(entries, now)),
    ensures
        0 <= i < live.len() ==> {
            &&& entries.contains_key(live[i].key@)
            &&& entries[live[i].key@].end_time > now
            &&& entries[live[i].key@].value == live[i].kind
            &&& entries[live[i].key@].event_id == live[i].event_id@
            &&& entries[live[i].key@].end_time == live[i].expires_at_ms
        },
        0 <= i < j < live.len() ==> live[i].key@ != live[j].key@,
        entries.contains_key(key) && entries[key].end_time > now ==> exists|n: int|
            0 <= n < live.len() && (#[trigger] live[n]).key@ == key,
{
    let pairs = live_listing(live);
    if 0 <= i < live.len() {
        assert(live_entries(entries, now).contains_key(pairs[i].0));
    }
    if 0 <= i < j < live.len() {
        assert(pairs[i].0 != pairs[j].0);
    }
    if entries.contains_key(key) && entries[key].end_time > now {
        assert(live_entries(entries, now).contains_key(key));
        let n = choose|n: int| 0 <= n < pairs.len() && (#[trigger] pairs[n]).0 == key;
        assert(live[n].key@ == key);
    }
}

/// The records that are written are the live entries, each once: with the sender,
/// type and sticky key of its key, and its own event, event id and expiry time.
pub proof fn law_records_are_the_live_entries<I>(
    records: Seq<PersistedStickyEvent<I>>,
    entries: Entries<TimelineEventKind<I>>,
    now: u64,
    i: int,
    j: int,
    key: StickyKeyView,
)
    requires
        lists(persisted_listing(records), live_entries(entries, now)),
    ensures
        0 <= i < records.len() ==> {
            &&& entries.contains_key(record_key(records[i]))
            &&& entries[record_key(records[i])].end_time > now
            &&& entries[record_key(records[i])].value == records[i].kind
            &&& entries[record_key(records[i])].event_id == records[i].event_id@
            &&& entries[record_key(records[i])].end_time == records[i].end_time
        },
        0 <= i < j < records.len() ==> record_key(records[i]) != record_key(records[j]),
        entries.contains_key(key) && entries[key].end_time > now ==> exists|n: int|
            0 <= n < records.len() && record_key(#[trigger] records[n]) == key,
{
    let pairs = persisted_listing(records);
    assert forall|n: int| 0 <= n < records.len() implies record_key(#[trigger] records[n])
        == pairs[n].0 by {}
    if 0 <= i < records.len() {
        assert(record_key(records[i]) == pairs[i].0);
        assert(live_entries(entries, now).contains_key(pairs[i].0));
    }
    if 0 <= i < j < records.len() {
        assert(record_key(records[i]) == pairs[i].0);
        assert(record_key(records[j]) == pairs[j].0);
        assert(pairs[i].0 != pairs[j].0);
    }
    if entries.contains_key(key) && entries[key].end_time > now {
        assert(live_entries(entries, now).contains_key(key));
        let n = choose|n: int| 0 <= n < pairs.len() && (#[trigger] pairs[n]).0 == key;
        assert(record_key(records[n]) == key);
    }
}

/// The parked records that are written are the parked events, in order, each with
/// the time at which it was received.
pub proof fn law_parked_records_are_the_parked_events(
    records: Seq<PersistedPendingStickyEvent>,
    i: int,
)
    ensures
        pending_listing(records).len() == records.len(),
        0 <= i < records.len() ==> pending_listing(records)[i].0 == records[i].received_ts
            && pending_listing(records)[i].1 == records[i].event,
{
}

/// The maintenance task, at an expiry, takes away the entries whose end has come
/// and no other, and writes nothing. Told of a change, or of one that was missed,
/// it has all live entries written, if there is a store. Told that the parked
/// buffer changed, it has that written, if there is a store. In all other cases it
/// does nothing, and it never touches the parked events.
pub proof fn law_task_evicts_and_writes<I>(
    before: StickyEventsView<I>,
    now: u64,
    wakeup: Wakeup,
    after: StickyEventsView<I>,
    write: StoreWrite<I>,
    key: StickyKeyView,
)
    requires
        maintenance_outcome(before, now, wakeup, after, write),
    ensures
        after.pending == before.pending,
        after.pending_wakeups == before.pending_wakeups,
        after.persisting == before.persisting,
        after.task_started == before.task_started,
        wakeup is Expiry ==> {
            &&& write is Nothing
            &&& after.map.entries.contains_key(key) <==> before.map.entries.contains_key(key)
                && before.map.entries[key].end_time > now
            &&& after.map.entries.contains_key(key) ==> after.map.entries[key]
                == before.map.entries[key]
        },
        wakeup is Expiry ==> exists|keys: Seq<StickyKeyView>|
            are_expired_keys(keys, before.map.entries, now) && after.map == #[trigger] evicted(
                before.map,
                now,
                keys,
            ),
        !(wakeup is Expiry) ==> after == before,
        wakeup is Changed || wakeup == Wakeup::Update(UpdateReceipt::Closed) || !before.persisting
            ==> write is Nothing,
        before.persisting && (wakeup == Wakeup::Update(UpdateReceipt::Received) || wakeup
            == Wakeup::Update(UpdateReceipt::Lagged)) ==> {
            &&& write is Live
            &&& lists(persisted_listing(write->Live_0@), live_entries(before.map.entries, now))
        },
        before.persisting && wakeup is PendingChanged ==> {
            &&& write is Pending
            &&& pending_listing(write->Pending_0@) == before.pending
        },
{
}

} // verus!
