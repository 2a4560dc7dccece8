//! What becomes of the sticky events of a sync response, told of what the events
//! say and of where they are found afterwards.

use crate::event::TimelineEventKind;
use crate::extract::StickyCandidate;
use crate::handle::ParkedEvent;
use crate::manager::{Decryption, ResolveInput, RoomKeyNews, Settled};
use crate::raw::RawJson;
use vstd::prelude::*;

verus! {

use crate::event::event_text;
use crate::extract::{
    content_of, extract_of, meta_of, resolved_from, StickyCandidateView,
    StickyExtractView,
};
use crate::handle::{ingested, StickyEventsView};
use crate::key::StickyKeyView;
use crate::manager::{
    concerned_rooms, is_unreadable, parked_of, resolved_of, settle_outcome, settlement,
    settlement_of_decrypted, sticky_among, SettledView,
};
use crate::map_laws::prevails;
use crate::model::{batch_applied, upserted, EphemeralMapView, UpsertView};
use crate::raw::{json_member_names, json_optional_string, json_string, json_text};
use crate::rooms::id_views;

/// What became of an event stands for just that.
pub proof fn law_settled_is_its_parts<I>(
    parked: ParkedEvent,
    candidate: StickyCandidate,
    kind: TimelineEventKind<I>,
)
    ensures
        Settled::<I>::Dropped@ == SettledView::<I>::Dropped,
        Settled::<I>::Parked(parked)@ == SettledView::<I>::Parked(parked),
        Settled::Resolved((candidate, kind))@ == SettledView::Resolved(candidate@, kind),
{
}

/// A plaintext sticky event is resolved to exactly the candidate that it classifies
/// as, in every part, and is kept as a plaintext event; one that is not sticky is
/// dropped. What came of a decryption makes no difference to either.
pub proof fn law_plaintext_event_settles_as_it_classifies<I>(input: ResolveInput<I>)
    ensures
        extract_of(input.received_ts, input.event@) is NotSticky <==> {
            &&& settlement(input) is Dropped
            &&& !(extract_of(input.received_ts, input.event@) is NeedsDecryption)
        },
        extract_of(input.received_ts, input.event@) matches StickyExtractView::Sticky(candidate)
            ==> {
            &&& settlement(input) is Resolved
            &&& settlement(input)->Resolved_0 == candidate
            &&& settlement(input)->Resolved_1 == (TimelineEventKind::<I>::PlainText {
                event: input.event,
            })
        },
{
}

/// An encrypted sticky event that could not be decrypted, or still cannot be read,
/// is parked as it came, with the time at which it was received. One that was
/// decrypted is resolved, if it has a type, to the candidate that its metadata and
/// the decrypted event make, and is kept as the decryption gave it back; without a
/// type it is dropped.
pub proof fn law_encrypted_event_settles_by_its_decryption<I>(
    received_ts: u64,
    event: RawJson,
    kind: TimelineEventKind<I>,
)
    requires
        extract_of(received_ts, event@) is NeedsDecryption,
    ensures
        ({
            let meta = extract_of(received_ts, event@)->NeedsDecryption_0;
            let done = settlement(
                ResolveInput { received_ts, event, decryption: Decryption::Done(kind) },
            );
            let name = json_string(event_text(kind)@, "type"@);
            let parked = SettledView::<I>::Parked((received_ts, event));
            &&& settlement(
                ResolveInput::<I> { received_ts, event, decryption: Decryption::NotAttempted },
            ) == parked
            &&& settlement(
                ResolveInput::<I> { received_ts, event, decryption: Decryption::Failed },
            ) == parked
            &&& kind is UnableToDecrypt || name == Some("m.room.encrypted"@) ==> done == parked
            &&& !(kind is UnableToDecrypt) && name is None ==> done is Dropped
            &&& !(kind is UnableToDecrypt) && name is Some && name->0 != "m.room.encrypted"@ ==> {
                &&& done is Resolved
                &&& Some(done->Resolved_0) == resolved_from(meta, event_text(kind)@)
                &&& done->Resolved_1 == kind
            }
        }),
{
}

/// By value: what still cannot be read is parked as it came, and otherwise the
/// candidate, if there is one, goes in with what the decryption gave back.
pub proof fn law_decrypted_event_goes_in_if_it_can_be_read<I>(
    parked: ParkedEvent,
    kind: TimelineEventKind<I>,
    event_type: Option<Seq<char>>,
    candidate: StickyCandidateView,
)
    ensures
        is_unreadable(kind, event_type) <==> kind is UnableToDecrypt || event_type == Some(
            "m.room.encrypted"@,
        ),
        kind is UnableToDecrypt || event_type == Some("m.room.encrypted"@) ==> {
            &&& settlement_of_decrypted(parked, kind, event_type, Some(candidate))
                == SettledView::<I>::Parked(parked)
            &&& settlement_of_decrypted(parked, kind, event_type, None) == SettledView::<
                I,
            >::Parked(parked)
        },
        !(kind is UnableToDecrypt || event_type == Some("m.room.encrypted"@)) ==> {
            &&& settlement_of_decrypted(parked, kind, event_type, Some(candidate))
                == SettledView::Resolved(candidate, kind)
            &&& settlement_of_decrypted(parked, kind, event_type, None) is Dropped
        },
{
}

/// What is picked out of a sync response is exactly the events that do not classify
/// as not sticky, in order, each with the time at which it was received.
pub proof fn law_every_sticky_event_is_picked(events: Seq<RawJson>, now: u64)
    ensures
        sticky_among(events, now) == events.filter(
            |event: RawJson| !(extract_of(now, event@) is NotSticky),
        ).map_values(|event: RawJson| (now, event)),
    decreases events.len(),
{
    reveal(Seq::filter);
    let sticky = |event: RawJson| !(extract_of(now, event@) is NotSticky);
    let timed = |event: RawJson| (now, event);
    if events.len() > 0 {
        law_every_sticky_event_is_picked(events.drop_last(), now);
        if sticky(events.last()) {
            assert(events.filter(sticky).map_values(timed) =~= events.drop_last().filter(
                sticky,
            ).map_values(timed).push(timed(events.last())));
        }
    } else {
        assert(events.filter(sticky).map_values(timed) =~= Seq::empty());
    }
}

/// An event is picked exactly if it has sticky metadata and a type, whether or not
/// it has a sticky key or is encrypted.
pub proof fn law_event_with_metadata_and_type_is_picked(
    events: Seq<RawJson>,
    now: u64,
    event: RawJson,
)
    ensures
        sticky_among(events, now).contains((now, event)) <==> {
            &&& events.contains(event)
            &&& meta_of(now, event@) is Some
            &&& json_string(event@, "type"@) is Some
        },
        forall|k: int|
            0 <= k < sticky_among(events, now).len() ==> (#[trigger] sticky_among(
                events,
                now,
            )[k]).0 == now,
    decreases events.len(),
{
    let picked = sticky_among(events, now);
    if events.len() > 0 {
        let init = events.drop_last();
        let last = events.last();
        let before = sticky_among(init, now);
        law_event_with_metadata_and_type_is_picked(init, now, event);
        assert(events.contains(event) <==> init.contains(event) || event == last) by {
            if init.contains(event) {
                let i = choose|i: int| 0 <= i < init.len() && init[i] == event;
                assert(events[i] == event);
            }
            if event == last {
                assert(events[events.len() - 1] == event);
            }
            if events.contains(event) && event != last {
                let i = choose|i: int| 0 <= i < events.len() && events[i] == event;
                assert(init[i] == event);
            }
        }
        if before.contains((now, event)) {
            let k = choose|k: int| 0 <= k < before.len() && before[k] == (now, event);
            assert(picked[k] == (now, event));
        }
        if picked.contains((now, event)) {
            let k = choose|k: int| 0 <= k < picked.len() && picked[k] == (now, event);
            if k < before.len() {
                assert(before[k] == (now, event));
            }
        }
        if event == last && !(extract_of(now, last@) is NotSticky) {
            assert(picked.last() == (now, event));
        }
    }
}

/// Those that go into the map are the events that were resolved, in order, each as
/// its candidate with its event; those that are parked are the ones that were to
/// be, in order, as they came.
pub proof fn law_settled_events_are_sorted_in_order<I>(inputs: Seq<ResolveInput<I>>)
    ensures
        resolved_of(inputs) == inputs.filter(
            |input: ResolveInput<I>| settlement(input) is Resolved,
        ).map_values(
            |input: ResolveInput<I>|
                UpsertView {
                    key: settlement(input)->Resolved_0.key,
                    value: settlement(input)->Resolved_1,
                    event_id: settlement(input)->Resolved_0.event_id,
                    end_time: settlement(input)->Resolved_0.end_time,
                    is_removal: settlement(input)->Resolved_0.is_removal,
                },
        ),
        parked_of(inputs) == inputs.filter(
            |input: ResolveInput<I>| settlement(input) is Parked,
        ).map_values(|input: ResolveInput<I>| (input.received_ts, input.event)),
    decreases inputs.len(),
{
    reveal(Seq::filter);
    let is_resolved = |input: ResolveInput<I>| settlement(input) is Resolved;
    let upsert = |input: ResolveInput<I>|
        UpsertView {
            key: settlement(input)->Resolved_0.key,
            value: settlement(input)->Resolved_1,
            event_id: settlement(input)->Resolved_0.event_id,
            end_time: settlement(input)->Resolved_0.end_time,
            is_removal: settlement(input)->Resolved_0.is_removal,
        };
    let is_parked = |input: ResolveInput<I>| settlement(input) is Parked;
    let parked = |input: ResolveInput<I>| (input.received_ts, input.event);
    if inputs.len() > 0 {
        let init = inputs.drop_last();
        let last = inputs.last();
        law_settled_events_are_sorted_in_order(init);
        if is_resolved(last) {
            assert(inputs.filter(is_resolved).map_values(upsert) =~= init.filter(
                is_resolved,
            ).map_values(upsert).push(upsert(last)));
        }
        if is_parked(last) {
            assert(inputs.filter(is_parked).map_values(parked) =~= init.filter(
                is_parked,
            ).map_values(parked).push(parked(last)));
        }
    } else {
        assert(inputs.filter(is_resolved).map_values(upsert) =~= Seq::empty());
        assert(inputs.filter(is_parked).map_values(parked) =~= Seq::empty());
    }
}

/// Settling a room does to its map what a batch of the resolved events does, puts
/// the events that wait after those that are parked, and starts the task if there
/// is any of either; it changes nothing else.
pub proof fn law_settling_files_and_parks<I>(
    before: StickyEventsView<I>,
    times: Seq<u64>,
    inputs: Seq<ResolveInput<I>>,
    after: StickyEventsView<I>,
)
    requires
        settle_outcome(before, times, inputs, after),
    ensures
        after.map == batch_applied(before.map, times, resolved_of(inputs)),
        after.pending == before.pending + parked_of(inputs),
        after.persisting == before.persisting,
        after.pending_wakeups == before.pending_wakeups + (if parked_of(inputs).len() > 0 {
            1int
        } else {
            0
        }),
        after.task_started <==> before.task_started || resolved_of(inputs).len() > 0 || parked_of(
            inputs,
        ).len() > 0,
{
    let between = ingested(before, times, resolved_of(inputs));
    crate::handle_laws::law_ingesting_is_a_batch_on_the_map(
        before,
        times,
        resolved_of(inputs),
        between,
    );
    crate::handle_laws::law_parking_appends_and_taking_empties(between, parked_of(inputs));
}

proof fn lemma_batch_of_one<T>(
    map: EphemeralMapView<T>,
    times: Seq<u64>,
    events: Seq<UpsertView<T>>,
)
    requires
        times.len() == 1,
        events.len() == 1,
    ensures
        batch_applied(map, times, events).entries == upserted(map, times[0], events[0]).entries,
{
    assert(times =~= Seq::<u64>::empty().push(times[0]));
    assert(events =~= Seq::<UpsertView<T>>::empty().push(events[0]));
    crate::map_laws::law_batch_goes_event_by_event(
        map,
        Seq::empty(),
        Seq::empty(),
        times[0],
        events[0],
    );
}

/// Settling a plaintext event whose content has no member but sticky keys takes
/// away the entry of its sender, type and sticky key, if it prevails over it: no
/// entry is left for that key, whatever the times.
pub proof fn law_plaintext_removal_removes<I>(
    before: StickyEventsView<I>,
    times: Seq<u64>,
    input: ResolveInput<I>,
    after: StickyEventsView<I>,
    content: Seq<char>,
    names: Set<Seq<char>>,
    unstable_key: Option<Seq<char>>,
    stable_key: Option<Seq<char>>,
)
    requires
        settle_outcome(before, times, seq![input], after),
        meta_of(input.received_ts, input.event@) is Some,
        json_string(input.event@, "type"@) is Some,
        json_string(input.event@, "type"@) != Some("m.room.encrypted"@),
        json_text(input.event@, "content"@) == Some(content),
        json_optional_string(content, "msc4354_sticky_key"@) == Some(unstable_key),
        json_optional_string(content, "sticky_key"@) == Some(stable_key),
        json_member_names(input.event@, "content"@) == Some(names),
        forall|name: Seq<char>| #[trigger]
            names.contains(name) ==> name == "msc4354_sticky_key"@ || name == "sticky_key"@,
    ensures
        ({
            let meta = meta_of(input.received_ts, input.event@)->0;
            let key = StickyKeyView {
                sender: meta.sender,
                event_type: json_string(input.event@, "type"@)->0,
                sticky_key: if unstable_key is Some { unstable_key } else { stable_key },
            };
            let removal = UpsertView {
                key,
                value: TimelineEventKind::<I>::PlainText { event: input.event },
                event_id: meta.event_id,
                end_time: meta.end_time,
                is_removal: true,
            };
            &&& prevails(before.map.entries, removal) ==> !after.map.entries.contains_key(key)
            &&& !prevails(before.map.entries, removal) ==> after.map.entries == before.map.entries
            &&& forall|other: StickyKeyView| #[trigger]
                after.map.entries.contains_key(other) <==> before.map.entries.contains_key(other)
                    && !(other == key && prevails(before.map.entries, removal))
            &&& after.pending == before.pending
        }),
{
    let inputs = seq![input];
    assert(inputs.drop_last() =~= Seq::empty());
    assert(inputs.last() == input);
    law_settling_files_and_parks(before, times, inputs, after);
    let events = resolved_of(inputs);
    assert(content_of(input.event@).is_bare);
    assert(settlement(input) is Resolved);
    assert(resolved_of(inputs.drop_last()) =~= Seq::empty());
    assert(parked_of(inputs.drop_last()) =~= Seq::empty());
    lemma_batch_of_one(before.map, times, events);
    assert(before.pending + Seq::<ParkedEvent>::empty() =~= before.pending);
}

/// Settling one plaintext event that is no removal, prevails over the entry of its
/// key and has not expired when it arrives files it under its sender, type and
/// sticky key, if any, with its own event id and expiry time.
pub proof fn law_plaintext_event_is_filed<I>(
    before: StickyEventsView<I>,
    times: Seq<u64>,
    input: ResolveInput<I>,
    after: StickyEventsView<I>,
    candidate: StickyCandidateView,
)
    requires
        settle_outcome(before, times, seq![input], after),
        extract_of(input.received_ts, input.event@) == StickyExtractView::Sticky(candidate),
        !candidate.is_removal,
        candidate.end_time > times[0],
        !before.map.entries.contains_key(candidate.key)
            || before.map.entries[candidate.key].end_time < candidate.end_time,
    ensures
        after.map.entries.contains_key(candidate.key),
        after.map.entries[candidate.key].value == (TimelineEventKind::<I>::PlainText {
            event: input.event,
        }),
        after.map.entries[candidate.key].event_id == candidate.event_id,
        after.map.entries[candidate.key].end_time == candidate.end_time,
{
    let inputs = seq![input];
    assert(inputs.drop_last() =~= Seq::empty());
    assert(inputs.last() == input);
    law_settling_files_and_parks(before, times, inputs, after);
    let events = resolved_of(inputs);
    assert(resolved_of(inputs.drop_last()) =~= Seq::empty());
    lemma_batch_of_one(before.map, times, events);
}

/// News of room keys concerns the rooms that it names, or every room there is where
/// news was missed.
pub proof fn law_news_concerns_the_rooms_named(rooms: Vec<String>, id: Seq<char>)
    ensures
        concerned_rooms(RoomKeyNews::Received(rooms)).contains(id) <==> exists|i: int|
            0 <= i < rooms@.len() && #[trigger] rooms@[i]@ == id,
        concerned_rooms(RoomKeyNews::Missed { known_rooms: rooms }).contains(id) <==> exists|i: int|
            0 <= i < rooms@.len() && #[trigger] rooms@[i]@ == id,
{
    crate::rooms::law_listed_rooms_are_those_named(rooms@, id);
    assert(concerned_rooms(RoomKeyNews::Received(rooms)) == id_views(rooms@));
}

} // verus!
