//! Client-level coordination of sticky events: which events of a sync response
//! are sticky, what becomes of each of them once its decryption was attempted,
//! and which rooms to look into again when room keys arrive.
//!
//! Plaintext sticky events are resolved immediately; encrypted ones are decrypted
//! to recover their real type and `sticky_key`, or **parked** (so they are never
//! mistakenly filed as unkeyed `m.room.encrypted` entries). Parked events are
//! retried when the room keys arrive.

use crate::clock::Clock;
use crate::event::TimelineEventKind;
use crate::extract::{classify, resolve, StickyCandidate, StickyExtract};
use crate::handle::{MaintenanceStart, ParkedEvent, StickyEvents};
use crate::raw::{read_string, RawJson};
use crate::rooms::distinct_rooms;
use crate::text::same_text;
use vstd::prelude::*;

verus! {

use crate::clock::tells_all;
use crate::event::event_text;
use crate::extract::{
    extract_of, is_encrypted, meta_of, resolved_from, type_of, StickyCandidateView,
    StickyExtractView,
};
use crate::handle::{
    candidate_upsert, candidate_upserts, ingest_outcome, ingested, is_start, with_parked,
    without_parked, StickyEventsView,
};
use crate::model::UpsertView;
use crate::rooms::{id_views, in_order};
use crate::text::optional_text;

/// How the attempt to decrypt an event came out.
#[derive(Debug)]
pub enum Decryption<I> {
    /// There was none: the event is not encrypted, or there is nothing (yet) to
    /// decrypt it with.
    NotAttempted,
    /// It failed.
    Failed,
    /// The event as the decryption gave it back.
    Done(TimelineEventKind<I>),
}

/// A raw sticky event with the local time it was first received (so a decryption
/// retry does not reset its TTL), and what came of the attempt to decrypt it.
#[derive(Debug)]
pub struct ResolveInput<I> {
    /// The local time at which the event was first received.
    pub received_ts: u64,
    /// The event as it came.
    pub event: RawJson,
    /// What came of its decryption.
    pub decryption: Decryption<I>,
}

/// A resolved sticky event, ready to upsert into the map, together with its
/// encryption data.
pub type ResolvedEvent<I> = (StickyCandidate, TimelineEventKind<I>);

/// What becomes of an event.
#[derive(Debug)]
pub enum Settled<I> {
    /// It is not sticky, or has nothing to be filed under.
    Dropped,
    /// It waits for its room key.
    Parked(ParkedEvent),
    /// It goes into the map.
    Resolved(ResolvedEvent<I>),
}

/// What a [`Settled`] stands for.
#[verifier::ext_equal]
pub enum SettledView<I> {
    Dropped,
    Parked(ParkedEvent),
    Resolved(StickyCandidateView, TimelineEventKind<I>),
}

impl<I> View for Settled<I> {
    type V = SettledView<I>;

    open spec fn view(&self) -> SettledView<I> {
        match self {
            Settled::Dropped => SettledView::Dropped,
            Settled::Parked(parked) => SettledView::Parked(*parked),
            Settled::Resolved(resolved) => SettledView::Resolved(resolved.0@, resolved.1),
        }
    }
}

/// The decryption gave back an event that still cannot be read.
pub open spec fn is_unreadable<I>(
    kind: TimelineEventKind<I>,
    event_type: Option<Seq<char>>,
) -> bool {
    kind is UnableToDecrypt || is_encrypted(event_type)
}

/// What becomes of an event whose decryption gave back `kind`, by the type of
/// that and the candidate that it makes. One that cannot be read keeps the outer
/// type, and is parked as it came; a real decryption exposes the content.
pub open spec fn settlement_of_decrypted<I>(
    parked: ParkedEvent,
    kind: TimelineEventKind<I>,
    event_type: Option<Seq<char>>,
    candidate: Option<StickyCandidateView>,
) -> SettledView<I> {
    if is_unreadable(kind, event_type) {
        SettledView::Parked(parked)
    } else {
        match candidate {
            Some(candidate) => SettledView::Resolved(candidate, kind),
            None => SettledView::Dropped,
        }
    }
}

/// What becomes of an event.
pub open spec fn settlement<I>(input: ResolveInput<I>) -> SettledView<I> {
    let parked = (input.received_ts, input.event);
    match extract_of(input.received_ts, input.event@) {
        StickyExtractView::NotSticky => SettledView::Dropped,
        StickyExtractView::Sticky(candidate) => SettledView::Resolved(
            candidate,
            TimelineEventKind::PlainText { event: input.event },
        ),
        StickyExtractView::NeedsDecryption(meta) => match input.decryption {
            Decryption::Done(kind) => settlement_of_decrypted(
                parked,
                kind,
                type_of(event_text(kind)@),
                resolved_from(meta, event_text(kind)@),
            ),
            _ => SettledView::Parked(parked),
        },
    }
}

/// Those of the events that go into the map, in order.
pub open spec fn resolved_of<I>(inputs: Seq<ResolveInput<I>>) -> Seq<
    UpsertView<TimelineEventKind<I>>,
>
    decreases inputs.len(),
{
    if inputs.len() == 0 {
        Seq::empty()
    } else {
        match settlement(inputs.last()) {
            SettledView::Resolved(candidate, kind) => resolved_of(inputs.drop_last()).push(
                candidate_upsert(candidate, kind),
            ),
            _ => resolved_of(inputs.drop_last()),
        }
    }
}

/// Those of the events that wait for their room keys, in order.
pub open spec fn parked_of<I>(inputs: Seq<ResolveInput<I>>) -> Seq<ParkedEvent>
    decreases inputs.len(),
{
    if inputs.len() == 0 {
        Seq::empty()
    } else {
        match settlement(inputs.last()) {
            SettledView::Parked(parked) => parked_of(inputs.drop_last()).push(parked),
            _ => parked_of(inputs.drop_last()),
        }
    }
}

/// Those of the events that are sticky, each with the time `now` at which they
/// were received.
pub open spec fn sticky_among(events: Seq<RawJson>, now: u64) -> Seq<ParkedEvent>
    decreases events.len(),
{
    if events.len() == 0 {
        Seq::empty()
    } else if extract_of(now, events.last()@) is NotSticky {
        sticky_among(events.drop_last(), now)
    } else {
        sticky_among(events.drop_last(), now).push((now, events.last()))
    }
}

/// Pick the events that are sticky out of those that were received at the time
/// `now`.
pub fn sticky_inputs(now: u64, events: Vec<RawJson>) -> (inputs: Vec<ParkedEvent>)
    ensures
        inputs@ == sticky_among(events@, now),
{
    let mut inputs: Vec<ParkedEvent> = Vec::new();
    let ghost all = events@;
    for event in iter: events
        invariant
            iter.seq() == all,
            inputs@ == sticky_among(all.take(iter.index() as int), now),
    {
        proof {
            let i = iter.index() as int;
            assert(all.take(i + 1).drop_last() =~= all.take(i));
            assert(all.take(i + 1).last() == event);
        }
        match classify(now, &event) {
            StickyExtract::NotSticky => {},
            StickyExtract::NeedsDecryption(_) | StickyExtract::Sticky(_) => {
                inputs.push((now, event));
            },
        }
    }
    proof {
        assert(all.take(all.len() as int) =~= all);
    }
    inputs
}

/// Whether an event has to be decrypted before it can be filed.
pub fn needs_decryption(received_ts: u64, event: &RawJson) -> (needed: bool)
    ensures
        needed <==> extract_of(received_ts, event@) is NeedsDecryption,
{
    match classify(received_ts, event) {
        StickyExtract::NeedsDecryption(_) => true,
        StickyExtract::NotSticky | StickyExtract::Sticky(_) => false,
    }
}

/// Settle an event whose decryption gave back `kind`, by the type of that and
/// the candidate that it makes.
pub fn settle_decrypted<I>(
    parked: ParkedEvent,
    kind: TimelineEventKind<I>,
    event_type: Option<String>,
    candidate: Option<StickyCandidate>,
) -> (settled: Settled<I>)
    ensures
        settled@ == settlement_of_decrypted(
            parked,
            kind,
            optional_text(event_type),
            match candidate {
                Some(candidate) => Some(candidate@),
                None => None,
            },
        ),
{
    let still_encrypted = match event_type {
        Some(event_type) => same_text(event_type.as_str(), "m.room.encrypted"),
        None => false,
    };
    let is_utd = match kind {
        TimelineEventKind::UnableToDecrypt { event: _ } => true,
        TimelineEventKind::Decrypted { event: _, encryption_info: _ } => false,
        TimelineEventKind::PlainText { event: _ } => false,
    };
    if is_utd || still_encrypted {
        Settled::Parked(parked)
    } else {
        match candidate {
            Some(candidate) => Settled::Resolved((candidate, kind)),
            None => Settled::Dropped,
        }
    }
}

/// Settle an event: into the map if it is sticky and can be read, parked if it
/// is sticky and cannot.
pub fn settle<I>(input: ResolveInput<I>) -> (settled: Settled<I>)
    ensures
        settled@ == settlement(input),
{
    let ResolveInput { received_ts, event, decryption } = input;
    match classify(received_ts, &event) {
        StickyExtract::NotSticky => Settled::Dropped,
        StickyExtract::Sticky(candidate) => {
            Settled::Resolved((candidate, TimelineEventKind::PlainText { event }))
        },
        StickyExtract::NeedsDecryption(meta) => match decryption {
            Decryption::Done(kind) => {
                let event_type = read_string(kind.raw(), "type");
                let candidate = resolve(meta, kind.raw());
                settle_decrypted((received_ts, event), kind, event_type, candidate)
            },
            // No decryption context, no olm machine (yet), or a decryption error:
            // park.
            Decryption::NotAttempted | Decryption::Failed => Settled::Parked((received_ts, event)),
        },
    }
}

/// Settle a batch of raw events: resolved candidates, and a still-to-decrypt
/// remainder.
///
/// Never fails: a missing decryption context or a decryption error parks the
/// event rather than aborting.
pub fn resolve_inputs<I>(inputs: Vec<ResolveInput<I>>) -> (outcome: (
    Vec<ResolvedEvent<I>>,
    Vec<ParkedEvent>,
))
    ensures
        candidate_upserts(outcome.0@) == resolved_of(inputs@),
        outcome.1@ == parked_of(inputs@),
{
    let mut resolved: Vec<ResolvedEvent<I>> = Vec::new();
    let mut pending: Vec<ParkedEvent> = Vec::new();
    let ghost all = inputs@;
    proof {
        assert(candidate_upserts(resolved@) =~= resolved_of(all.take(0)));
    }
    for input in iter: inputs
        invariant
            iter.seq() == all,
            candidate_upserts(resolved@) == resolved_of(all.take(iter.index() as int)),
            pending@ == parked_of(all.take(iter.index() as int)),
    {
        proof {
            let i = iter.index() as int;
            assert(all.take(i + 1).drop_last() =~= all.take(i));
            assert(all.take(i + 1).last() == input);
        }
        let ghost before = resolved@;
        match settle(input) {
            Settled::Dropped => {},
            Settled::Parked(parked) => {
                pending.push(parked);
            },
            Settled::Resolved(event) => {
                resolved.push(event);
                proof {
                    assert(candidate_upserts(resolved@) =~= candidate_upserts(before).push(
                        candidate_upsert(event.0@, event.1),
                    ));
                }
            },
        }
    }
    proof {
        assert(all.take(all.len() as int) =~= all);
    }
    (resolved, pending)
}

/// `before` became `after` when the events of a room were settled: those that
/// were resolved arrived at the given times, and the rest was parked.
pub open spec fn settle_outcome<I>(
    before: StickyEventsView<I>,
    times: Seq<u64>,
    inputs: Seq<ResolveInput<I>>,
    after: StickyEventsView<I>,
) -> bool {
    &&& times.len() == resolved_of(inputs).len()
    &&& after == with_parked(ingested(before, times, resolved_of(inputs)), parked_of(inputs))
}

/// Settle the events of a room: file what was resolved and park the rest, which
/// is retried on key arrival.
pub fn settle_room<I, C: Clock + ?Sized>(
    sticky: &mut StickyEvents<I, C>,
    inputs: Vec<ResolveInput<I>>,
) -> (start: Option<MaintenanceStart>)
    requires
        old(sticky).wf(),
    ensures
        final(sticky).wf(),
        final(sticky).clock() == old(sticky).clock(),
        final(sticky).updates_capacity() == old(sticky).updates_capacity(),
        exists|times: Seq<u64>|
            {
                &&& tells_all(&*old(sticky).clock(), times)
                &&& #[trigger] settle_outcome(old(sticky)@, times, inputs@, final(sticky)@)
            },
        is_start(
            start,
            old(sticky)@,
            resolved_of(inputs@).len() > 0 || parked_of(inputs@).len() > 0,
        ),
{
    let (resolved, pending) = resolve_inputs(inputs);
    let ghost events = candidate_upserts(resolved@);
    let start = sticky.ingest_candidates(resolved);
    let ghost between = sticky@;
    let later_start = sticky.park(pending);
    proof {
        let times = choose|times: Seq<u64>|
            tells_all(&*old(sticky).clock(), times) && #[trigger] ingest_outcome(
                old(sticky)@,
                times,
                events,
                between,
            );
        assert(settle_outcome(old(sticky)@, times, inputs@, sticky@));
    }
    match start {
        Some(start) => Some(start),
        None => later_start,
    }
}

/// The news of room keys.
#[derive(Debug)]
pub enum RoomKeyNews {
    /// Keys of the given rooms were received.
    Received(Vec<String>),
    /// Some news was missed, so it may concern any of the rooms there are.
    Missed {
        /// The rooms there are.
        known_rooms: Vec<String>,
    },
}

/// The rooms that the news may concern.
pub open spec fn concerned_rooms(news: RoomKeyNews) -> Seq<Seq<char>> {
    match news {
        RoomKeyNews::Received(rooms) => id_views(rooms@),
        RoomKeyNews::Missed { known_rooms } => id_views(known_rooms@),
    }
}

/// Which rooms to retry: the ones named in the batch, or (on lag/error) every
/// room. Each comes once, in the order of the ids.
pub fn rooms_to_retry(news: RoomKeyNews) -> (rooms: Vec<String>)
    ensures
        in_order(id_views(rooms@)),
        forall|id: Seq<char>| #[trigger]
            id_views(rooms@).contains(id) <==> concerned_rooms(news).contains(id),
{
    match news {
        RoomKeyNews::Received(rooms) => distinct_rooms(rooms),
        RoomKeyNews::Missed { known_rooms } => distinct_rooms(known_rooms),
    }
}

/// An event that is settled one way is found where it went: in the batch for the
/// map or among the parked events.
proof fn lemma_settled_events_are_found<I>(inputs: Seq<ResolveInput<I>>, i: int)
    requires
        0 <= i < inputs.len(),
    ensures
        settlement(inputs[i]) matches SettledView::Resolved(candidate, kind) ==> resolved_of(
            inputs,
        ).contains(candidate_upsert(candidate, kind)),
        settlement(inputs[i]) matches SettledView::Parked(parked) ==> parked_of(inputs).contains(
            parked,
        ),
    decreases inputs.len(),
{
    let init = inputs.drop_last();
    if i < init.len() {
        lemma_settled_events_are_found(init, i);
        assert(init[i] == inputs[i]);
        match settlement(inputs[i]) {
            SettledView::Resolved(candidate, kind) => {
                let upsert = candidate_upsert(candidate, kind);
                let k = choose|k: int| 0 <= k < resolved_of(init).len() && resolved_of(init)[k] == upsert;
                assert(resolved_of(inputs)[k] == upsert);
            },
            SettledView::Parked(parked) => {
                let k = choose|k: int| 0 <= k < parked_of(init).len() && parked_of(init)[k] == parked;
                assert(parked_of(inputs)[k] == parked);
            },
            SettledView::Dropped => {},
        }
    } else {
        assert(inputs[i] == inputs.last());
        match settlement(inputs[i]) {
            SettledView::Resolved(candidate, kind) => {
                assert(resolved_of(inputs).last() == candidate_upsert(candidate, kind));
            },
            SettledView::Parked(parked) => {
                assert(parked_of(inputs).last() == parked);
            },
            SettledView::Dropped => {},
        }
    }
}

/// No sticky event is lost: each is in the batch for the map or parked. The one
/// exception is an event whose decryption gave back something without a type,
/// which has nothing to be filed under.
pub proof fn law_no_sticky_event_is_lost<I>(inputs: Seq<ResolveInput<I>>, i: int)
    requires
        0 <= i < inputs.len(),
        !(extract_of(inputs[i].received_ts, inputs[i].event@) is NotSticky),
        inputs[i].decryption matches Decryption::Done(kind) ==> type_of(event_text(kind)@) is Some,
    ensures
        ({
            ||| settlement(inputs[i]) matches SettledView::Resolved(candidate, kind)
                && resolved_of(inputs).contains(candidate_upsert(candidate, kind))
            ||| parked_of(inputs).contains((inputs[i].received_ts, inputs[i].event))
        }),
{
    lemma_settled_events_are_found(inputs, i);
}

/// An encrypted sticky event that cannot be decrypted is parked as it came, with
/// the time at which it was first received.
pub proof fn law_undecryptable_events_are_parked<I>(inputs: Seq<ResolveInput<I>>, i: int)
    requires
        0 <= i < inputs.len(),
        extract_of(inputs[i].received_ts, inputs[i].event@) is NeedsDecryption,
        inputs[i].decryption matches Decryption::Done(kind) ==> is_unreadable(
            kind,
            type_of(event_text(kind)@),
        ),
    ensures
        parked_of(inputs).contains((inputs[i].received_ts, inputs[i].event)),
{
    lemma_settled_events_are_found(inputs, i);
}

/// Only events that can be read are filed, whatever the decryption gave back:
/// plaintext and decrypted ones, and none under the type `m.room.encrypted`.
pub proof fn law_only_readable_events_are_filed<I>(inputs: Seq<ResolveInput<I>>, k: int)
    requires
        0 <= k < resolved_of(inputs).len(),
    ensures
        resolved_of(inputs)[k].key.event_type != "m.room.encrypted"@,
        !(resolved_of(inputs)[k].value is UnableToDecrypt),
    decreases inputs.len(),
{
    let init = inputs.drop_last();
    if k < resolved_of(init).len() {
        law_only_readable_events_are_filed(init, k);
    }
}

/// A retry does not reset the TTL: whenever and however an event is resolved, its
/// sender, event id and expiry time are those of the event as it was first
/// received.
pub proof fn law_retry_does_not_reset_the_ttl<I>(input: ResolveInput<I>)
    ensures
        settlement(input) matches SettledView::Resolved(candidate, _) ==> {
            &&& meta_of(input.received_ts, input.event@) matches Some(meta)
            &&& candidate.end_time == meta.end_time
            &&& candidate.event_id == meta.event_id
            &&& candidate.key.sender == meta.sender
        },
{
}

/// Retrying parked events without success parks them again, in the same order,
/// and files nothing.
pub proof fn law_failed_retry_parks_again<I, J>(
    inputs: Seq<ResolveInput<I>>,
    retried: Seq<ResolveInput<J>>,
)
    requires
        retried.len() == parked_of(inputs).len(),
        forall|k: int|
            0 <= k < retried.len() ==> {
                &&& (#[trigger] retried[k]).received_ts == parked_of(inputs)[k].0
                &&& retried[k].event == parked_of(inputs)[k].1
                &&& !(retried[k].decryption is Done)
            },
    ensures
        parked_of(retried) == parked_of(inputs),
        resolved_of(retried) == Seq::<UpsertView<TimelineEventKind<J>>>::empty(),
    decreases inputs.len(), retried.len(),
{
    if inputs.len() == 0 {
    } else {
        let init = inputs.drop_last();
        match settlement(inputs.last()) {
            SettledView::Parked(parked) => {
                let earlier = retried.drop_last();
                assert(parked_of(inputs).drop_last() =~= parked_of(init));
                assert forall|k: int| 0 <= k < earlier.len() implies {
                    &&& (#[trigger] earlier[k]).received_ts == parked_of(init)[k].0
                    &&& earlier[k].event == parked_of(init)[k].1
                    &&& !(earlier[k].decryption is Done)
                } by {
                    assert(earlier[k] == retried[k]);
                    assert(parked_of(init)[k] == parked_of(inputs)[k]);
                }
                law_failed_retry_parks_again(init, earlier);
                let last = retried[retried.len() - 1];
                assert(last == retried.last());
                assert(parked == (inputs.last().received_ts, inputs.last().event));
                assert(parked_of(retried) =~= parked_of(inputs));
            },
            _ => {
                law_failed_retry_parks_again(init, retried);
            },
        }
    }
}

/// What was picked out of a sync response as sticky is not dropped again, unless
/// its decryption gives back something without a type.
pub proof fn law_picked_events_are_sticky(events: Seq<RawJson>, now: u64, k: int)
    requires
        0 <= k < sticky_among(events, now).len(),
    ensures
        ({
            let (received_ts, event) = sticky_among(events, now)[k];
            &&& received_ts == now
            &&& events.contains(event)
            &&& !(extract_of(received_ts, event@) is NotSticky)
        }),
    decreases events.len(),
{
    let init = events.drop_last();
    if k < sticky_among(init, now).len() {
        law_picked_events_are_sticky(init, now, k);
        let event = sticky_among(init, now)[k].1;
        let i = choose|i: int| 0 <= i < init.len() && init[i] == event;
        assert(events[i] == event);
    } else {
        assert(events[events.len() - 1] == events.last());
    }
}

/// Taking the parked events and parking them again leaves the buffer as it was.
pub proof fn law_parking_again_restores_the_buffer<I>(before: StickyEventsView<I>)
    ensures
        with_parked(without_parked(before), before.pending).pending == before.pending,
        with_parked(without_parked(before), before.pending).map == before.map,
{
}

} // verus!
