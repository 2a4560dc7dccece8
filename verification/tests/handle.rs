//! The per-room store of sticky events, and the decisions of its maintenance
//! task.

use futures_util::FutureExt;
use std::sync::atomic::{AtomicU64, Ordering};
use std::sync::Arc;
use sticky_events::event::TimelineEventKind;
use sticky_events::eviction::{respond, sleep_until_expiry, Response, UpdateReceipt, Wakeup};
use sticky_events::extract::StickyCandidate;
use sticky_events::handle::{PersistedPendingStickyEvent, PersistedStickyEvent, StoreWrite};
use sticky_events::raw::RawJson;
use sticky_events::{
    Clock, RemovalReason, StickyEvents, StickyKey, StickyLiveEvent, MAX_STICKY_DURATION_MS,
};
use tokio::sync::broadcast::error::TryRecvError;

/// A manually-driven clock. Clones share the same time.
#[derive(Debug, Clone)]
struct MockClock {
    now_ms: Arc<AtomicU64>,
}

impl MockClock {
    fn new(now_ms: u64) -> Self {
        Self { now_ms: Arc::new(AtomicU64::new(now_ms)) }
    }

    fn advance(&self, delta_ms: u64) {
        self.now_ms.fetch_add(delta_ms, Ordering::SeqCst);
    }
}

impl Clock for MockClock {
    fn now_ms(&self) -> u64 {
        self.now_ms.load(Ordering::SeqCst)
    }
}

/// Encryption data.
type Info = &'static str;

fn raw_event() -> RawJson {
    RawJson::new(
        r#"{
            "type": "m.rtc.member",
            "sender": "@alice:localhost",
            "event_id": "$sticky:localhost",
            "origin_server_ts": 1,
            "content": { "sticky_key": "slot" }
        }"#
        .to_owned(),
    )
}

/// The plaintext event kind stored for a sticky event that was sent in the
/// clear.
fn plaintext_event() -> TimelineEventKind<Info> {
    TimelineEventKind::PlainText { event: raw_event() }
}

fn persisted(sticky_key: &str, end_time: u64) -> PersistedStickyEvent<Info> {
    PersistedStickyEvent {
        sender: "@alice:localhost".to_owned(),
        event_type: "m.rtc.member".to_owned(),
        sticky_key: Some(sticky_key.to_owned()),
        event_id: "$sticky:localhost".to_owned(),
        end_time,
        kind: plaintext_event(),
    }
}

fn candidate(end_time: u64) -> StickyCandidate {
    StickyCandidate {
        key: StickyKey::new(
            "@alice:localhost".to_owned(),
            "m.rtc.member".to_owned(),
            Some("slot".to_owned()),
        ),
        event_id: "$sticky:localhost".to_owned(),
        end_time,
        is_removal: false,
    }
}

#[test]
fn test_load_drops_expired_keeps_live() {
    let clock = MockClock::new(1_000);
    let mut handle: StickyEvents<Info> = StickyEvents::with_clock(Arc::new(clock));

    let expired = persisted("gone", 500);
    let live = persisted("slot", 5_000);
    handle.load(vec![expired, live]);

    let live_events = handle.live();
    assert_eq!(live_events.len(), 1, "only the non-expired entry should survive loading");
    assert_eq!(live_events[0].key.sticky_key.as_deref(), Some("slot"));
    assert_eq!(live_events[0].expires_at_ms, 5_000);
    // It was sent in the clear, so it carries no encryption data.
    assert!(live_events[0].encryption_info().is_none());
    assert_eq!(live_events[0].raw(), &raw_event());
}

#[test]
fn test_load_pending_drops_stale_keeps_recent() {
    // "now" far enough that a received-long-ago entry is past its max TTL.
    let clock = MockClock::new(2 * MAX_STICKY_DURATION_MS);
    let mut handle: StickyEvents<Info> = StickyEvents::with_clock(Arc::new(clock));

    // received_ts = 0 → 0 + max TTL <= now → dropped; the recent one is kept.
    let stale = PersistedPendingStickyEvent { received_ts: 0, event: raw_event() };
    let recent = PersistedPendingStickyEvent {
        received_ts: 2 * MAX_STICKY_DURATION_MS - 1,
        event: raw_event(),
    };
    handle.load_pending(vec![stale, recent]);

    let restored = handle.take_pending();
    assert_eq!(restored.len(), 1, "only the still-live parked event should survive");
    assert_eq!(restored[0].0, 2 * MAX_STICKY_DURATION_MS - 1);
}

#[test]
fn parked_event_is_stale_after_one_hour() {
    let mut handle: StickyEvents<Info> = StickyEvents::with_clock(Arc::new(MockClock::new(0)));
    let event = |received_ts| PersistedPendingStickyEvent { received_ts, event: raw_event() };
    let now = 5 + MAX_STICKY_DURATION_MS;
    assert!(handle.load_pending_at(now, vec![event(5)]).is_none());
    assert!(handle.load_pending_at(now, vec![event(6), event(u64::MAX)]).is_some());
    let received: Vec<u64> = handle.take_pending().into_iter().map(|parked| parked.0).collect();
    assert_eq!(received, vec![6, u64::MAX]);
}

#[test]
fn live_set_is_written_on_ingest() {
    let clock = MockClock::new(1_000);
    let mut handle: StickyEvents<Info> = StickyEvents::new(Arc::new(clock.clone()));

    // Ingest a single, long-lived sticky event.
    let end_time = handle.now_ms() + 3_600_000;
    let start = handle.ingest_candidates(vec![(candidate(end_time), plaintext_event())]).unwrap();

    // The task subscribed before the change was made, so it gets the update.
    let mut updates = start.updates.unwrap();
    assert_eq!(updates.try_recv().unwrap().added, vec![candidate(end_time).key]);

    let write = handle.maintain(Wakeup::Update(UpdateReceipt::Received));
    let events = match write {
        StoreWrite::Live(events) => events,
        StoreWrite::Nothing | StoreWrite::Pending(_) => panic!("the live set should be written"),
    };
    assert_eq!(events.len(), 1);
    assert_eq!(events[0].sticky_key.as_deref(), Some("slot"));
    assert_eq!(events[0].end_time, end_time);

    // What was written reloads into a fresh map.
    let mut reloaded: StickyEvents<Info> = StickyEvents::new(Arc::new(clock));
    assert!(reloaded.load(events).is_some());
    let live = reloaded.live();
    assert_eq!(live.len(), 1);
    assert!(live[0].encryption_info().is_none());
    assert_eq!(live[0].raw(), &raw_event());
}

#[test]
fn parked_events_are_written() {
    let mut handle: StickyEvents<Info> = StickyEvents::new(Arc::new(MockClock::new(7)));
    let start = handle.park(vec![(7, raw_event())]).unwrap();
    assert!(start.updates.is_some());
    let pending_changed = start.pending_changed.unwrap();
    assert!(pending_changed.notified().now_or_never().is_some());

    let events = match handle.maintain(Wakeup::PendingChanged) {
        StoreWrite::Pending(events) => events,
        StoreWrite::Nothing | StoreWrite::Live(_) => panic!("the parked set should be written"),
    };
    assert_eq!(events.len(), 1);
    assert_eq!(events[0].received_ts, 7);
    assert_eq!(events[0].event, raw_event());

    let mut reloaded: StickyEvents<Info> = StickyEvents::new(Arc::new(MockClock::new(8)));
    assert!(reloaded.load_pending(events).is_some());
    assert_eq!(reloaded.take_pending(), vec![(7, raw_event())]);
}

#[test]
fn expiry_evicts_and_notifies() {
    let clock = MockClock::new(1_000_000);
    let mut handle: StickyEvents<Info> = StickyEvents::with_clock(Arc::new(clock.clone()));
    handle.ingest_candidates(vec![(candidate(1_000_050), plaintext_event())]);
    let mut rx = handle.subscribe();

    let wait = sleep_until_expiry(handle.map().next_expiry(), handle.now_ms());
    assert_eq!(wait, Some(50));
    clock.advance(1000);
    assert!(matches!(handle.maintain(Wakeup::Expiry), StoreWrite::Nothing));

    let update = rx.try_recv().unwrap();
    assert_eq!(update.removed, vec![(candidate(0).key, RemovalReason::Expired)]);
    assert_eq!(handle.map().next_expiry(), None);
}

#[test]
fn restart_keeps_what_is_live_then() {
    let mut handle: StickyEvents<Info> = StickyEvents::with_clock(Arc::new(MockClock::new(0)));
    handle.load_at(0, vec![persisted("1", 100), persisted("2", 200), persisted("3", 300)]);
    let snapshot = handle.live_snapshot_at(100);
    assert_eq!(snapshot.len(), 2);
    let mut reloaded: StickyEvents<Info> = StickyEvents::with_clock(Arc::new(MockClock::new(0)));
    reloaded.load_at(200, snapshot);
    let live: Vec<StickyLiveEvent<Info>> = reloaded.live_at(0);
    assert_eq!(live.len(), 1);
    assert_eq!(live[0].key.sticky_key.as_deref(), Some("3"));
    assert_eq!(live[0].event_id, "$sticky:localhost");
    assert_eq!(live[0].expires_at_ms, 300);
}

#[test]
fn reload_at_the_same_time_shows_the_same_events() {
    let clock = MockClock::new(100);
    let mut handle: StickyEvents<Info> = StickyEvents::with_clock(Arc::new(clock.clone()));
    handle.load_at(0, vec![persisted("1", 100), persisted("2", 200), persisted("3", 300)]);
    let mut reloaded: StickyEvents<Info> = StickyEvents::with_clock(Arc::new(clock));
    reloaded.load(handle.live_snapshot());
    let keys = |handle: &StickyEvents<Info>| {
        let mut keys: Vec<(StickyKey, u64)> =
            handle.live().into_iter().map(|event| (event.key, event.expires_at_ms)).collect();
        keys.sort();
        keys
    };
    assert_eq!(keys(&handle).len(), 2);
    assert_eq!(keys(&reloaded), keys(&handle));
}

#[test]
fn slow_subscriber_of_a_room_keeps_the_last_sixteen_updates() {
    let mut handle: StickyEvents<Info> = StickyEvents::with_clock(Arc::new(MockClock::new(0)));
    let mut rx = handle.subscribe();
    for end_time in 1..18 {
        handle.ingest_candidates(vec![(candidate(end_time), plaintext_event())]);
    }
    assert!(matches!(rx.try_recv(), Err(TryRecvError::Lagged(1))));
    assert_eq!(rx.try_recv().unwrap().updated.len(), 1);
}

#[test]
fn task_is_started_once_and_only_for_data() {
    let mut handle: StickyEvents<Info> = StickyEvents::with_clock(Arc::new(MockClock::new(1_000)));
    assert!(handle.load(vec![persisted("gone", 1_000)]).is_none());
    assert!(handle.load_pending(vec![]).is_none());
    assert!(handle.ingest_candidates(vec![]).is_none());
    assert!(handle.park(vec![]).is_none());
    // The first real data starts it. There is no store to write to.
    let start = handle.ingest_candidates_at(0, vec![(candidate(5), plaintext_event())]).unwrap();
    assert!(start.updates.is_none());
    assert!(start.pending_changed.is_none());
    assert!(handle.park(vec![(7, raw_event())]).is_none());
    assert!(handle.load(vec![persisted("slot", 5_000)]).is_none());
}

#[test]
fn loading_parked_events_does_not_write_them() {
    let mut handle: StickyEvents<Info> = StickyEvents::new(Arc::new(MockClock::new(0)));
    let event = PersistedPendingStickyEvent { received_ts: 0, event: raw_event() };
    let start = handle.load_pending(vec![event]).unwrap();
    let pending_changed = start.pending_changed.unwrap();
    assert!(pending_changed.notified().now_or_never().is_none());
    assert_eq!(handle.take_pending().len(), 1);
    assert!(pending_changed.notified().now_or_never().is_some());
    // Nothing is left, so nothing changes.
    assert!(handle.take_pending().is_empty());
    assert!(pending_changed.notified().now_or_never().is_none());
}

#[test]
fn parking_appends() {
    let mut handle: StickyEvents<Info> = StickyEvents::with_clock(Arc::new(MockClock::new(0)));
    handle.park(vec![(1, raw_event()), (2, raw_event())]);
    handle.park(vec![(3, raw_event())]);
    let snapshot: Vec<u64> =
        handle.pending_snapshot().into_iter().map(|event| event.received_ts).collect();
    assert_eq!(snapshot, vec![1, 2, 3]);
    // Taken and parked again, the buffer is what it was.
    let drained = handle.take_pending();
    handle.park(drained);
    assert_eq!(handle.take_pending().len(), 3);
}

#[test]
fn removal_candidate_removes() {
    let mut handle: StickyEvents<Info> = StickyEvents::with_clock(Arc::new(MockClock::new(0)));
    handle.ingest_candidates(vec![(candidate(100), plaintext_event())]);
    let removal = StickyCandidate { is_removal: true, ..candidate(200) };
    handle.ingest_candidates(vec![(removal, plaintext_event())]);
    assert!(handle.live().is_empty());
}

#[test]
fn decrypted_event_keeps_its_encryption_data() {
    let mut handle: StickyEvents<Info> = StickyEvents::with_clock(Arc::new(MockClock::new(0)));
    let kind = TimelineEventKind::Decrypted { event: raw_event(), encryption_info: Arc::new("olm") };
    handle.ingest_candidates(vec![(candidate(100), kind)]);
    let live = handle.live();
    assert_eq!(**live[0].clone().encryption_info().unwrap(), "olm");
    assert_eq!(live[0].raw(), &raw_event());
    let unreadable: TimelineEventKind<Info> =
        TimelineEventKind::UnableToDecrypt { event: raw_event() };
    assert!(unreadable.clone().encryption_info().is_none());
    assert_eq!(unreadable.raw(), &raw_event());
}

#[test]
fn responses() {
    for persisting in [false, true] {
        assert_eq!(respond(Wakeup::Expiry, persisting), Response::Evict);
        assert_eq!(respond(Wakeup::Changed, persisting), Response::Reschedule);
        let closed = Wakeup::Update(UpdateReceipt::Closed);
        assert_eq!(respond(closed, persisting), Response::Reschedule);
    }
    assert_eq!(respond(Wakeup::Update(UpdateReceipt::Received), true), Response::PersistLive);
    assert_eq!(respond(Wakeup::Update(UpdateReceipt::Lagged), true), Response::PersistLive);
    assert_eq!(respond(Wakeup::PendingChanged, true), Response::PersistPending);
    assert_eq!(respond(Wakeup::Update(UpdateReceipt::Received), false), Response::Reschedule);
    assert_eq!(respond(Wakeup::PendingChanged, false), Response::Reschedule);
}

#[test]
fn sleep_ends_at_the_next_expiry() {
    assert_eq!(sleep_until_expiry(None, 5), None);
    assert_eq!(sleep_until_expiry(Some(100), 40), Some(60));
    assert_eq!(sleep_until_expiry(Some(100), 100), Some(0));
    assert_eq!(sleep_until_expiry(Some(100), 101), Some(0));
}

#[test]
fn nothing_is_written_without_a_store() {
    let mut handle: StickyEvents<Info> = StickyEvents::with_clock(Arc::new(MockClock::new(0)));
    handle.park(vec![(1, raw_event())]);
    assert!(matches!(handle.maintain(Wakeup::PendingChanged), StoreWrite::Nothing));
    let update = Wakeup::Update(UpdateReceipt::Received);
    assert!(matches!(handle.maintain_at(0, update), StoreWrite::Nothing));
    assert!(handle.live_snapshot().is_empty());
}
