//! The ephemeral map.

use futures_util::FutureExt;
use std::sync::atomic::{AtomicU64, Ordering};
use std::sync::Arc;
use sticky_events::map::add_sticky_duration;
use sticky_events::{
    compute_end_time, Clock, EphemeralMap, RemovalReason, StickyEventsUpdate, StickyKey,
    SystemClock, MAX_STICKY_DURATION_MS,
};
use tokio::sync::broadcast::error::TryRecvError;

/// A manually-driven clock. Clones share the same time.
#[derive(Debug, Clone)]
struct MockClock {
    now_ms: Arc<AtomicU64>,
}

impl MockClock {
    fn new(now_ms: u64) -> Self {
        Self { now_ms: Arc::new(AtomicU64::new(now_ms)) }
    }

    fn set(&self, now_ms: u64) {
        self.now_ms.store(now_ms, Ordering::SeqCst);
    }
}

impl Clock for MockClock {
    fn now_ms(&self) -> u64 {
        self.now_ms.load(Ordering::SeqCst)
    }
}

/// A clock that is one millisecond later each time it is read.
#[derive(Debug)]
struct TickingClock {
    now_ms: AtomicU64,
}

impl Clock for TickingClock {
    fn now_ms(&self) -> u64 {
        self.now_ms.fetch_add(1, Ordering::SeqCst)
    }
}

fn key(sticky_key: Option<&str>) -> StickyKey {
    StickyKey::new(
        "@alice:localhost".to_owned(),
        "m.rtc.member".to_owned(),
        sticky_key.map(ToOwned::to_owned),
    )
}

fn map_at(now_ms: u64) -> EphemeralMap<u32> {
    EphemeralMap::new(Arc::new(MockClock::new(now_ms)))
}

fn upsert(map: &mut EphemeralMap<u32>, k: &StickyKey, id: &str, end_time: u64) -> bool {
    map.upsert(k.clone(), 0, id.to_owned(), end_time, false)
}

#[test]
fn test_compute_end_time_uses_earliest_start() {
    // Normal case: origin before received.
    assert_eq!(compute_end_time(1000, 2000, 500), 1500);
    // A future origin_server_ts cannot extend stickiness: start = received.
    assert_eq!(compute_end_time(5000, 1000, 500), 1500);
}

#[test]
fn test_compute_end_time_clamps_duration() {
    assert_eq!(compute_end_time(0, 0, u32::MAX), MAX_STICKY_DURATION_MS);
}

#[test]
fn test_insert_get_and_iter_live() {
    let mut map = map_at(0);
    let k = key(Some("slot"));
    assert!(upsert(&mut map, &k, "$a:localhost", 1000));

    assert!(map.get(&k).is_some());
    assert_eq!(map.len_live(), 1);
    assert_eq!(map.iter_live().into_iter().count(), 1);
}

#[test]
fn test_lazy_expiry_boundary() {
    let clock = MockClock::new(0);
    let mut map = EphemeralMap::<u32>::new(Arc::new(clock.clone()));
    let k = key(Some("slot"));
    upsert(&mut map, &k, "$a:localhost", 1500);

    clock.set(1499);
    assert!(map.get(&k).is_some(), "live while now < end_time");

    clock.set(1500);
    assert!(map.get(&k).is_none(), "expired once now >= end_time");
    assert_eq!(map.len_live(), 0);
}

#[test]
fn test_tiebreak_prefers_later_end_time() {
    let mut map = map_at(0);
    let k = key(Some("slot"));
    assert!(upsert(&mut map, &k, "$a:localhost", 100));
    // Later end_time wins.
    assert!(upsert(&mut map, &k, "$b:localhost", 200));
    assert_eq!(map.get(&k).unwrap().end_time, 200);
    // Earlier end_time loses; the stored entry is unchanged.
    assert!(!upsert(&mut map, &k, "$c:localhost", 150));
    assert_eq!(map.get(&k).unwrap().end_time, 200);
}

#[test]
fn test_tiebreak_by_event_id_on_equal_end_time() {
    let mut map = map_at(0);
    let k = key(Some("slot"));
    upsert(&mut map, &k, "$a:localhost", 100);
    // Higher lexicographic event id wins at equal end_time.
    assert!(upsert(&mut map, &k, "$b:localhost", 100));
    assert_eq!(map.get(&k).unwrap().event_id, "$b:localhost");
    // Lower event id loses.
    assert!(!upsert(&mut map, &k, "$a:localhost", 100));
}

#[test]
fn test_keyed_and_unkeyed_are_distinct() {
    let mut map = map_at(0);
    let keyed = key(Some("slot"));
    let unkeyed = key(None);
    upsert(&mut map, &keyed, "$a:localhost", 100);
    upsert(&mut map, &unkeyed, "$b:localhost", 100);
    assert_eq!(map.len_live(), 2);
    assert!(map.get(&keyed).is_some());
    assert!(map.get(&unkeyed).is_some());
}

#[test]
fn test_removal_marker_drops_entry() {
    let mut map = map_at(0);
    let k = key(Some("slot"));
    upsert(&mut map, &k, "$a:localhost", 1000);

    let mut rx = map.subscribe();
    // A removal that wins the tie-break (equal end_time, higher event id)
    // supersedes the entry.
    let removed = map.upsert(k.clone(), 0, "$b:localhost".to_owned(), 1000, true);
    assert!(removed);
    assert!(map.get(&k).is_none());

    let update = rx.try_recv().unwrap();
    assert_eq!(update.removed, vec![(k, RemovalReason::Replaced)]);
}

#[test]
fn test_stale_removal_does_not_wipe_newer_entry() {
    let mut map = map_at(0);
    let k = key(Some("slot"));
    // A fresh connect, last-to-expire.
    upsert(&mut map, &k, "$b:localhost", 2000);

    // An older, superseded removal (earlier end_time) must be ignored rather
    // than deleting the live entry.
    assert!(!map.upsert(k.clone(), 0, "$a:localhost".to_owned(), 1000, true));
    assert!(map.get(&k).is_some(), "the newer live entry must survive a stale removal");
}

#[test]
fn test_explicit_remove() {
    let mut map = map_at(0);
    let k = key(Some("slot"));
    upsert(&mut map, &k, "$a:localhost", 1000);

    let mut rx = map.subscribe();
    assert!(map.remove(&k).is_some());
    assert!(map.get(&k).is_none());

    let update = rx.try_recv().unwrap();
    assert_eq!(update.removed, vec![(k, RemovalReason::ExplicitRemoval)]);
}

#[test]
fn test_evict_expired_and_next_expiry() {
    let clock = MockClock::new(0);
    let mut map = EphemeralMap::<u32>::new(Arc::new(clock.clone()));
    let (k1, k2, k3) = (key(Some("1")), key(Some("2")), key(Some("3")));
    upsert(&mut map, &k1, "$a:localhost", 100);
    upsert(&mut map, &k2, "$b:localhost", 200);
    upsert(&mut map, &k3, "$c:localhost", 300);

    clock.set(250);
    let mut removed = map.evict_expired();
    removed.sort();
    let mut expected = vec![k1, k2];
    expected.sort();
    assert_eq!(removed, expected);
    assert_eq!(map.next_expiry(), Some(300));
    assert_eq!(map.len_live(), 1);
}

#[test]
fn test_stale_heap_node_is_discarded() {
    let clock = MockClock::new(0);
    let mut map = EphemeralMap::<u32>::new(Arc::new(clock.clone()));
    let k = key(Some("slot"));
    // First a short-lived entry, then extend it to a much later end_time.
    upsert(&mut map, &k, "$a:localhost", 100);
    upsert(&mut map, &k, "$b:localhost", 500);

    clock.set(150);
    // The stale node (end_time 100) must not evict the live entry (500).
    assert!(map.evict_expired().is_empty());
    assert!(map.get(&k).is_some());
}

#[test]
fn test_subscribe_fans_out_to_multiple_receivers() {
    let mut map = map_at(0);
    let mut rx1 = map.subscribe();
    let mut rx2 = map.subscribe();
    let k = key(Some("slot"));
    upsert(&mut map, &k, "$a:localhost", 1000);

    assert_eq!(rx1.try_recv().unwrap().added, vec![k.clone()]);
    assert_eq!(rx2.try_recv().unwrap().added, vec![k]);
}

#[test]
fn end_time_saturates() {
    assert_eq!(compute_end_time(u64::MAX - 5, u64::MAX - 3, 100), u64::MAX);
    assert_eq!(add_sticky_duration(u64::MAX - 5, 5), u64::MAX);
    assert_eq!(add_sticky_duration(7, MAX_STICKY_DURATION_MS + 1), 7 + MAX_STICKY_DURATION_MS);
}

#[test]
fn future_timestamps_do_not_extend_stickiness() {
    assert_eq!(compute_end_time(u64::MAX, 1000, 500), compute_end_time(1000, 1000, 500));
    assert_eq!(compute_end_time(u64::MAX, 1000, u32::MAX), 1000 + MAX_STICKY_DURATION_MS);
}

#[test]
fn system_clock_tells_a_plausible_time() {
    // The first of January 2020, and the largest time that the clock can tell.
    let now = SystemClock.now_ms();
    assert!(now > 1_577_836_800_000);
    assert!(now <= 0x1F_FFFF_FFFF_FFFF);
    let map: EphemeralMap<u32, SystemClock> = EphemeralMap::new(Arc::new(SystemClock));
    assert!(map.now_ms() >= now);
}

#[test]
fn new_map_is_empty() {
    let map = map_at(0);
    assert_eq!(map.len_live(), 0);
    assert!(map.iter_live().is_empty());
    assert_eq!(map.next_expiry(), None);
    assert!(map.get(&key(None)).is_none());
}

#[test]
fn event_expired_on_arrival_is_ignored() {
    let mut map = map_at(100);
    let mut rx = map.subscribe();
    assert!(!upsert(&mut map, &key(None), "$a:localhost", 100));
    assert!(!upsert(&mut map, &key(None), "$a:localhost", 99));
    assert!(upsert(&mut map, &key(None), "$a:localhost", 101));
    assert_eq!(rx.try_recv().unwrap().added, vec![key(None)]);
    assert!(matches!(rx.try_recv(), Err(TryRecvError::Empty)));
}

#[test]
fn removal_without_an_entry_does_nothing() {
    let mut map = map_at(0);
    let mut rx = map.subscribe();
    assert!(!map.upsert(key(None), 0, "$a:localhost".to_owned(), 100, true));
    assert!(map.remove(&key(None)).is_none());
    assert!(matches!(rx.try_recv(), Err(TryRecvError::Empty)));
}

#[test]
fn removal_needs_no_time_left() {
    // A removal that outranks an entry takes it away, expired or not.
    let mut map = map_at(0);
    upsert(&mut map, &key(None), "$a:localhost", 100);
    assert!(map.upsert_at(500, key(None), 0, "$b:localhost".to_owned(), 200, true));
    assert!(map.get_at(0, &key(None)).is_none());
}

#[test]
fn update_reports_a_replaced_entry() {
    let mut map = map_at(0);
    upsert(&mut map, &key(None), "$a:localhost", 100);
    let mut rx = map.subscribe();
    assert!(map.upsert(key(None), 7, "$b:localhost".to_owned(), 200, false));
    let update = rx.try_recv().unwrap();
    assert!(update.added.is_empty());
    assert_eq!(update.updated, vec![key(None)]);
    assert!(update.removed.is_empty());
    assert_eq!(map.get(&key(None)).unwrap().value, 7);
}

#[test]
fn expired_entry_gives_way_to_a_live_event() {
    let mut map = map_at(0);
    upsert(&mut map, &key(None), "$b:localhost", 100);
    assert!(map.upsert_at(150, key(None), 1, "$a:localhost".to_owned(), 151, false));
    assert_eq!(map.get_at(150, &key(None)).unwrap().value, 1);
    assert!(map.get_at(151, &key(None)).is_none());
}

#[test]
fn removed_entry_is_handed_back() {
    let mut map = map_at(0);
    map.upsert(key(None), 42, "$a:localhost".to_owned(), 1000, false);
    let entry = map.remove(&key(None)).unwrap();
    assert_eq!((entry.value, entry.event_id.as_str(), entry.end_time), (42, "$a:localhost", 1000));
}

#[test]
fn batch_sends_one_update() {
    let mut map = map_at(0);
    upsert(&mut map, &key(Some("old")), "$a:localhost", 100);
    upsert(&mut map, &key(Some("gone")), "$a:localhost", 100);
    let mut rx = map.subscribe();
    let changed = map.apply_batch(vec![
        (key(Some("new")), 1, "$a:localhost".to_owned(), 100, false),
        (key(Some("old")), 2, "$b:localhost".to_owned(), 100, false),
        (key(Some("stale")), 3, "$c:localhost".to_owned(), 0, false),
        (key(Some("gone")), 4, "$d:localhost".to_owned(), 100, true),
    ]);
    assert!(changed);
    let update = rx.try_recv().unwrap();
    assert_eq!(update.added, vec![key(Some("new"))]);
    assert_eq!(update.updated, vec![key(Some("old"))]);
    assert_eq!(update.removed, vec![(key(Some("gone")), RemovalReason::Replaced)]);
    assert!(matches!(rx.try_recv(), Err(TryRecvError::Empty)));
}

#[test]
fn batch_that_adds_and_removes_changes_nothing() {
    let mut map = map_at(0);
    let mut rx = map.subscribe();
    let changed_notify = map.change_notify();
    let k = key(Some("slot"));
    let changed = map.apply_batch(vec![
        (k.clone(), 0, "$a:localhost".to_owned(), 100, false),
        (k.clone(), 0, "$b:localhost".to_owned(), 200, true),
    ]);
    assert!(!changed);
    assert!(map.get(&k).is_none());
    assert!(matches!(rx.try_recv(), Err(TryRecvError::Empty)));
    assert!(changed_notify.notified().now_or_never().is_none());
}

#[test]
fn batch_names_each_key_once() {
    let mut map = map_at(0);
    upsert(&mut map, &key(Some("old")), "$a:localhost", 100);
    upsert(&mut map, &key(Some("same")), "$a:localhost", 100);
    let mut rx = map.subscribe();
    assert!(map.apply_batch(vec![
        // Added, then updated: a new entry.
        (key(Some("new")), 1, "$a:localhost".to_owned(), 100, false),
        (key(Some("new")), 2, "$b:localhost".to_owned(), 200, false),
        // Removed, then filed anew: another entry.
        (key(Some("old")), 0, "$b:localhost".to_owned(), 200, true),
        (key(Some("old")), 3, "$c:localhost".to_owned(), 50, false),
        // Removed, then filed as it was: an entry that this batch has filed.
        (key(Some("same")), 0, "$b:localhost".to_owned(), 200, true),
        (key(Some("same")), 0, "$a:localhost".to_owned(), 100, false),
    ]));
    let update = rx.try_recv().unwrap();
    assert_eq!(update.added, vec![key(Some("new"))]);
    assert_eq!(update.updated, vec![key(Some("old")), key(Some("same"))]);
    assert!(update.removed.is_empty());
    assert_eq!(map.get(&key(Some("old"))).unwrap().value, 3);
    assert!(matches!(rx.try_recv(), Err(TryRecvError::Empty)));
}

#[test]
fn batch_reports_a_change_of_value_alone() {
    let mut map = map_at(0);
    let k = key(Some("slot"));
    map.upsert(k.clone(), 1, "$a:localhost".to_owned(), 1000, false);
    let mut rx = map.subscribe();
    let changed = map.change_notify();
    assert!(changed.notified().now_or_never().is_some());
    assert!(map.apply_batch(vec![
        (k.clone(), 0, "$b:localhost".to_owned(), 2000, true),
        (k.clone(), 2, "$a:localhost".to_owned(), 1000, false),
    ]));
    assert_eq!(map.get(&k).unwrap().value, 2);
    let update = rx.try_recv().unwrap();
    assert!(update.added.is_empty());
    assert_eq!(update.updated, vec![k]);
    assert!(update.removed.is_empty());
    assert!(changed.notified().now_or_never().is_some());
}

#[test]
fn next_expiry_was_the_end_of_an_accepted_event() {
    let mut map = map_at(50);
    // Neither an expired event nor a removal is accepted.
    upsert(&mut map, &key(Some("1")), "$a:localhost", 40);
    map.upsert(key(Some("1")), 0, "$a:localhost".to_owned(), 60, true);
    assert_eq!(map.next_expiry(), None);
    upsert(&mut map, &key(Some("1")), "$a:localhost", 70);
    upsert(&mut map, &key(Some("2")), "$a:localhost", 90);
    map.remove(&key(Some("1")));
    assert_eq!(map.next_expiry(), Some(70));
    map.evict_expired_at(80);
    assert_eq!(map.next_expiry(), Some(90));
}

#[test]
fn batch_reports_in_the_order_of_arrival() {
    let mut map = map_at(0);
    let mut rx = map.subscribe();
    map.apply_batch(vec![
        (key(Some("a")), 1, "$a:localhost".to_owned(), 0, false),
        (key(Some("c")), 1, "$a:localhost".to_owned(), 100, false),
        (key(Some("b")), 1, "$a:localhost".to_owned(), 100, false),
        (key(Some("a")), 1, "$a:localhost".to_owned(), 100, false),
        (key(Some("c")), 1, "$b:localhost".to_owned(), 100, false),
    ]);
    let update = rx.try_recv().unwrap();
    assert_eq!(update.added, vec![key(Some("c")), key(Some("b")), key(Some("a"))]);
}

#[test]
fn batch_leaves_what_single_events_leave() {
    let events = vec![
        (key(Some("1")), 1, "$a:localhost".to_owned(), 100, false),
        (key(Some("2")), 2, "$a:localhost".to_owned(), 50, false),
        (key(Some("1")), 3, "$b:localhost".to_owned(), 100, false),
        (key(Some("2")), 4, "$b:localhost".to_owned(), 60, true),
        (key(Some("3")), 5, "$a:localhost".to_owned(), 300, false),
    ];
    let mut batch = map_at(0);
    assert!(batch.apply_batch(events.clone()));
    let mut singly = map_at(0);
    for (key, value, event_id, end_time, is_removal) in events {
        assert!(singly.upsert(key, value, event_id, end_time, is_removal));
    }
    let list = |map: &EphemeralMap<u32>| {
        let mut list: Vec<(StickyKey, u32, String, u64)> = map
            .iter_live()
            .into_iter()
            .map(|(key, entry)| {
                (key.clone(), entry.value, entry.event_id.clone(), entry.end_time)
            })
            .collect();
        list.sort();
        list
    };
    assert_eq!(list(&batch), list(&singly));
    assert_eq!(list(&batch).len(), 2);
    assert_eq!(batch.next_expiry(), singly.next_expiry());
}

#[test]
fn batch_without_effect_sends_nothing() {
    let mut map = map_at(0);
    let mut rx = map.subscribe();
    assert!(!map.apply_batch(vec![]));
    assert!(!map.apply_batch_at(5, vec![(key(None), 1, "$a:localhost".to_owned(), 5, false)]));
    assert!(matches!(rx.try_recv(), Err(TryRecvError::Empty)));
}

#[test]
fn batch_reads_the_clock_for_each_event() {
    let clock = TickingClock { now_ms: AtomicU64::new(10) };
    let mut map: EphemeralMap<u32, TickingClock> = EphemeralMap::new(Arc::new(clock));
    map.apply_batch(vec![
        (key(Some("1")), 1, "$a:localhost".to_owned(), 11, false),
        (key(Some("2")), 2, "$b:localhost".to_owned(), 11, false),
    ]);
    // The first arrives at 10, the second at 11, when it has expired.
    assert!(map.get_at(10, &key(Some("1"))).is_some());
    assert!(map.get_at(10, &key(Some("2"))).is_none());
}

#[test]
fn last_to_expire_wins_in_any_order() {
    let events = [("$a:localhost", 100), ("$c:localhost", 300), ("$b:localhost", 300)];
    for order in [[0, 1, 2], [0, 2, 1], [1, 0, 2], [1, 2, 0], [2, 0, 1], [2, 1, 0]] {
        let mut map = map_at(0);
        for i in order {
            upsert(&mut map, &key(None), events[i].0, events[i].1);
        }
        let entry = map.get(&key(None)).unwrap();
        assert_eq!((entry.event_id.as_str(), entry.end_time), ("$c:localhost", 300));
    }
}

#[test]
fn order_matters_where_there_are_removals() {
    let mut map = map_at(0);
    upsert(&mut map, &key(None), "$a:localhost", 100);
    map.upsert(key(None), 0, "$b:localhost".to_owned(), 200, true);
    assert!(map.get(&key(None)).is_none());

    let mut map = map_at(0);
    map.upsert(key(None), 0, "$b:localhost".to_owned(), 200, true);
    upsert(&mut map, &key(None), "$a:localhost", 100);
    assert!(map.get(&key(None)).is_some());
}

#[test]
fn event_ids_compare_by_their_bytes() {
    let mut map = map_at(0);
    upsert(&mut map, &key(None), "$Z", 100);
    assert!(upsert(&mut map, &key(None), "$a", 100));
    assert!(upsert(&mut map, &key(None), "$aa", 100));
    assert!(upsert(&mut map, &key(None), "$é", 100));
    assert!(!upsert(&mut map, &key(None), "$z", 100));
}

#[test]
fn eviction_reports_in_the_order_of_expiry() {
    let mut map = map_at(0);
    upsert(&mut map, &key(Some("c")), "$a:localhost", 100);
    upsert(&mut map, &key(Some("a")), "$b:localhost", 200);
    upsert(&mut map, &key(Some("b")), "$c:localhost", 100);
    let mut rx = map.subscribe();
    let removed = map.evict_expired_at(200);
    assert_eq!(removed, vec![key(Some("b")), key(Some("c")), key(Some("a"))]);
    let update = rx.try_recv().unwrap();
    assert_eq!(
        update.removed,
        vec![
            (key(Some("b")), RemovalReason::Expired),
            (key(Some("c")), RemovalReason::Expired),
            (key(Some("a")), RemovalReason::Expired),
        ]
    );
    assert!(matches!(rx.try_recv(), Err(TryRecvError::Empty)));
    // Nothing is left to evict.
    assert!(map.evict_expired_at(u64::MAX).is_empty());
    assert_eq!(map.next_expiry(), None);
}

#[test]
fn next_expiry_may_be_too_early_but_not_too_late() {
    let mut map = map_at(0);
    upsert(&mut map, &key(None), "$a:localhost", 100);
    upsert(&mut map, &key(None), "$b:localhost", 500);
    assert_eq!(map.next_expiry(), Some(100));
    assert!(map.evict_expired_at(100).is_empty());
    assert_eq!(map.next_expiry(), Some(500));
    assert_eq!(map.evict_expired_at(500), vec![key(None)]);
}

#[test]
fn maintenance_task_is_woken_by_additions_only() {
    let mut map = map_at(0);
    let changed = map.change_notify();
    assert!(changed.notified().now_or_never().is_none());
    upsert(&mut map, &key(None), "$a:localhost", 100);
    assert!(changed.notified().now_or_never().is_some());
    upsert(&mut map, &key(None), "$b:localhost", 100);
    assert!(changed.notified().now_or_never().is_some());
    map.remove(&key(None));
    assert!(changed.notified().now_or_never().is_none());
}

#[test]
fn slow_subscriber_keeps_the_last_sixteen_updates() {
    let mut map = map_at(0);
    let mut rx = map.subscribe();
    for i in 0..17 {
        upsert(&mut map, &key(Some(&format!("{i}"))), "$a:localhost", 100);
    }
    assert!(matches!(rx.try_recv(), Err(TryRecvError::Lagged(1))));
    assert_eq!(rx.try_recv().unwrap().added, vec![key(Some("1"))]);
}

#[test]
fn subscriber_gets_no_earlier_updates() {
    let mut map = map_at(0);
    upsert(&mut map, &key(Some("1")), "$a:localhost", 100);
    let mut rx = map.subscribe();
    upsert(&mut map, &key(Some("2")), "$a:localhost", 100);
    assert_eq!(rx.try_recv().unwrap().added, vec![key(Some("2"))]);
}

#[test]
fn default_update_is_empty() {
    let mut update = StickyEventsUpdate::default();
    assert!(update.is_empty());
    update.removed.push((key(None), RemovalReason::Expired));
    assert!(!update.is_empty());
}

#[test]
fn live_entries_are_listed_once_each() {
    let mut map = map_at(0);
    upsert(&mut map, &key(Some("b")), "$a:localhost", 100);
    upsert(&mut map, &key(Some("a")), "$b:localhost", 200);
    upsert(&mut map, &key(None), "$c:localhost", 50);
    let mut live: Vec<StickyKey> =
        map.iter_live_at(50).into_iter().map(|(key, _)| key.clone()).collect();
    live.sort();
    assert_eq!(live, vec![key(Some("a")), key(Some("b"))]);
    assert_eq!(map.len_live_at(50), 2);
    assert_eq!(map.len_live_at(49), 3);
}

#[test]
fn winning_removal_takes_the_entry_away() {
    let mut map = map_at(0);
    upsert(&mut map, &key(None), "$b:localhost", 100);
    upsert(&mut map, &key(Some("other")), "$b:localhost", 100);
    // A lower event id does not outrank the entry; a higher one does.
    assert!(!map.upsert(key(None), 0, "$a:localhost".to_owned(), 100, true));
    assert!(map.upsert(key(None), 0, "$c:localhost".to_owned(), 100, true));
    assert!(map.get(&key(None)).is_none());
    assert!(map.get(&key(Some("other"))).is_some());
}
