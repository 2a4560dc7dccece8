//! The coordination of all rooms.

use std::sync::Arc;
use sticky_events::event::TimelineEventKind;
use sticky_events::extract::{resolve, sticky_meta, StickyCandidate};
use sticky_events::manager::{
    needs_decryption, resolve_inputs, rooms_to_retry, settle, settle_decrypted, settle_room,
    sticky_inputs, Decryption, ResolveInput, RoomKeyNews, Settled,
};
use sticky_events::raw::RawJson;
use sticky_events::rooms::gather_by_room;
use sticky_events::{Clock, StickyEvents};

#[derive(Debug)]
struct FixedClock;

impl Clock for FixedClock {
    fn now_ms(&self) -> u64 {
        1_000
    }
}

type Info = &'static str;

fn plain(event_id: &str) -> RawJson {
    RawJson::new(format!(
        r#"{{
            "type": "m.rtc.member",
            "sender": "@alice:localhost",
            "event_id": "{event_id}",
            "origin_server_ts": 1000,
            "content": {{ "sticky_key": "{event_id}", "application": "m.call" }},
            "msc4354_sticky": {{ "duration_ms": 500 }}
        }}"#
    ))
}

fn encrypted(event_id: &str) -> RawJson {
    RawJson::new(format!(
        r#"{{
            "type": "m.room.encrypted",
            "sender": "@alice:localhost",
            "event_id": "{event_id}",
            "origin_server_ts": 1000,
            "content": {{ "ciphertext": "AAA" }},
            "msc4354_sticky": {{ "duration_ms": 500 }}
        }}"#
    ))
}

fn message() -> RawJson {
    RawJson::new(
        r#"{
            "type": "m.room.message",
            "sender": "@alice:localhost",
            "event_id": "$message",
            "origin_server_ts": 1000,
            "content": { "body": "hello" }
        }"#
        .to_owned(),
    )
}

fn decrypted() -> TimelineEventKind<Info> {
    let event = RawJson::new(
        r#"{
            "type": "m.rtc.member",
            "content": { "sticky_key": "secret", "application": "m.call" }
        }"#
        .to_owned(),
    );
    TimelineEventKind::Decrypted { event, encryption_info: Arc::new("olm") }
}

fn input(received_ts: u64, event: RawJson, decryption: Decryption<Info>) -> ResolveInput<Info> {
    ResolveInput { received_ts, event, decryption }
}

fn candidate() -> StickyCandidate {
    let meta =
        sticky_meta(1, 2, "@alice:localhost".to_owned(), "$e".to_owned(), 3, None);
    resolve(meta, decrypted().raw()).unwrap()
}

#[test]
fn sticky_events_are_picked_in_order() {
    let events = vec![plain("$1"), message(), encrypted("$2"), RawJson::new("{}".to_owned())];
    assert_eq!(sticky_inputs(7, events), vec![(7, plain("$1")), (7, encrypted("$2"))]);
}

#[test]
fn only_encrypted_events_need_decryption() {
    assert!(needs_decryption(7, &encrypted("$1")));
    assert!(!needs_decryption(7, &plain("$1")));
    assert!(!needs_decryption(7, &message()));
}

#[test]
fn plaintext_event_is_resolved() {
    match settle(input(7, plain("$1"), Decryption::NotAttempted)) {
        Settled::Resolved((candidate, kind)) => {
            assert_eq!(candidate.event_id, "$1");
            // start_time = min(1000, 7); end = 7 + 500.
            assert_eq!(candidate.end_time, 507);
            assert!(matches!(kind, TimelineEventKind::PlainText { .. }));
            assert_eq!(kind.raw(), &plain("$1"));
        }
        Settled::Dropped | Settled::Parked(_) => panic!("expected a resolved event"),
    }
}

#[test]
fn event_that_is_not_sticky_is_dropped() {
    assert!(matches!(settle(input(7, message(), Decryption::NotAttempted)), Settled::Dropped));
}

#[test]
fn undecryptable_event_is_parked_as_it_came() {
    let still_encrypted = TimelineEventKind::PlainText { event: encrypted("$1") };
    let utd = TimelineEventKind::UnableToDecrypt { event: encrypted("$1") };
    for decryption in [
        Decryption::NotAttempted,
        Decryption::Failed,
        Decryption::Done(still_encrypted),
        Decryption::Done(utd),
    ] {
        match settle(input(7, encrypted("$1"), decryption)) {
            Settled::Parked(parked) => assert_eq!(parked, (7, encrypted("$1"))),
            Settled::Dropped | Settled::Resolved(_) => panic!("expected a parked event"),
        }
    }
}

#[test]
fn decrypted_event_is_resolved() {
    match settle(input(7, encrypted("$1"), Decryption::Done(decrypted()))) {
        Settled::Resolved((candidate, kind)) => {
            assert_eq!(candidate.key.sticky_key.as_deref(), Some("secret"));
            assert_eq!(candidate.key.event_type, "m.rtc.member");
            // The outer event says who sent it, and when it expires.
            assert_eq!(candidate.key.sender, "@alice:localhost");
            assert_eq!(candidate.event_id, "$1");
            assert_eq!(candidate.end_time, 507);
            assert_eq!(**kind.encryption_info().unwrap(), "olm");
        }
        Settled::Dropped | Settled::Parked(_) => panic!("expected a resolved event"),
    }
}

#[test]
fn decrypted_event_without_a_type_is_dropped() {
    let kind = TimelineEventKind::PlainText { event: RawJson::new("{}".to_owned()) };
    let settled = settle(input(7, encrypted("$1"), Decryption::Done(kind)));
    assert!(matches!(settled, Settled::Dropped));
}

#[test]
fn settling_by_value() {
    let parked = (7, encrypted("$1"));
    let encrypted_type = Some("m.room.encrypted".to_owned());
    let settled = settle_decrypted(parked.clone(), decrypted(), encrypted_type, Some(candidate()));
    assert!(matches!(settled, Settled::Parked(_)));
    let settled = settle_decrypted(parked.clone(), decrypted(), None, None);
    assert!(matches!(settled, Settled::Dropped));
    let settled =
        settle_decrypted(parked, decrypted(), Some("m.rtc.member".to_owned()), Some(candidate()));
    assert!(matches!(settled, Settled::Resolved(_)));
}

#[test]
fn batch_is_split_in_order() {
    let (resolved, pending) = resolve_inputs(vec![
        input(7, encrypted("$1"), Decryption::Failed),
        input(7, plain("$2"), Decryption::NotAttempted),
        input(8, message(), Decryption::NotAttempted),
        input(9, encrypted("$3"), Decryption::Done(decrypted())),
        input(10, encrypted("$4"), Decryption::NotAttempted),
    ]);
    let ids: Vec<&str> = resolved.iter().map(|(candidate, _)| candidate.event_id.as_str()).collect();
    assert_eq!(ids, vec!["$2", "$3"]);
    assert_eq!(pending, vec![(7, encrypted("$1")), (10, encrypted("$4"))]);
}

#[test]
fn retry_does_not_reset_the_ttl() {
    let mut sticky: StickyEvents<Info> = StickyEvents::with_clock(Arc::new(FixedClock));
    settle_room(&mut sticky, vec![input(900, encrypted("$1"), Decryption::NotAttempted)]);
    assert!(sticky.live().is_empty());
    // A retry without the key parks the event again, as it was.
    let pending = sticky.take_pending();
    let retry: Vec<ResolveInput<Info>> = pending
        .into_iter()
        .map(|(received_ts, event)| input(received_ts, event, Decryption::Failed))
        .collect();
    settle_room(&mut sticky, retry);
    let pending = sticky.take_pending();
    assert_eq!(pending, vec![(900, encrypted("$1"))]);
    // With the key the event is filed, and expires when it would have.
    let retry: Vec<ResolveInput<Info>> = pending
        .into_iter()
        .map(|(received_ts, event)| input(received_ts, event, Decryption::Done(decrypted())))
        .collect();
    settle_room(&mut sticky, retry);
    let live = sticky.live();
    assert_eq!(live.len(), 1);
    assert_eq!(live[0].expires_at_ms, 1_400);
    assert!(sticky.take_pending().is_empty());
}

#[test]
fn settling_a_room_starts_its_task_once() {
    let mut sticky: StickyEvents<Info> = StickyEvents::new(Arc::new(FixedClock));
    assert!(settle_room(&mut sticky, vec![]).is_none());
    let start = settle_room(
        &mut sticky,
        vec![
            input(900, plain("$1"), Decryption::NotAttempted),
            input(900, encrypted("$2"), Decryption::NotAttempted),
        ],
    )
    .unwrap();
    assert_eq!(start.updates.unwrap().try_recv().unwrap().added.len(), 1);
    let more = vec![input(900, encrypted("$3"), Decryption::NotAttempted)];
    assert!(settle_room(&mut sticky, more).is_none());
    assert_eq!(sticky.take_pending().len(), 2);
}

#[test]
fn room_with_only_parked_events_starts_its_task() {
    let mut sticky: StickyEvents<Info> = StickyEvents::new(Arc::new(FixedClock));
    let inputs = vec![input(900, encrypted("$1"), Decryption::NotAttempted)];
    assert!(settle_room(&mut sticky, inputs).is_some());
}

#[test]
fn events_are_gathered_by_room() {
    let section = vec![
        ("!b".to_owned(), vec![plain("$1")]),
        ("!a".to_owned(), vec![plain("$2"), plain("$3")]),
    ];
    let timelines = vec![
        ("!c".to_owned(), vec![]),
        ("!a".to_owned(), vec![message()]),
        ("!0".to_owned(), vec![plain("$4")]),
    ];
    assert_eq!(
        gather_by_room(section, timelines),
        vec![
            ("!0".to_owned(), vec![plain("$4")]),
            ("!a".to_owned(), vec![plain("$2"), plain("$3"), message()]),
            ("!b".to_owned(), vec![plain("$1")]),
            ("!c".to_owned(), vec![]),
        ]
    );
    assert!(gather_by_room(vec![], vec![]).is_empty());
}

#[test]
fn rooms_to_retry_are_those_named() {
    let named = vec!["!b".to_owned(), "!a".to_owned(), "!b".to_owned()];
    assert_eq!(rooms_to_retry(RoomKeyNews::Received(named)), vec!["!a", "!b"]);
    let known_rooms = vec!["!2".to_owned(), "!1".to_owned()];
    assert_eq!(rooms_to_retry(RoomKeyNews::Missed { known_rooms }), vec!["!1", "!2"]);
    assert!(rooms_to_retry(RoomKeyNews::Received(vec![])).is_empty());
}
