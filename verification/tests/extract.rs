//! The extraction of sticky metadata from raw events.

use sticky_events::extract::{
    candidate_with, classify, extract_with, probe_content, resolve, sticky_meta, ContentProbe,
    StickyCandidate, StickyExtract, StickyMeta,
};
use sticky_events::raw::RawJson;
use sticky_events::MAX_STICKY_DURATION_MS;

const RECEIVED_TS: u64 = 10_000;

fn raw(json: &str) -> RawJson {
    RawJson::new(json.to_owned())
}

fn expect_sticky(extract: StickyExtract) -> StickyCandidate {
    match extract {
        StickyExtract::Sticky(candidate) => candidate,
        StickyExtract::NotSticky => panic!("expected sticky, got NotSticky"),
        StickyExtract::NeedsDecryption(_) => panic!("expected sticky, got NeedsDecryption"),
    }
}

/// An event with the given `content`, and members after it.
fn event_with(content: &str, more: &str) -> RawJson {
    raw(&format!(
        r#"{{
            "type": "m.rtc.member",
            "sender": "@alice:localhost",
            "event_id": "$a:localhost",
            "origin_server_ts": 1000,
            "msc4354_sticky": {{ "duration_ms": 500 }},
            "content": {content}{more}
        }}"#
    ))
}

fn meta() -> StickyMeta {
    sticky_meta(
        RECEIVED_TS,
        500,
        "@alice:localhost".to_owned(),
        "$a:localhost".to_owned(),
        1000,
        None,
    )
}

#[test]
fn test_connect_event_is_a_sticky_candidate() {
    let event = raw(r#"{
        "type": "m.rtc.member",
        "sender": "@alice:localhost",
        "event_id": "$a:localhost",
        "origin_server_ts": 1000,
        "content": { "msc4354_sticky_key": "slot", "application": "m.call" },
        "msc4354_sticky": { "duration_ms": 500 }
    }"#);

    let candidate = expect_sticky(classify(RECEIVED_TS, &event));
    assert_eq!(candidate.key.sender, "@alice:localhost");
    assert_eq!(candidate.key.event_type, "m.rtc.member");
    assert_eq!(candidate.key.sticky_key.as_deref(), Some("slot"));
    assert_eq!(candidate.event_id, "$a:localhost");
    assert!(!candidate.is_removal);
    // start_time = min(1000, 10_000) = 1000; end = 1000 + 500.
    assert_eq!(candidate.end_time, 1500);
}

#[test]
fn test_removal_event_when_content_only_carries_sticky_key() {
    let event = raw(r#"{
        "type": "m.rtc.member",
        "sender": "@alice:localhost",
        "event_id": "$b:localhost",
        "origin_server_ts": 1000,
        "content": { "msc4354_sticky_key": "slot" },
        "msc4354_sticky": { "duration_ms": 500 }
    }"#);

    let candidate = expect_sticky(classify(RECEIVED_TS, &event));
    assert!(candidate.is_removal);
    assert_eq!(candidate.key.sticky_key.as_deref(), Some("slot"));
}

/// Sticky event contents may spell the key either way, and both spellings at
/// once must still read as a removal rather than as content of their own.
#[test]
fn test_removal_event_with_the_stable_sticky_key_spelling() {
    for content in [
        r#"{ "sticky_key": "slot" }"#,
        r#"{ "msc4354_sticky_key": "slot", "sticky_key": "slot" }"#,
    ] {
        let event = raw(&format!(
            r#"{{
                "type": "m.rtc.member",
                "sender": "@alice:localhost",
                "event_id": "$b:localhost",
                "origin_server_ts": 1000,
                "content": {content},
                "msc4354_sticky": {{ "duration_ms": 500 }}
            }}"#
        ));

        let candidate = expect_sticky(classify(RECEIVED_TS, &event));
        assert!(candidate.is_removal);
        assert_eq!(candidate.key.sticky_key.as_deref(), Some("slot"));
    }
}

#[test]
fn test_unsigned_ttl_takes_precedence_over_duration() {
    let event = raw(r#"{
        "type": "m.rtc.member",
        "sender": "@alice:localhost",
        "event_id": "$c:localhost",
        "origin_server_ts": 1000,
        "content": { "msc4354_sticky_key": "slot", "application": "m.call" },
        "msc4354_sticky": { "duration_ms": 500 },
        "unsigned": { "msc4354_sticky_duration_ttl_ms": 250000 }
    }"#);

    let candidate = expect_sticky(classify(RECEIVED_TS, &event));
    // Uses received_ts + ttl, not origin + duration.
    assert_eq!(candidate.end_time, RECEIVED_TS + 250_000);
}

#[test]
fn test_non_sticky_event_is_ignored() {
    let event = raw(r#"{
        "type": "m.room.message",
        "sender": "@alice:localhost",
        "event_id": "$d:localhost",
        "origin_server_ts": 1000,
        "content": { "body": "hello", "msgtype": "m.text" }
    }"#);

    assert!(matches!(classify(RECEIVED_TS, &event), StickyExtract::NotSticky));
}

#[test]
fn test_encrypted_sticky_event_needs_decryption_not_unkeyed() {
    // An encrypted sticky event must NOT be filed as an unkeyed
    // `m.room.encrypted` entry; it needs decryption first.
    let event = raw(r#"{
        "type": "m.room.encrypted",
        "sender": "@alice:localhost",
        "event_id": "$e:localhost",
        "origin_server_ts": 1000,
        "content": { "algorithm": "m.megolm.v1.aes-sha2", "ciphertext": "AAA" },
        "msc4354_sticky": { "duration_ms": 500 }
    }"#);

    assert!(matches!(classify(RECEIVED_TS, &event), StickyExtract::NeedsDecryption(_)));
}

#[test]
fn encrypted_event_hands_out_its_metadata() {
    let event = raw(r#"{
        "type": "m.room.encrypted",
        "sender": "@alice:localhost",
        "event_id": "$e:localhost",
        "origin_server_ts": 1000,
        "content": {},
        "msc4354_sticky": { "duration_ms": 500 }
    }"#);
    let expected = StickyMeta {
        sender: "@alice:localhost".to_owned(),
        event_id: "$e:localhost".to_owned(),
        end_time: 1500,
    };
    assert_eq!(classify(RECEIVED_TS, &event), StickyExtract::NeedsDecryption(expected));
}

#[test]
fn stated_ttl_counts_for_one_hour_at_most() {
    let event =
        event_with("{}", r#", "unsigned": { "msc4354_sticky_duration_ttl_ms": 99999999999 }"#);
    let candidate = expect_sticky(classify(RECEIVED_TS, &event));
    assert_eq!(candidate.end_time, RECEIVED_TS + MAX_STICKY_DURATION_MS);
}

#[test]
fn ttl_may_be_the_only_element_of_an_array() {
    let event = event_with("{}", r#", "unsigned": [250000]"#);
    assert_eq!(expect_sticky(classify(RECEIVED_TS, &event)).end_time, RECEIVED_TS + 250_000);
}

#[test]
fn unusable_ttl_is_no_ttl() {
    for unsigned in [
        r#"[]"#,
        r#"[null]"#,
        r#"["250"]"#,
        r#"[250, 1]"#,
        r#"{}"#,
        r#"null"#,
        r#"7"#,
        r#"{ "msc4354_sticky_duration_ttl_ms": null }"#,
        r#"{ "msc4354_sticky_duration_ttl_ms": "250" }"#,
        r#"{ "msc4354_sticky_duration_ttl_ms": -1 }"#,
    ] {
        let event = event_with("{}", &format!(r#", "unsigned": {unsigned}"#));
        assert_eq!(expect_sticky(classify(RECEIVED_TS, &event)).end_time, 1500);
    }
}

#[test]
fn event_without_what_it_needs_is_not_sticky() {
    let members = [
        r#""type": "m.rtc.member""#,
        r#""sender": "@alice:localhost""#,
        r#""event_id": "$a:localhost""#,
        r#""origin_server_ts": 1000"#,
        r#""msc4354_sticky": { "duration_ms": 500 }"#,
    ];
    let all = format!("{{ {} }}", members.join(", "));
    assert!(matches!(classify(RECEIVED_TS, &raw(&all)), StickyExtract::Sticky(_)));
    for i in 0..members.len() {
        let mut some = members.to_vec();
        some.remove(i);
        let event = format!("{{ {} }}", some.join(", "));
        assert_eq!(classify(RECEIVED_TS, &raw(&event)), StickyExtract::NotSticky);
    }
}

#[test]
fn event_with_malformed_metadata_is_not_sticky() {
    for (good, bad) in [
        (r#""@alice:localhost""#, r#""alice""#),
        (r#""$a:localhost""#, r#""a""#),
        ("1000", r#""1000""#),
        (r#""m.rtc.member""#, "7"),
        (r#""duration_ms": 500"#, r#""duration_ms": 3600001"#),
        (r#""duration_ms": 500"#, r#""duration_ms": "500""#),
    ] {
        let event = event_with("{}", "").json.replace(good, bad);
        assert_eq!(classify(RECEIVED_TS, &raw(&event)), StickyExtract::NotSticky);
    }
    assert_eq!(classify(RECEIVED_TS, &raw("no json")), StickyExtract::NotSticky);
    assert_eq!(classify(RECEIVED_TS, &raw("[]")), StickyExtract::NotSticky);
}

#[test]
fn unstable_key_is_preferred() {
    let event = event_with(r#"{ "sticky_key": "stable", "msc4354_sticky_key": "unstable" }"#, "");
    let candidate = expect_sticky(classify(RECEIVED_TS, &event));
    assert_eq!(candidate.key.sticky_key.as_deref(), Some("unstable"));
}

#[test]
fn null_key_is_no_key() {
    let event = event_with(r#"{ "msc4354_sticky_key": null, "sticky_key": "stable", "a": 1 }"#, "");
    let candidate = expect_sticky(classify(RECEIVED_TS, &event));
    assert_eq!(candidate.key.sticky_key.as_deref(), Some("stable"));
    assert!(!candidate.is_removal);
}

#[test]
fn event_without_a_key_is_kept() {
    let candidate = expect_sticky(classify(RECEIVED_TS, &event_with(r#"{ "a": 1 }"#, "")));
    assert_eq!(candidate.key.sticky_key, None);
    assert!(!candidate.is_removal);
}

#[test]
fn unreadable_content_counts_as_empty() {
    for content in [
        r#"{}"#,
        r#"null"#,
        r#"[]"#,
        r#""text""#,
        r#"{ "sticky_key": 7, "application": "m.call" }"#,
        r#"{ "sticky_key": "slot", "msc4354_sticky_key": {}, "application": "m.call" }"#,
    ] {
        let candidate = expect_sticky(classify(RECEIVED_TS, &event_with(content, "")));
        assert_eq!(candidate.key.sticky_key, None);
        assert!(candidate.is_removal);
    }
}

#[test]
fn decrypted_event_is_resolved_by_its_content() {
    let decrypted = raw(r#"{
        "type": "m.rtc.member",
        "sender": "@mallory:localhost",
        "content": { "sticky_key": "slot", "application": "m.call" }
    }"#);
    let candidate = resolve(meta(), &decrypted).unwrap();
    // Sender, event id and expiry are those of the outer event.
    assert_eq!(candidate.key.sender, "@alice:localhost");
    assert_eq!(candidate.event_id, "$a:localhost");
    assert_eq!(candidate.end_time, 1500);
    assert_eq!(candidate.key.event_type, "m.rtc.member");
    assert_eq!(candidate.key.sticky_key.as_deref(), Some("slot"));
    assert!(!candidate.is_removal);
}

#[test]
fn decrypted_event_without_a_type_is_not_resolved() {
    assert_eq!(resolve(meta(), &raw(r#"{ "content": {} }"#)), None);
}

#[test]
fn metadata_by_value() {
    assert_eq!(meta().end_time, 1500);
    let with_ttl = sticky_meta(
        RECEIVED_TS,
        500,
        "@alice:localhost".to_owned(),
        "$a:localhost".to_owned(),
        1000,
        Some(70),
    );
    assert_eq!(with_ttl.end_time, RECEIVED_TS + 70);
}

#[test]
fn classification_by_value() {
    let content = || ContentProbe { sticky_key: Some("slot".to_owned()), is_bare: true };
    assert_eq!(extract_with(meta(), None, content()), StickyExtract::NotSticky);
    assert_eq!(
        extract_with(meta(), Some("m.room.encrypted".to_owned()), content()),
        StickyExtract::NeedsDecryption(meta())
    );
    let candidate =
        expect_sticky(extract_with(meta(), Some("m.rtc.member".to_owned()), content()));
    assert_eq!(candidate.key.sticky_key.as_deref(), Some("slot"));
    assert!(candidate.is_removal);
}

#[test]
fn content_by_value() {
    let empty = ContentProbe { sticky_key: None, is_bare: true };
    let text = |text: &str| Some(Some(text.to_owned()));
    let names = |names: &[&str]| Some(names.iter().map(|name| name.to_string()).collect());
    // No object, or something other than a string for a key.
    assert_eq!(probe_content(Some(None), Some(None), None), empty);
    assert_eq!(probe_content(None, text("b"), names(&["other"])), empty);
    assert_eq!(probe_content(text("a"), None, names(&["other"])), empty);
    assert_eq!(probe_content(Some(None), Some(None), names(&[])), empty);
    assert_eq!(
        probe_content(text("a"), text("b"), names(&["sticky_key", "msc4354_sticky_key"])),
        ContentProbe { sticky_key: Some("a".to_owned()), is_bare: true }
    );
    assert_eq!(
        probe_content(Some(None), text("b"), names(&["sticky_key", "other"])),
        ContentProbe { sticky_key: Some("b".to_owned()), is_bare: false }
    );
}

/// An object is no sticky key, whatever names it holds.
#[test]
fn object_is_no_sticky_key() {
    let token = r#"{ "$serde_json::private::RawValue": "\"slot\"" }"#;
    let content = format!(r#"{{ "sticky_key": {token}, "application": "m.call" }}"#);
    let candidate = expect_sticky(classify(RECEIVED_TS, &event_with(&content, "")));
    assert_eq!(candidate.key.sticky_key, None);
    assert!(candidate.is_removal);
}

#[test]
fn candidate_by_value() {
    let content = ContentProbe { sticky_key: Some("slot".to_owned()), is_bare: false };
    let candidate = candidate_with(meta(), "m.rtc.member".to_owned(), content);
    assert_eq!(candidate.key.sender, "@alice:localhost");
    assert_eq!(candidate.key.event_type, "m.rtc.member");
    assert_eq!(candidate.key.sticky_key.as_deref(), Some("slot"));
    assert_eq!(candidate.event_id, "$a:localhost");
    assert_eq!(candidate.end_time, 1500);
    assert!(!candidate.is_removal);
}
