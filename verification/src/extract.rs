//! Extraction of sticky-event metadata from raw sync events.
//!
//! Sticky events arrive both in the dedicated sync section and (deduplicated out
//! of that section) in the room timeline; a single extractor handles both.
//!
//! Encryption needs care: for an encrypted sticky event the server annotates the
//! *outer* `m.room.encrypted` event with `msc4354_sticky`, but the `type` and
//! `content.sticky_key` we key on live in the *decrypted* content. So
//! [`classify`] separates the two: it reads the sticky metadata from the outer
//! event and, for encrypted events, defers to [`resolve`] once the content has
//! been decrypted. This avoids mistakenly filing an encrypted event as an
//! *unkeyed* `m.room.encrypted` sticky.

use crate::key::StickyKey;
use crate::map::{add_sticky_duration, compute_end_time};
use crate::raw::{
    read_event_id, read_member_names, read_only_u64, read_optional_string, read_raw,
    read_sticky_duration, read_string, read_u64, read_user_id, RawJson,
};
use crate::text::same_text;
use vstd::prelude::*;

verus! {

use crate::key::StickyKeyView;
use crate::map::{earlier, end_after};
use crate::raw::{
    json_event_id, json_member_names, json_only_u64, json_optional_string, json_sticky_duration,
    json_string, json_text, json_u64, json_user_id, name_set,
};
use crate::text::optional_text;

/// The metadata extracted from a sticky event, ready to feed into
/// [`EphemeralMap::upsert`](crate::map::EphemeralMap::upsert).
#[derive(Clone, Debug, PartialEq, Eq)]
pub struct StickyCandidate {
    /// The `(sender, type, sticky_key)` key.
    pub key: StickyKey,
    /// The event id (tie-breaker).
    pub event_id: String,
    /// The absolute expiry time in milliseconds since the Unix epoch.
    pub end_time: u64,
    /// Whether this event removes its map entry (empty content besides
    /// `sticky_key`).
    pub is_removal: bool,
}

/// What a [`StickyCandidate`] stands for.
#[verifier::ext_equal]
pub struct StickyCandidateView {
    pub key: StickyKeyView,
    pub event_id: Seq<char>,
    pub end_time: u64,
    pub is_removal: bool,
}

impl View for StickyCandidate {
    type V = StickyCandidateView;

    open spec fn view(&self) -> StickyCandidateView {
        StickyCandidateView {
            key: self.key@,
            event_id: self.event_id@,
            end_time: self.end_time,
            is_removal: self.is_removal,
        }
    }
}

/// Sticky metadata read from the *outer* event, independent of the (possibly
/// encrypted) content. Combined with the decrypted content by [`resolve`].
#[derive(Clone, Debug, PartialEq, Eq)]
pub struct StickyMeta {
    /// The user id of the sender.
    pub sender: String,
    /// The event id.
    pub event_id: String,
    /// The absolute expiry time in milliseconds since the Unix epoch.
    pub end_time: u64,
}

/// What a [`StickyMeta`] stands for.
#[verifier::ext_equal]
pub struct StickyMetaView {
    pub sender: Seq<char>,
    pub event_id: Seq<char>,
    pub end_time: u64,
}

impl View for StickyMeta {
    type V = StickyMetaView;

    open spec fn view(&self) -> StickyMetaView {
        StickyMetaView {
            sender: self.sender@,
            event_id: self.event_id@,
            end_time: self.end_time,
        }
    }
}

/// The result of classifying a raw sync event.
#[derive(Debug, PartialEq, Eq)]
pub enum StickyExtract {
    /// Not a sticky event.
    NotSticky,
    /// A sticky event whose content is encrypted; decrypt it and call
    /// [`resolve`] with the decrypted event.
    NeedsDecryption(StickyMeta),
    /// A plaintext sticky event, fully resolved.
    Sticky(StickyCandidate),
}

/// What a [`StickyExtract`] stands for.
#[verifier::ext_equal]
pub enum StickyExtractView {
    NotSticky,
    NeedsDecryption(StickyMetaView),
    Sticky(StickyCandidateView),
}

impl View for StickyExtract {
    type V = StickyExtractView;

    open spec fn view(&self) -> StickyExtractView {
        match self {
            StickyExtract::NotSticky => StickyExtractView::NotSticky,
            StickyExtract::NeedsDecryption(meta) => StickyExtractView::NeedsDecryption(meta@),
            StickyExtract::Sticky(candidate) => StickyExtractView::Sticky(candidate@),
        }
    }
}

/// The fields of `content` we care about.
#[derive(Debug, PartialEq, Eq)]
pub struct ContentProbe {
    /// The sticky key under either spelling.
    pub sticky_key: Option<String>,
    /// Whether the content carries nothing beyond the sticky key.
    pub is_bare: bool,
}

/// What a [`ContentProbe`] stands for.
#[verifier::ext_equal]
pub struct ContentProbeView {
    pub sticky_key: Option<Seq<char>>,
    pub is_bare: bool,
}

impl View for ContentProbe {
    type V = ContentProbeView;

    open spec fn view(&self) -> ContentProbeView {
        ContentProbeView { sticky_key: optional_text(self.sticky_key), is_bare: self.is_bare }
    }
}

/// The metadata of a sticky event: it expires when the remaining time to live is
/// over that the server has stated, counted from the time of receipt, or else
/// when its declared duration is over.
pub open spec fn meta_from(
    received_ts: u64,
    duration_ms: u32,
    sender: Seq<char>,
    event_id: Seq<char>,
    origin_server_ts: u64,
    ttl_ms: Option<u64>,
) -> StickyMetaView {
    StickyMetaView {
        sender,
        event_id,
        end_time: match ttl_ms {
            Some(ttl) => end_after(received_ts, ttl),
            None => end_after(earlier(origin_server_ts, received_ts), duration_ms as u64),
        },
    }
}

/// The remaining time to live that the server may state in `unsigned`: by name in
/// an object or, as the only element, in an array. A name may be repeated: if every
/// member with it can be read, the last one counts.
pub open spec fn ttl_of(event: Seq<char>) -> Option<u64> {
    let by_name = match json_text(event, "unsigned"@) {
        Some(unsigned) => json_u64(unsigned, "msc4354_sticky_duration_ttl_ms"@),
        None => None,
    };
    match by_name {
        Some(ttl) => Some(ttl),
        None => json_only_u64(event, "unsigned"@),
    }
}

/// The sticky metadata of an event, if it is sticky: it has a sticky object, a
/// sender, an event id and a timestamp.
pub open spec fn meta_of(received_ts: u64, event: Seq<char>) -> Option<StickyMetaView> {
    match (
        json_sticky_duration(event, "msc4354_sticky"@),
        json_user_id(event, "sender"@),
        json_event_id(event, "event_id"@),
        json_u64(event, "origin_server_ts"@),
    ) {
        (Some(duration_ms), Some(sender), Some(event_id), Some(origin_server_ts)) => Some(
            meta_from(received_ts, duration_ms, sender, event_id, origin_server_ts, ttl_of(event)),
        ),
        _ => None,
    }
}

/// The type of an event.
pub open spec fn type_of(event: Seq<char>) -> Option<Seq<char>> {
    json_string(event, "type"@)
}

/// An event whose content is encrypted.
pub open spec fn is_encrypted(event_type: Option<Seq<char>>) -> bool {
    event_type == Some("m.room.encrypted"@)
}

/// There is nothing but sticky keys among `names`.
pub open spec fn only_sticky_keys(names: Set<Seq<char>>) -> bool {
    forall|name: Seq<char>| #[trigger]
        names.contains(name) ==> name == "msc4354_sticky_key"@ || name == "sticky_key"@
}

/// What `content` says, by its two readings of a sticky key and the names of its
/// members: the key, under the unstable name or else under the stable one, and
/// whether there is nothing else in it. Content that is no object, or that has
/// something other than a string for a sticky key, counts as empty. A sticky key
/// that is repeated under one name is no such thing: its last reading stands here.
pub open spec fn probe_of(
    unstable_key: Option<Option<Seq<char>>>,
    stable_key: Option<Option<Seq<char>>>,
    names: Option<Set<Seq<char>>>,
) -> ContentProbeView {
    match (unstable_key, stable_key, names) {
        (Some(unstable_key), Some(stable_key), Some(names)) => ContentProbeView {
            sticky_key: match unstable_key {
                Some(key) => Some(key),
                None => stable_key,
            },
            is_bare: only_sticky_keys(names),
        },
        _ => ContentProbeView { sticky_key: None, is_bare: true },
    }
}

/// What the content of an event says; without content it counts as empty. A name
/// may be repeated: if every member with it can be read, the last one counts.
pub open spec fn content_of(event: Seq<char>) -> ContentProbeView {
    match json_text(event, "content"@) {
        Some(content) => probe_of(
            json_optional_string(content, "msc4354_sticky_key"@),
            json_optional_string(content, "sticky_key"@),
            json_member_names(event, "content"@),
        ),
        None => ContentProbeView { sticky_key: None, is_bare: true },
    }
}

/// The candidate that metadata, type and content make.
pub open spec fn candidate_from(
    meta: StickyMetaView,
    event_type: Seq<char>,
    content: ContentProbeView,
) -> StickyCandidateView {
    StickyCandidateView {
        key: StickyKeyView { sender: meta.sender, event_type, sticky_key: content.sticky_key },
        event_id: meta.event_id,
        end_time: meta.end_time,
        is_removal: content.is_bare,
    }
}

/// What a sticky event is, by its type: encrypted, or else a candidate; nothing
/// without a type.
pub open spec fn extract_from(
    meta: StickyMetaView,
    event_type: Option<Seq<char>>,
    content: ContentProbeView,
) -> StickyExtractView {
    if is_encrypted(event_type) {
        StickyExtractView::NeedsDecryption(meta)
    } else {
        match event_type {
            Some(event_type) => StickyExtractView::Sticky(
                candidate_from(meta, event_type, content),
            ),
            None => StickyExtractView::NotSticky,
        }
    }
}

/// What an event is that was received at the given time.
pub open spec fn extract_of(received_ts: u64, event: Seq<char>) -> StickyExtractView {
    match meta_of(received_ts, event) {
        Some(meta) => extract_from(meta, type_of(event), content_of(event)),
        None => StickyExtractView::NotSticky,
    }
}

/// The candidate that metadata and a decrypted event make, if that has a type.
pub open spec fn resolved_from(meta: StickyMetaView, event: Seq<char>) -> Option<
    StickyCandidateView,
> {
    match type_of(event) {
        Some(event_type) => Some(
            candidate_from(meta, event_type, content_of(event)),
        ),
        None => None,
    }
}

/// Classify a raw sync event as a sticky candidate.
///
/// `received_ts` is the local time the event was (first) received, in
/// milliseconds since the Unix epoch; it feeds the expiry `start_time` and the
/// base for a server-provided remaining ttl. For a parked event awaiting
/// decryption this must be the *original* receive time, so its TTL does not
/// reset on retry.
pub fn classify(received_ts: u64, event: &RawJson) -> (extract: StickyExtract)
    ensures
        extract@ == extract_of(received_ts, event@),
{
    match read_meta(received_ts, event) {
        Some(meta) => extract_with(
            meta,
            read_string(event, "type"),
            read_content(event),
        ),
        None => StickyExtract::NotSticky,
    }
}

/// Classify an event by its metadata, type and content.
pub fn extract_with(
    meta: StickyMeta,
    event_type: Option<String>,
    content: ContentProbe,
) -> (extract: StickyExtract)
    ensures
        extract@ == extract_from(meta@, optional_text(event_type), content@),
{
    match event_type {
        Some(event_type) => {
            // An encrypted event hides its real type and `sticky_key`; defer to
            // `resolve` after decryption rather than filing it as an unkeyed
            // entry.
            if same_text(event_type.as_str(), "m.room.encrypted") {
                StickyExtract::NeedsDecryption(meta)
            } else {
                StickyExtract::Sticky(candidate_with(meta, event_type, content))
            }
        },
        None => StickyExtract::NotSticky,
    }
}

/// Resolve a sticky candidate from the outer [`StickyMeta`] and the decrypted
/// event. Returns `None` if the decrypted event lacks a `type`.
pub fn resolve(meta: StickyMeta, event: &RawJson) -> (candidate: Option<StickyCandidate>)
    ensures
        match candidate {
            Some(candidate) => resolved_from(meta@, event@) == Some(candidate@),
            None => resolved_from(meta@, event@) is None,
        },
{
    match read_string(event, "type") {
        Some(event_type) => Some(candidate_with(meta, event_type, read_content(event))),
        None => None,
    }
}

/// The candidate that metadata, type and content make.
pub fn candidate_with(meta: StickyMeta, event_type: String, content: ContentProbe) -> (candidate:
    StickyCandidate)
    ensures
        candidate@ == candidate_from(meta@, event_type@, content@),
{
    StickyCandidate {
        key: StickyKey::new(meta.sender, event_type, content.sticky_key),
        event_id: meta.event_id,
        end_time: meta.end_time,
        // A removal carries nothing beyond `sticky_key`.
        is_removal: content.is_bare,
    }
}

/// Read the sticky metadata from the outer event, or `None` if it is not
/// sticky.
fn read_meta(received_ts: u64, event: &RawJson) -> (meta: Option<StickyMeta>)
    ensures
        match meta {
            Some(meta) => meta_of(received_ts, event@) == Some(meta@),
            None => meta_of(received_ts, event@) is None,
        },
{
    let duration_ms: u32 = match read_sticky_duration(event, "msc4354_sticky") {
        Some(duration_ms) => duration_ms,
        None => {
            return None;
        },
    };
    let sender = match read_user_id(event, "sender") {
        Some(sender) => sender,
        None => {
            return None;
        },
    };
    let event_id = match read_event_id(event, "event_id") {
        Some(event_id) => event_id,
        None => {
            return None;
        },
    };
    let origin_server_ts: u64 = match read_u64(event, "origin_server_ts") {
        Some(origin_server_ts) => origin_server_ts,
        None => {
            return None;
        },
    };
    let ttl_by_name: Option<u64> = match read_raw(event, "unsigned") {
        Some(unsigned) => read_u64(&unsigned, "msc4354_sticky_duration_ttl_ms"),
        None => None,
    };
    let ttl_ms: Option<u64> = match ttl_by_name {
        Some(ttl) => Some(ttl),
        None => read_only_u64(event, "unsigned"),
    };
    Some(sticky_meta(received_ts, duration_ms, sender, event_id, origin_server_ts, ttl_ms))
}

/// The metadata of a sticky event. The server-provided remaining ttl is preferred
/// (`received_ts` + ttl); otherwise the declared duration counts, via
/// [`compute_end_time`].
pub fn sticky_meta(
    received_ts: u64,
    duration_ms: u32,
    sender: String,
    event_id: String,
    origin_server_ts: u64,
    ttl_ms: Option<u64>,
) -> (meta: StickyMeta)
    ensures
        meta@ == meta_from(
            received_ts,
            duration_ms,
            sender@,
            event_id@,
            origin_server_ts,
            ttl_ms,
        ),
{
    let end_time: u64 = match ttl_ms {
        Some(ttl) => add_sticky_duration(received_ts, ttl),
        None => compute_end_time(origin_server_ts, received_ts, duration_ms),
    };
    StickyMeta { sender, event_id, end_time }
}

/// Read what an event's content says.
fn read_content(event: &RawJson) -> (content: ContentProbe)
    ensures
        content@ == content_of(event@),
{
    match read_raw(event, "content") {
        Some(content) => probe_content(
            read_optional_string(&content, "msc4354_sticky_key"),
            read_optional_string(&content, "sticky_key"),
            read_member_names(event, "content"),
        ),
        None => ContentProbe { sticky_key: None, is_bare: true },
    }
}

/// Find the sticky key of `content`, and tell whether there is anything else, by
/// its two readings of a sticky key (`None` where there is something other than a
/// string) and the names of its members (`None` where it is no object).
pub fn probe_content(
    unstable_key: Option<Option<String>>,
    stable_key: Option<Option<String>>,
    names: Option<Vec<String>>,
) -> (probe: ContentProbe)
    ensures
        probe@ == probe_of(
            match unstable_key {
                Some(key) => Some(optional_text(key)),
                None => None,
            },
            match stable_key {
                Some(key) => Some(optional_text(key)),
                None => None,
            },
            match names {
                Some(names) => Some(name_set(names@)),
                None => None,
            },
        ),
{
    match (unstable_key, stable_key, names) {
        (Some(unstable_key), Some(stable_key), Some(names)) => {
            let sticky_key = match unstable_key {
                Some(key) => Some(key),
                None => stable_key,
            };
            ContentProbe { sticky_key, is_bare: is_bare(&names) }
        },
        _ => ContentProbe { sticky_key: None, is_bare: true },
    }
}

/// Whether there is nothing but sticky keys among the names.
fn is_bare(names: &Vec<String>) -> (bare: bool)
    ensures
        bare == only_sticky_keys(name_set(names@)),
{
    let mut i: usize = 0;
    while i < names.len()
        invariant
            i <= names@.len(),
            forall|j: int|
                0 <= j < i ==> (#[trigger] names@[j])@ == "msc4354_sticky_key"@ || names@[j]@
                    == "sticky_key"@,
        decreases names@.len() - i,
    {
        let name = names[i].as_str();
        if !same_text(name, "msc4354_sticky_key") && !same_text(name, "sticky_key") {
            assert(name_set(names@).contains(names@[i as int]@));
            return false;
        }
        i = i + 1;
    }
    true
}

/// An encrypted event is never filed under its outer type: whatever comes out of
/// the classification as a candidate has another type, and an encrypted event
/// that is sticky waits for its decryption.
pub proof fn law_encrypted_events_are_not_filed(received_ts: u64, event: Seq<char>)
    ensures
        extract_of(received_ts, event) matches StickyExtractView::Sticky(candidate)
            ==> candidate.key.event_type != "m.room.encrypted"@,
        is_encrypted(type_of(event)) ==> {
            ||| extract_of(received_ts, event) is NotSticky
            ||| extract_of(received_ts, event) is NeedsDecryption
        },
{
}

/// A sticky event expires at most one hour after it was received, whatever the
/// server states as its remaining time to live.
pub proof fn law_stickiness_lasts_one_hour_at_most(received_ts: u64, event: Seq<char>)
    ensures
        meta_of(received_ts, event) matches Some(meta) ==> meta.end_time <= received_ts
            + crate::map::MAX_STICKY_DURATION_MS,
{
}

} // verus!
