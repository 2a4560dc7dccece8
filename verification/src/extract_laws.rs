//! What the extraction of sticky metadata does, told of what an event says and of
//! what is made of it.

use crate::extract::{ContentProbe, StickyCandidate, StickyExtract, StickyMeta};
use vstd::prelude::*;

verus! {

use crate::extract::{
    candidate_from, content_of, extract_from, extract_of, is_encrypted, meta_from, meta_of,
    only_sticky_keys, probe_of, resolved_from, ttl_of, type_of, ContentProbeView,
    StickyCandidateView, StickyExtractView, StickyMetaView,
};
use crate::raw::{
    json_event_id, json_member_names, json_only_u64, json_optional_string, json_sticky_duration,
    json_string, json_text, json_u64, json_user_id,
};

/// A candidate, and metadata, stand for their own parts; so does what an event was
/// classified as, and what its content was found to say.
pub proof fn law_extracts_are_their_parts(
    candidate: StickyCandidate,
    meta: StickyMeta,
    probe: ContentProbe,
)
    ensures
        candidate@.key == candidate.key@,
        candidate@.event_id == candidate.event_id@,
        candidate@.end_time == candidate.end_time,
        candidate@.is_removal == candidate.is_removal,
        meta@.sender == meta.sender@,
        meta@.event_id == meta.event_id@,
        meta@.end_time == meta.end_time,
        probe@.is_bare == probe.is_bare,
        probe.sticky_key is None <==> probe@.sticky_key is None,
        probe.sticky_key matches Some(text) ==> probe@.sticky_key == Some(text@),
        StickyExtract::NotSticky@ == StickyExtractView::NotSticky,
        StickyExtract::NeedsDecryption(meta)@ == StickyExtractView::NeedsDecryption(meta@),
        StickyExtract::Sticky(candidate)@ == StickyExtractView::Sticky(candidate@),
{
}

/// `end` is `time` after `start`, or after one hour where `time` is longer, or the
/// last time there is where that comes first.
pub open spec fn ends_after(start: u64, time: int, end: u64) -> bool {
    let lasts = if time <= 3_600_000 { time } else { 3_600_000 };
    if start + lasts <= u64::MAX {
        end - start == lasts
    } else {
        end == u64::MAX
    }
}

/// The metadata of an event is its own sender and event id. It expires when the
/// time to live is over that the server has stated, counted from the receipt, or
/// else when its declared duration is over, counted from the earlier of its two
/// timestamps; in either case after one hour at the latest.
pub proof fn law_metadata_says_who_and_until_when(
    received_ts: u64,
    duration_ms: u32,
    sender: Seq<char>,
    event_id: Seq<char>,
    origin_server_ts: u64,
    ttl_ms: Option<u64>,
)
    ensures
        ({
            let meta = meta_from(
                received_ts,
                duration_ms,
                sender,
                event_id,
                origin_server_ts,
                ttl_ms,
            );
            &&& meta.sender == sender
            &&& meta.event_id == event_id
            &&& ttl_ms matches Some(ttl) ==> ends_after(received_ts, ttl as int, meta.end_time)
            &&& ttl_ms is None && origin_server_ts <= received_ts ==> ends_after(
                origin_server_ts,
                duration_ms as int,
                meta.end_time,
            )
            &&& ttl_ms is None && received_ts <= origin_server_ts ==> ends_after(
                received_ts,
                duration_ms as int,
                meta.end_time,
            )
        }),
{
}

/// The time to live is the one that `unsigned` states by name, or else the only
/// element of `unsigned`, or none.
pub proof fn law_stated_ttl_is_read(event: Seq<char>, unsigned: Seq<char>)
    ensures
        json_text(event, "unsigned"@) == Some(unsigned) && json_u64(
            unsigned,
            "msc4354_sticky_duration_ttl_ms"@,
        ) is Some ==> ttl_of(event) == json_u64(unsigned, "msc4354_sticky_duration_ttl_ms"@),
        json_text(event, "unsigned"@) == Some(unsigned) && json_u64(
            unsigned,
            "msc4354_sticky_duration_ttl_ms"@,
        ) is None ==> ttl_of(event) == json_only_u64(event, "unsigned"@),
        json_text(event, "unsigned"@) is None ==> ttl_of(event) == json_only_u64(
            event,
            "unsigned"@,
        ),
{
}

/// An event has sticky metadata exactly if it has a sticky object, a sender, an
/// event id and a timestamp; the metadata is made of these.
pub proof fn law_metadata_is_read_from_the_event(received_ts: u64, event: Seq<char>)
    ensures
        ({
            let duration = json_sticky_duration(event, "msc4354_sticky"@);
            let sender = json_user_id(event, "sender"@);
            let event_id = json_event_id(event, "event_id"@);
            let origin = json_u64(event, "origin_server_ts"@);
            let meta = meta_of(received_ts, event);
            &&& meta is Some <==> duration is Some && sender is Some && event_id is Some && origin
                is Some
            &&& meta is Some ==> {
                &&& Some(meta->0.sender) == sender
                &&& Some(meta->0.event_id) == event_id
                &&& ttl_of(event) matches Some(ttl) ==> ends_after(
                    received_ts,
                    ttl as int,
                    meta->0.end_time,
                )
                &&& ttl_of(event) is None && origin->0 <= received_ts ==> ends_after(
                    origin->0,
                    duration->0 as int,
                    meta->0.end_time,
                )
                &&& ttl_of(event) is None && received_ts <= origin->0 ==> ends_after(
                    received_ts,
                    duration->0 as int,
                    meta->0.end_time,
                )
            }
        }),
{
}

/// The type of an event is the string under `type`, and an event is encrypted
/// exactly if that is `m.room.encrypted`.
pub proof fn law_type_tells_what_is_encrypted(event: Seq<char>, name: Seq<char>)
    ensures
        type_of(event) == json_string(event, "type"@),
        is_encrypted(Some(name)) <==> name == "m.room.encrypted"@,
        !is_encrypted(None),
{
}

/// Names are only those of sticky keys exactly if there is no other among them.
pub proof fn law_other_names_are_content(names: Set<Seq<char>>, name: Seq<char>)
    ensures
        names.contains(name) && name != "msc4354_sticky_key"@ && name != "sticky_key"@
            ==> !only_sticky_keys(names),
        only_sticky_keys(set![]),
        only_sticky_keys(set!["sticky_key"@]),
        only_sticky_keys(set!["msc4354_sticky_key"@]),
        only_sticky_keys(names) ==> only_sticky_keys(names.insert("sticky_key"@))
            && only_sticky_keys(names.insert("msc4354_sticky_key"@)),
{
}

/// Readable content has the key that stands under the unstable name, or else the
/// one under the stable name, and is bare exactly if it has only sticky keys.
/// Content that cannot be read has no key and is bare.
pub proof fn law_content_says_its_key(
    unstable_key: Option<Seq<char>>,
    stable_key: Option<Seq<char>>,
    names: Set<Seq<char>>,
    any_key: Option<Option<Seq<char>>>,
    any_names: Option<Set<Seq<char>>>,
)
    ensures
        ({
            let probe = probe_of(Some(unstable_key), Some(stable_key), Some(names));
            &&& unstable_key is Some ==> probe.sticky_key == unstable_key
            &&& unstable_key is None ==> probe.sticky_key == stable_key
            &&& probe.is_bare <==> only_sticky_keys(names)
        }),
        forall|probe: ContentProbeView|
            {
                ||| probe == probe_of(None, any_key, any_names)
                ||| probe == probe_of(any_key, None, any_names)
                ||| probe == probe_of(any_key, any_key, None)
            } ==> (#[trigger] probe.sticky_key) is None && probe.is_bare,
{
}

/// The content of an event is what stands under `content`: its sticky keys are
/// read there, under their two names, and so are the names of its members. Without
/// `content` there is no key and nothing else.
pub proof fn law_content_is_read_from_the_event(event: Seq<char>, content: Seq<char>)
    ensures
        json_text(event, "content"@) == Some(content) ==> content_of(event) == probe_of(
            json_optional_string(content, "msc4354_sticky_key"@),
            json_optional_string(content, "sticky_key"@),
            json_member_names(event, "content"@),
        ),
        json_text(event, "content"@) is None ==> content_of(event).sticky_key is None
            && content_of(event).is_bare,
{
}

/// A candidate has the sender, event id and expiry time of the metadata, the type
/// given, and the key of the content; it is a removal exactly if the content is
/// bare.
pub proof fn law_candidate_is_made_of_its_sources(
    meta: StickyMetaView,
    event_type: Seq<char>,
    content: ContentProbeView,
)
    ensures
        ({
            let candidate = candidate_from(meta, event_type, content);
            &&& candidate.key.sender == meta.sender
            &&& candidate.key.event_type == event_type
            &&& candidate.key.sticky_key == content.sticky_key
            &&& candidate.event_id == meta.event_id
            &&& candidate.end_time == meta.end_time
            &&& candidate.is_removal == content.is_bare
        }),
{
}

/// `candidate` has what the metadata, the type and the content say.
pub open spec fn is_made_of(
    candidate: StickyCandidateView,
    meta: StickyMetaView,
    event_type: Seq<char>,
    content: ContentProbeView,
) -> bool {
    &&& candidate.key.sender == meta.sender
    &&& candidate.key.event_type == event_type
    &&& candidate.key.sticky_key == content.sticky_key
    &&& candidate.event_id == meta.event_id
    &&& candidate.end_time == meta.end_time
    &&& candidate.is_removal == content.is_bare
}

/// By its type, an event with metadata is a candidate, or needs decryption with
/// that very metadata, or is nothing where it has no type.
pub proof fn law_type_decides(meta: StickyMetaView, name: Seq<char>, content: ContentProbeView)
    ensures
        extract_from(meta, None, content) is NotSticky,
        name == "m.room.encrypted"@ ==> extract_from(meta, Some(name), content)
            == StickyExtractView::NeedsDecryption(meta),
        name != "m.room.encrypted"@ ==> (extract_from(meta, Some(name), content) matches
            StickyExtractView::Sticky(candidate) && is_made_of(candidate, meta, name, content)),
{
}

/// An event is sticky exactly if it has sticky metadata and a type. Encrypted, it
/// needs decryption; otherwise it is a candidate of its own sender, type, sticky
/// key, event id and expiry time, with or without a sticky key, and a removal
/// exactly if its content holds nothing but sticky keys.
pub proof fn law_event_is_classified_by_what_it_says(received_ts: u64, event: Seq<char>)
    ensures
        ({
            let meta = meta_of(received_ts, event);
            let name = json_string(event, "type"@);
            let extract = extract_of(received_ts, event);
            &&& extract is NotSticky <==> meta is None || name is None
            &&& extract is NeedsDecryption <==> meta is Some && name == Some("m.room.encrypted"@)
            &&& extract matches StickyExtractView::NeedsDecryption(found) ==> meta == Some(found)
            &&& extract matches StickyExtractView::Sticky(candidate) ==> is_made_of(
                candidate,
                meta->0,
                name->0,
                content_of(event),
            )
        }),
{
}

/// A decrypted event makes a candidate exactly if it has a type: with the sender,
/// event id and expiry time of the outer event, and its own type and content.
pub proof fn law_decrypted_event_is_resolved_by_what_it_says(meta: StickyMetaView, event: Seq<char>)
    ensures
        ({
            let name = json_string(event, "type"@);
            let candidate = resolved_from(meta, event);
            &&& candidate is Some <==> name is Some
            &&& candidate is Some ==> is_made_of(candidate->0, meta, name->0, content_of(event))
        }),
{
}

} // verus!
