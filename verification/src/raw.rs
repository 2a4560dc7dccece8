//! JSON text as it came in, and what can be read out of it.

use ruma::events::sticky::StickyObject;
use ruma::events::AnySyncTimelineEvent;
use ruma::serde::Raw;
use ruma::{OwnedEventId, OwnedUserId};
use vstd::prelude::*;

verus! {

use crate::text::optional_text;

/// JSON text that has not been parsed: an event, or a part of one.
#[derive(Debug, PartialEq, Eq)]
pub struct RawJson {
    /// The text.
    pub json: String,
}

impl View for RawJson {
    type V = Seq<char>;

    open spec fn view(&self) -> Seq<char> {
        self.json@
    }
}

impl Clone for RawJson {
    fn clone(&self) -> (copy: Self)
        ensures
            copy == *self,
    {
        RawJson { json: self.json.clone() }
    }
}

impl RawJson {
    /// Hold a JSON text.
    pub fn new(json: String) -> (raw: Self)
        ensures
            raw == (RawJson { json }),
    {
        RawJson { json }
    }
}

/// The names that a list holds.
pub open spec fn name_set(names: Seq<String>) -> Set<Seq<char>> {
    Set::new(|name: Seq<char>| exists|i: int| 0 <= i < names.len() && #[trigger] names[i]@ == name)
}

/// The string that a JSON object has as its member `name`.
pub uninterp spec fn json_string(json: Seq<char>, name: Seq<char>) -> Option<Seq<char>>;

/// The user id that a JSON object has as its member `name`.
pub uninterp spec fn json_user_id(json: Seq<char>, name: Seq<char>) -> Option<Seq<char>>;

/// The event id that a JSON object has as its member `name`.
pub uninterp spec fn json_event_id(json: Seq<char>, name: Seq<char>) -> Option<Seq<char>>;

/// The unsigned 64-bit integer that a JSON object has as its member `name`.
pub uninterp spec fn json_u64(json: Seq<char>, name: Seq<char>) -> Option<u64>;

/// The unsigned 64-bit integer that is the only element of the array that a JSON
/// object has as its member `name`.
pub uninterp spec fn json_only_u64(json: Seq<char>, name: Seq<char>) -> Option<u64>;

/// The `duration_ms` of the sticky object that a JSON object has as its member
/// `name`.
pub uninterp spec fn json_sticky_duration(json: Seq<char>, name: Seq<char>) -> Option<u32>;

/// The text of the member `name` of a JSON object.
pub uninterp spec fn json_text(json: Seq<char>, name: Seq<char>) -> Option<Seq<char>>;

/// The string, if any, that a JSON object has as its member `name`; `None` where
/// that is neither a string nor `null` nor absent, or where there is no object.
pub uninterp spec fn json_optional_string(json: Seq<char>, name: Seq<char>) -> Option<
    Option<Seq<char>>,
>;

/// The names of the members of the JSON object that a JSON object has as its
/// member `name`.
pub uninterp spec fn json_member_names(json: Seq<char>, name: Seq<char>) -> Option<
    Set<Seq<char>>,
>;

/// Read a string by `ruma::serde::Raw::get_field::<String>`.
///
/// Claimed: the result is a function of the text and the name. It is `None`
/// where the text is no JSON object, lacks the member, or has it with a value of
/// another type.
#[verifier::external_body]
pub(crate) fn read_string(raw: &RawJson, name: &str) -> (value: Option<String>)
    ensures
        optional_text(value) == json_string(raw@, name@),
{
    let raw = Raw::<AnySyncTimelineEvent>::from_json_string(raw.json.clone()).ok()?;
    raw.get_field::<String>(name).ok().flatten()
}

/// Read a user id by `ruma::serde::Raw::get_field::<OwnedUserId>`.
///
/// Claimed: the result is a function of the text and the name. It is `None`
/// also where the string is no valid user id.
#[verifier::external_body]
pub(crate) fn read_user_id(raw: &RawJson, name: &str) -> (value: Option<String>)
    ensures
        optional_text(value) == json_user_id(raw@, name@),
{
    let raw = Raw::<AnySyncTimelineEvent>::from_json_string(raw.json.clone()).ok()?;
    raw.get_field::<OwnedUserId>(name).ok().flatten().map(String::from)
}

/// Read an event id by `ruma::serde::Raw::get_field::<OwnedEventId>`.
///
/// Claimed: the result is a function of the text and the name. It is `None`
/// also where the string is no valid event id.
#[verifier::external_body]
pub(crate) fn read_event_id(raw: &RawJson, name: &str) -> (value: Option<String>)
    ensures
        optional_text(value) == json_event_id(raw@, name@),
{
    let raw = Raw::<AnySyncTimelineEvent>::from_json_string(raw.json.clone()).ok()?;
    raw.get_field::<OwnedEventId>(name).ok().flatten().map(String::from)
}

/// Read an integer by `ruma::serde::Raw::get_field::<u64>`.
///
/// Claimed: the result is a function of the text and the name.
#[verifier::external_body]
pub(crate) fn read_u64(raw: &RawJson, name: &str) -> (value: Option<u64>)
    ensures
        value == json_u64(raw@, name@),
{
    let raw = Raw::<AnySyncTimelineEvent>::from_json_string(raw.json.clone()).ok()?;
    raw.get_field::<u64>(name).ok().flatten()
}

/// Read the only element of an array by `ruma::serde::Raw::get_field::<[u64; 1]>`.
///
/// Claimed: the result is a function of the text and the name. It is `None`
/// where the member is no array of one integer.
#[verifier::external_body]
pub(crate) fn read_only_u64(raw: &RawJson, name: &str) -> (value: Option<u64>)
    ensures
        value == json_only_u64(raw@, name@),
{
    let raw = Raw::<AnySyncTimelineEvent>::from_json_string(raw.json.clone()).ok()?;
    raw.get_field::<[u64; 1]>(name).ok().flatten().map(|[only]| only)
}

/// Read the duration of a sticky object by
/// `ruma::serde::Raw::get_field::<StickyObject>`.
///
/// Claimed: the result is a function of the text and the name. It is `None`
/// also where the duration is above one hour, which the outside type refuses.
#[verifier::external_body]
pub(crate) fn read_sticky_duration(raw: &RawJson, name: &str) -> (value: Option<u32>)
    ensures
        value == json_sticky_duration(raw@, name@),
{
    let raw = Raw::<AnySyncTimelineEvent>::from_json_string(raw.json.clone()).ok()?;
    raw.get_field::<StickyObject>(name).ok().flatten().map(|sticky| sticky.duration_ms.get())
}

/// Read the text of a member by `ruma::serde::Raw::get_field::<Raw<_>>`.
///
/// Claimed: the result is a function of the text and the name.
#[verifier::external_body]
pub(crate) fn read_raw(raw: &RawJson, name: &str) -> (value: Option<RawJson>)
    ensures
        match value {
            Some(part) => json_text(raw@, name@) == Some(part@),
            None => json_text(raw@, name@) is None,
        },
{
    let raw = Raw::<AnySyncTimelineEvent>::from_json_string(raw.json.clone()).ok()?;
    let part = raw.get_field::<Raw<AnySyncTimelineEvent>>(name).ok().flatten()?;
    Some(RawJson { json: part.json().get().to_owned() })
}

/// Read a string that may be absent or `null`, by
/// `ruma::serde::Raw::get_field::<Option<String>>`.
///
/// Claimed: the result is a function of the text and the name. It is `None` where
/// the outside function fails, and otherwise holds the string, if there is one.
#[verifier::external_body]
pub(crate) fn read_optional_string(raw: &RawJson, name: &str) -> (value: Option<Option<String>>)
    ensures
        match value {
            Some(text) => json_optional_string(raw@, name@) == Some(optional_text(text)),
            None => json_optional_string(raw@, name@) is None,
        },
{
    let raw = Raw::<AnySyncTimelineEvent>::from_json_string(raw.json.clone()).ok()?;
    raw.get_field::<Option<String>>(name).ok().map(|text| text.flatten())
}

/// Read the names in an object by
/// `ruma::serde::Raw::get_field::<serde_json::Map<String, serde_json::Value>>`.
///
/// Claimed: which names come back is a function of the text and the name. Nothing
/// is claimed of their order. It is `None` where the member is no object, or holds
/// something that `serde_json::Value` cannot.
#[verifier::external_body]
pub(crate) fn read_member_names(raw: &RawJson, name: &str) -> (value: Option<Vec<String>>)
    ensures
        match value {
            Some(names) => json_member_names(raw@, name@) == Some(name_set(names@)),
            None => json_member_names(raw@, name@) is None,
        },
{
    let raw = Raw::<AnySyncTimelineEvent>::from_json_string(raw.json.clone()).ok()?;
    let object = raw.get_field::<serde_json::Map<String, serde_json::Value>>(name).ok().flatten()?;
    Some(object.into_iter().map(|member| member.0).collect())
}

/// JSON text stands for itself, and a list of names for the names that occur in
/// it, no more and no fewer.
pub proof fn law_names_are_those_listed(raw: RawJson, names: Seq<String>, name: Seq<char>)
    ensures
        raw@ == raw.json@,
        name_set(names).contains(name) <==> exists|i: int|
            0 <= i < names.len() && #[trigger] names[i]@ == name,
{
}

} // verus!
