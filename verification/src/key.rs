//! Key, entry and update types for the sticky-events
//! [`EphemeralMap`](crate::map::EphemeralMap).

use crate::text::{compare_optional_text, compare_text, Relation};
use vstd::prelude::*;

verus! {

use crate::text::{
    lemma_text_order_asymmetric, lemma_text_order_total, lemma_text_order_transitive,
    optional_text, optional_text_before, text_before,
};

/// The key identifying a sticky-event slot in a single room.
///
/// The room is implied by the per-room map that owns the key, so the key itself
/// carries the remaining three components. `sticky_key` is optional: events
/// without a `content.sticky_key` are still tracked, keyed only by
/// `(sender, type)`.
#[derive(Debug, PartialEq, Eq, Hash, PartialOrd, Ord)]
pub struct StickyKey {
    /// The user id of the event's sender.
    pub sender: String,
    /// The event type, e.g. `m.rtc.member`.
    pub event_type: String,
    /// The `content.sticky_key`, if the event carried one.
    pub sticky_key: Option<String>,
}

/// What a [`StickyKey`] stands for.
#[verifier::ext_equal]
pub struct StickyKeyView {
    pub sender: Seq<char>,
    pub event_type: Seq<char>,
    pub sticky_key: Option<Seq<char>>,
}

impl View for StickyKey {
    type V = StickyKeyView;

    open spec fn view(&self) -> StickyKeyView {
        StickyKeyView {
            sender: self.sender@,
            event_type: self.event_type@,
            sticky_key: optional_text(self.sticky_key),
        }
    }
}

impl Clone for StickyKey {
    fn clone(&self) -> (copy: Self)
        ensures
            copy == *self,
    {
        let sticky_key = match &self.sticky_key {
            Some(text) => Some(text.clone()),
            None => None,
        };
        StickyKey {
            sender: self.sender.clone(),
            event_type: self.event_type.clone(),
            sticky_key,
        }
    }
}

impl StickyKey {
    /// Create a new sticky key.
    pub fn new(sender: String, event_type: String, sticky_key: Option<String>) -> (key: Self)
        ensures
            key == (StickyKey { sender, event_type, sticky_key }),
    {
        StickyKey { sender, event_type, sticky_key }
    }
}

/// A currently-tracked sticky event, together with the metadata needed to
/// expire it and to break ties against competing events for the same key.
#[derive(Clone, Debug)]
pub struct StickyEntry<T> {
    /// The stored value: the sticky event itself.
    pub value: T,
    /// The event id, used as the tie-breaker of last resort.
    pub event_id: String,
    /// The absolute time, in milliseconds since the Unix epoch, at which this
    /// entry stops being sticky. The entry is live while `now < end_time`.
    pub end_time: u64,
}

/// What a [`StickyEntry`] stands for.
#[verifier::ext_equal]
pub struct StickyEntryView<T> {
    pub value: T,
    pub event_id: Seq<char>,
    pub end_time: u64,
}

impl<T> View for StickyEntry<T> {
    type V = StickyEntryView<T>;

    open spec fn view(&self) -> StickyEntryView<T> {
        StickyEntryView { value: self.value, event_id: self.event_id@, end_time: self.end_time }
    }
}

/// The reason a sticky entry was removed from the map.
#[derive(Clone, Copy, Debug, PartialEq, Eq, Structural)]
pub enum RemovalReason {
    /// The entry reached its expiry time.
    Expired,
    /// The entry was replaced by a removal event (empty content carrying only
    /// the `sticky_key`).
    Replaced,
    /// The entry was removed via an explicit local API call.
    ExplicitRemoval,
}

/// A batch of changes to an [`EphemeralMap`](crate::map::EphemeralMap),
/// broadcast to subscribers.
///
/// One update is emitted per ingested batch and once per eviction pass, so a
/// subscriber sees the net effect of a sync (or an expiry tick) at once.
#[derive(Clone, Debug)]
pub struct StickyEventsUpdate {
    /// Keys that were newly added.
    pub added: Vec<StickyKey>,
    /// Keys whose entry was replaced by a newer/longer-lived event.
    pub updated: Vec<StickyKey>,
    /// Keys that were removed, with the reason why.
    pub removed: Vec<(StickyKey, RemovalReason)>,
}

/// What a [`StickyEventsUpdate`] stands for.
#[verifier::ext_equal]
pub struct StickyEventsUpdateView {
    pub added: Seq<StickyKeyView>,
    pub updated: Seq<StickyKeyView>,
    pub removed: Seq<(StickyKeyView, RemovalReason)>,
}

impl StickyEventsUpdateView {
    /// The update that carries no changes.
    pub open spec fn empty() -> StickyEventsUpdateView {
        StickyEventsUpdateView { added: Seq::empty(), updated: Seq::empty(), removed: Seq::empty() }
    }
}

impl View for StickyEventsUpdate {
    type V = StickyEventsUpdateView;

    open spec fn view(&self) -> StickyEventsUpdateView {
        StickyEventsUpdateView {
            added: key_views(self.added@),
            updated: key_views(self.updated@),
            removed: self.removed@.map_values(
                |removal: (StickyKey, RemovalReason)| (removal.0@, removal.1),
            ),
        }
    }
}

/// What the keys of a sequence stand for, in order.
pub open spec fn key_views(keys: Seq<StickyKey>) -> Seq<StickyKeyView> {
    keys.map_values(|key: StickyKey| key@)
}

impl Default for StickyEventsUpdate {
    fn default() -> (update: Self)
        ensures
            update@ == StickyEventsUpdateView::empty(),
    {
        let update = StickyEventsUpdate { added: Vec::new(), updated: Vec::new(), removed: Vec::new() };
        assert(update@ =~= StickyEventsUpdateView::empty());
        update
    }
}

impl StickyEventsUpdate {
    /// Whether this update carries no changes.
    pub fn is_empty(&self) -> (empty: bool)
        ensures
            empty <==> self@ == StickyEventsUpdateView::empty(),
    {
        let empty = self.added.len() == 0 && self.updated.len() == 0 && self.removed.len() == 0;
        proof {
            if empty {
                assert(self@ =~= StickyEventsUpdateView::empty());
            } else {
                assert(self@.added.len() == self.added@.len());
                assert(self@.updated.len() == self.updated@.len());
                assert(self@.removed.len() == self.removed@.len());
            }
        }
        empty
    }
}

/// `a` comes strictly before `b`: by sender, then by type, then by sticky key.
pub open spec fn key_before(a: StickyKeyView, b: StickyKeyView) -> bool {
    ||| text_before(a.sender, b.sender)
    ||| {
        &&& a.sender == b.sender
        &&& text_before(a.event_type, b.event_type)
    }
    ||| {
        &&& a.sender == b.sender
        &&& a.event_type == b.event_type
        &&& optional_text_before(a.sticky_key, b.sticky_key)
    }
}

/// No two keys come before each other.
pub proof fn lemma_key_order_asymmetric(a: StickyKeyView, b: StickyKeyView)
    requires
        key_before(a, b),
    ensures
        !key_before(b, a),
        a != b,
{
    if text_before(a.sender, b.sender) {
        lemma_text_order_asymmetric(a.sender, b.sender);
    } else if text_before(a.event_type, b.event_type) {
        lemma_text_order_asymmetric(a.event_type, b.event_type);
        if text_before(b.sender, a.sender) {
            lemma_text_order_asymmetric(b.sender, a.sender);
        }
    } else {
        if text_before(b.sender, a.sender) {
            lemma_text_order_asymmetric(b.sender, a.sender);
        }
        if text_before(b.event_type, a.event_type) {
            lemma_text_order_asymmetric(b.event_type, a.event_type);
        }
        if a.sticky_key is Some && b.sticky_key is Some {
            lemma_text_order_asymmetric(a.sticky_key->0, b.sticky_key->0);
        }
    }
}

/// The order of keys is transitive.
pub proof fn lemma_key_order_transitive(a: StickyKeyView, b: StickyKeyView, c: StickyKeyView)
    requires
        key_before(a, b),
        key_before(b, c),
    ensures
        key_before(a, c),
{
    if text_before(a.sender, b.sender) && text_before(b.sender, c.sender) {
        lemma_text_order_transitive(a.sender, b.sender, c.sender);
    }
    if text_before(a.event_type, b.event_type) && text_before(b.event_type, c.event_type) {
        lemma_text_order_transitive(a.event_type, b.event_type, c.event_type);
    }
    if a.sticky_key is Some && b.sticky_key is Some && c.sticky_key is Some {
        let (x, y, z) = (a.sticky_key->0, b.sticky_key->0, c.sticky_key->0);
        if text_before(x, y) && text_before(y, z) {
            lemma_text_order_transitive(x, y, z);
        }
    }
}

/// Of two different keys one comes before the other.
pub proof fn lemma_key_order_total(a: StickyKeyView, b: StickyKeyView)
    ensures
        a == b || key_before(a, b) || key_before(b, a),
{
    lemma_text_order_total(a.sender, b.sender);
    lemma_text_order_total(a.event_type, b.event_type);
    if a.sticky_key is Some && b.sticky_key is Some {
        lemma_text_order_total(a.sticky_key->0, b.sticky_key->0);
    }
}

/// How `a` stands to `b` in the order of keys.
pub fn compare_keys(a: &StickyKey, b: &StickyKey) -> (relation: Relation)
    ensures
        match relation {
            Relation::Before => key_before(a@, b@),
            Relation::Same => a@ == b@,
            Relation::After => key_before(b@, a@),
        },
{
    match compare_text(a.sender.as_str(), b.sender.as_str()) {
        Relation::Same => match compare_text(a.event_type.as_str(), b.event_type.as_str()) {
            Relation::Same => compare_optional_text(&a.sticky_key, &b.sticky_key),
            other => other,
        },
        other => other,
    }
}

/// A key stands for its own three parts, each in its place.
pub proof fn law_key_is_its_parts(key: StickyKey)
    ensures
        key@.sender == key.sender@,
        key@.event_type == key.event_type@,
        key.sticky_key is None <==> key@.sticky_key is None,
        key.sticky_key matches Some(text) ==> key@.sticky_key == Some(text@),
{
}

/// An entry stands for its own value, event id and expiry time.
pub proof fn law_entry_is_its_parts<T>(entry: StickyEntry<T>)
    ensures
        entry@.value == entry.value,
        entry@.event_id == entry.event_id@,
        entry@.end_time == entry.end_time,
{
}

/// An update stands for its own three lists, in order, and the empty one for no
/// key at all.
pub proof fn law_update_is_its_lists(update: StickyEventsUpdate, i: int)
    ensures
        update@.added.len() == update.added@.len(),
        update@.updated.len() == update.updated@.len(),
        update@.removed.len() == update.removed@.len(),
        0 <= i < update.added@.len() ==> update@.added[i] == update.added@[i]@,
        0 <= i < update.updated@.len() ==> update@.updated[i] == update.updated@[i]@,
        0 <= i < update.removed@.len() ==> update@.removed[i].0 == update.removed@[i].0@
            && update@.removed[i].1 == update.removed@[i].1,
        StickyEventsUpdateView::empty().added.len() == 0,
        StickyEventsUpdateView::empty().updated.len() == 0,
        StickyEventsUpdateView::empty().removed.len() == 0,
{
}

/// A list of keys stands for those keys, in order.
pub proof fn law_keys_stand_in_order(keys: Seq<StickyKey>, i: int)
    requires
        0 <= i < keys.len(),
    ensures
        key_views(keys).len() == keys.len(),
        key_views(keys)[i] == keys[i]@,
{
}

/// Of two keys the sender decides which comes first; between keys of one sender
/// the type does; and between keys of one sender and type the sticky key does, of
/// which an absent one comes first.
pub proof fn law_key_order_goes_part_by_part(a: StickyKeyView, b: StickyKeyView)
    ensures
        text_before(a.sender, b.sender) ==> key_before(a, b) && !key_before(b, a),
        a.sender == b.sender && text_before(a.event_type, b.event_type) ==> key_before(a, b)
            && !key_before(b, a),
        a.sender == b.sender && a.event_type == b.event_type ==> {
            &&& a.sticky_key is None && b.sticky_key is Some ==> key_before(a, b) && !key_before(b, a)
            &&& a.sticky_key is Some && b.sticky_key is Some && text_before(
                a.sticky_key->0,
                b.sticky_key->0,
            ) ==> key_before(a, b) && !key_before(b, a)
        },
        !key_before(a, a),
{
    if key_before(a, b) {
        lemma_key_order_asymmetric(a, b);
    }
    if key_before(a, a) {
        lemma_key_order_asymmetric(a, a);
    }
}

} // verus!
