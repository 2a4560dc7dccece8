//! A sync event together with what is known of its encryption.

use crate::raw::RawJson;
use std::sync::Arc;
use vstd::prelude::*;

verus! {

/// An event from sync, by how it was sent and whether it could be read.
///
/// `I` is the encryption data that comes with a decrypted event. It is carried
/// along and never looked into.
#[derive(Debug)]
pub enum TimelineEventKind<I> {
    /// A successfully-decrypted encrypted event.
    Decrypted {
        /// The decrypted event.
        event: RawJson,
        /// The encryption data of the event.
        encryption_info: Arc<I>,
    },
    /// An encrypted event which could not be decrypted.
    UnableToDecrypt {
        /// The event as it was sent.
        event: RawJson,
    },
    /// An event that was sent in the clear.
    PlainText {
        /// The event.
        event: RawJson,
    },
}

/// The text of an event: the decrypted one, if it was decrypted.
pub open spec fn event_text<I>(kind: TimelineEventKind<I>) -> RawJson {
    match kind {
        TimelineEventKind::Decrypted { event, encryption_info } => event,
        TimelineEventKind::UnableToDecrypt { event } => event,
        TimelineEventKind::PlainText { event } => event,
    }
}

/// The encryption data of an event, which only a decrypted one has.
pub open spec fn encryption_data<I>(kind: TimelineEventKind<I>) -> Option<Arc<I>> {
    match kind {
        TimelineEventKind::Decrypted { event, encryption_info } => Some(encryption_info),
        _ => None,
    }
}

impl<I> Clone for TimelineEventKind<I> {
    fn clone(&self) -> (copy: Self)
        ensures
            copy == *self,
    {
        match self {
            TimelineEventKind::Decrypted { event, encryption_info } => {
                TimelineEventKind::Decrypted {
                    event: event.clone(),
                    encryption_info: encryption_info.clone(),
                }
            },
            TimelineEventKind::UnableToDecrypt { event } => {
                TimelineEventKind::UnableToDecrypt { event: event.clone() }
            },
            TimelineEventKind::PlainText { event } => {
                TimelineEventKind::PlainText { event: event.clone() }
            },
        }
    }
}

impl<I> TimelineEventKind<I> {
    /// The raw event; the decrypted one, if it was sent encrypted and could be
    /// read.
    pub fn raw(&self) -> (event: &RawJson)
        ensures
            *event == event_text(*self),
    {
        match self {
            TimelineEventKind::Decrypted { event, encryption_info: _ } => event,
            TimelineEventKind::UnableToDecrypt { event } => event,
            TimelineEventKind::PlainText { event } => event,
        }
    }

    /// The encryption data of this event, or `None` if it was not decrypted.
    pub fn encryption_info(&self) -> (info: Option<&Arc<I>>)
        ensures
            match info {
                Some(info) => encryption_data(*self) == Some(*info),
                None => encryption_data(*self) is None,
            },
    {
        match self {
            TimelineEventKind::Decrypted { event: _, encryption_info } => Some(encryption_info),
            TimelineEventKind::UnableToDecrypt { event: _ } => None,
            TimelineEventKind::PlainText { event: _ } => None,
        }
    }
}

/// An event of any kind hands out the text that it was made with, and encryption
/// data exactly if it was decrypted: the data that it was made with.
pub proof fn law_event_hands_out_what_it_was_made_with<I>(event: RawJson, encryption_info: Arc<I>)
    ensures
        event_text(TimelineEventKind::Decrypted { event, encryption_info }) == event,
        event_text(TimelineEventKind::<I>::UnableToDecrypt { event }) == event,
        event_text(TimelineEventKind::<I>::PlainText { event }) == event,
        encryption_data(TimelineEventKind::Decrypted { event, encryption_info }) == Some(
            encryption_info,
        ),
        encryption_data(TimelineEventKind::<I>::UnableToDecrypt { event }) is None,
        encryption_data(TimelineEventKind::<I>::PlainText { event }) is None,
{
}

} // verus!
