//! Support for sticky events.
//!
//! Sticky events are message-like events with a temporary, per-user lifetime (a
//! TTL of up to one hour). Clients materialize them into an *ephemeral map* keyed
//! by `(room_id, sender, type, content.sticky_key)`, keeping the last-to-expire
//! event per key and dropping entries when they expire.
//!
//! The core is the generic, in-memory [`EphemeralMap`], which is store-agnostic.
//! Around it stand the extraction of sticky metadata from raw sync events
//! ([`extract`]), the per-room store with its buffer of events that still await
//! decryption ([`handle`]), and the decisions of what runs in the background: the
//! maintenance task of a room ([`eviction`]) and the coordination of all rooms
//! ([`manager`]).
//!
//! What each of them does is stated over the mathematical [`model`]; [`laws`]
//! holds what is true of the map as a whole. What each operation comes to, from
//! what goes in to what comes out, is told in [`map_laws`], [`extract_laws`],
//! [`handle_laws`] and [`manager_laws`].

pub mod channel;
pub mod clock;
mod entries;
pub mod event;
pub mod eviction;
mod expiry;
pub mod extract;
pub mod extract_laws;
pub mod handle;
pub mod handle_laws;
pub mod key;
pub mod laws;
pub mod manager;
pub mod manager_laws;
pub mod map;
pub mod map_laws;
pub mod model;
pub mod raw;
pub mod rooms;
pub mod text;

pub use clock::{Clock, SystemClock};
pub use handle::{StickyEvents, StickyLiveEvent};
pub use key::{RemovalReason, StickyEntry, StickyEventsUpdate, StickyKey};
pub use map::{compute_end_time, EphemeralMap, MAX_STICKY_DURATION_MS};
