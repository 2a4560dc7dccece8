# Sticky events

A verified library for *sticky events*: message-like events of a Matrix room with a
temporary, per-user lifetime of up to one hour. They are kept in an ephemeral map,
one entry per `(sender, type, sticky_key)`; the last-to-expire event of a key wins,
and entries are dropped when they expire.

- `src/` is the library. Every function in it is verified by Verus, but for those
  that are named below.
  - `map`, with `entries` and `expiry`: the ephemeral map.
  - `model` says what the map is, mathematically; `laws` holds what is true of it as
    a whole.
  - `extract`, with `raw`: sticky metadata out of raw events.
  - `handle`, with `event`: the store of one room, and its buffer of events that
    await decryption.
  - `eviction`, `manager`, with `rooms`: what the background tasks decide.
  - `key`, `text`, `clock`, `channel`: keys and their order, time, and notification.
- `tests/` runs the library on given values.
- `app/` is the async side: locks, tasks, timers, the state store, decryption.

What is taken on trust stands in `raw` (reading JSON with ruma), `channel` (tokio's
broadcast channel and notification) and `clock` (the system time). The doc comment
of each such function says what is claimed of the outside one.
