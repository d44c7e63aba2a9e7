# session_placement

Token-aware placement of sessions on the workers of an inference router, proved
in Verus. A new session goes to the healthy worker whose sessions hold the fewest
context tokens and stays there; idle sessions stop counting and are forgotten in
time; a session with a request in flight never expires.

- `src/model.rs` says what a placement is and what each operation makes of it.
- `src/placement.rs` is the placement itself, `src/state.rs` its sessions and
  loads, `src/keyed.rs` the map that holds them.
- `src/prompt.rs` counts the token ids that a request lists; `src/text.rs` holds
  the text functions that it needs.
- `src/settings.rs` reads the settings, `src/time.rs` the clock.
- `src/laws.rs` and `src/prompt_laws.rs` state what holds of the whole.
- `app/` puts the placement behind a lock and settles leases when they are
  dropped.
