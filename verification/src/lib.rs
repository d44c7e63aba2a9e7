//! Token-aware placement of new sessions on the workers of an inference router.
//!
//! A session key seen for the first time is placed on the healthy worker whose
//! sessions hold the fewest context tokens. Later requests of that session stay
//! on the same worker for prefix-cache reuse. Every request updates its
//! session's context length. A routed request holds a [`SessionLease`] until it
//! settles; a session with a request in flight never expires, so a long
//! generation keeps counting and its abort reaches the same worker. Once its
//! last request has settled, a session idle for longer than the idle period
//! stops counting toward its worker's load, and its stickiness is forgotten
//! after four idle periods.
//!
//! A weight update resets every engine's prefix cache, so stickiness has no
//! value right after one: [`TokenPlacement::release_owners`] marks every session
//! for a new placement by the same least-tokens rule on its next request made
//! with none of its requests in flight.
//!
//! Context length is the number of `prompt_ids` in the body when present;
//! otherwise it is estimated as body bytes / 4 and only ever grows, so an
//! abort-shaped body neither moves nor shrinks a session.
//!
//! [`model`] says what all of this means. [`model_laws`], [`text_laws`] and
//! [`settings_laws`] state what each operation does, [`laws`] and
//! [`prompt_laws`] what holds of their interplay.

pub mod keyed;
pub mod laws;
pub mod model;
pub mod model_laws;
pub mod placement;
pub mod prompt;
pub mod prompt_laws;
pub mod settings;
pub mod settings_laws;
mod state;
pub mod text;
pub mod text_laws;
pub mod time;

pub use keyed::KeyMap;
pub use model::PlacementError;
pub use placement::SessionLease;
pub use placement::TokenPlacement;
pub use prompt::prompt_token_count;
pub use settings::SettingsError;
pub use settings::IDLE_SECS_ENV;
pub use settings::PLACEMENT_ENV;
pub use time::Duration;
pub use time::Instant;
