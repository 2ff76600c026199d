//! Focus-time sampling: counting which window holds the focus, tick by tick,
//! and turning the persisted counts back into estimated time per window.
//!
//! - `window` resolves a snapshot of the window tree to the focused window.
//! - `telegram_utils` takes the unread-message badge off a title.
//! - `counter` holds the counts of one rolling window.
//! - `sampler` is the engine: it counts one sample per tick and hands out the
//!   rows of a window when the window is over.
//! - `analysis` groups persisted rows by window and orders the estimates.
//! - `events` decides what to record of a notification of the window manager.
//! - `text` searches one text for another.

pub mod analysis;
pub mod counter;
pub mod events;
pub mod sampler;
pub mod telegram_utils;
pub mod text;
pub mod window;
