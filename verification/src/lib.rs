//! Native backend logic for a small desktop shell: a persisted preferences
//! record (channel name, always-on-top flag, transparency flag) with its JSON
//! file format, and the planning of window-effect changes (always-on-top,
//! transparency with platform-specific vibrancy or blur).
//!
//! Everything here is pure: the host layer resolves the window handle and the
//! config directory, reads and writes the state file, and performs the window
//! actions that `effects` plans.

pub mod effects;
pub mod json;
pub mod prefs;
