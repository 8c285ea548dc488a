//! CopyCat: a clipboard history kept as an index of entries, newest first,
//! whose bodies (text or PNG) live in payload files next to the index.
//!
//! - `history`: the index, and what adding, deleting, pinning and trimming do to it;
//! - `capture`: which clipboard contents are new, and recording them;
//! - `hash`: FNV-1a, by which contents are told apart;
//! - `png`: PNG encoding and decoding of RGBA images;
//! - `text`, `clock`: decimal numbers, trimming, titles, "how long ago" labels;
//! - `settings`, `listing`: the settings, and what the window shows and selects;
//! - `hotkey`, `paste`, `autostart`: the global shortcut, pasting, starting with the system.

pub mod hash;
pub mod text;
pub mod png;
pub mod history;
pub mod clock;
pub mod capture;
pub mod settings;
pub mod listing;
pub mod hotkey;
pub mod paste;
pub mod autostart;
