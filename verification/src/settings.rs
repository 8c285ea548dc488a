//! The settings of the application, their defaults, and the rules for the
//! "entries to keep" field of the settings menu.
use vstd::prelude::*;
use crate::text::{decimal_string, parse_trimmed_usize, spec_decimal, spec_parse_usize, trim};

verus! {

/// Fewest entries the history may be limited to.
pub const MIN_MAX_ITEMS: usize = 1;

/// Most entries the history may be limited to.
pub const MAX_MAX_ITEMS: usize = 10_000;

/// The colour scheme of the window.
#[derive(Debug, Clone, Copy, PartialEq, Eq, Structural)]
pub enum Theme {
    Dark,
    Light,
    System,
}

/// The settings, as `settings.json` holds them.
#[derive(Debug, Clone)]
pub struct AppSettings {
    pub theme: Theme,
    /// How many unpinned entries the history keeps.
    pub max_items: usize,
    /// How often the clipboard is polled, in milliseconds.
    pub poll_interval_ms: u64,
    /// The global shortcut that shows the window, such as `Ctrl+Shift+V`.
    pub hotkey: String,
    /// Turns the shortcut off without forgetting it.
    pub hotkey_enabled: bool,
    /// Show the window at the mouse cursor rather than where it was.
    pub show_at_cursor: bool,
    /// Paste into the previous window right after choosing an entry.
    pub auto_paste: bool,
    /// Hide the window after copying when automatic pasting is off.
    pub hide_after_copy: bool,
    pub capture_text: bool,
    pub capture_images: bool,
}

/// The settings used when `settings.json` does not give them.
pub open spec fn is_default_settings(s: AppSettings) -> bool {
    &&& s.theme == Theme::Dark
    &&& s.max_items == 100
    &&& s.poll_interval_ms == 600
    &&& s.hotkey@ == "Ctrl+Shift+V"@
    &&& s.hotkey_enabled
    &&& s.show_at_cursor
    &&& s.auto_paste
    &&& s.hide_after_copy
    &&& s.capture_text
    &&& s.capture_images
}

impl Default for AppSettings {
    fn default() -> (s: Self)
        ensures
            is_default_settings(s),
    {
        AppSettings {
            theme: Theme::Dark,
            max_items: 100,
            poll_interval_ms: 600,
            hotkey: "Ctrl+Shift+V".to_owned(),
            hotkey_enabled: true,
            show_at_cursor: true,
            auto_paste: true,
            hide_after_copy: true,
            capture_text: true,
            capture_images: true,
        }
    }
}

/// `value` brought into `MIN_MAX_ITEMS..=MAX_MAX_ITEMS`.
pub open spec fn spec_clamp_max_items(value: usize) -> usize {
    if value < MIN_MAX_ITEMS {
        MIN_MAX_ITEMS
    } else if value > MAX_MAX_ITEMS {
        MAX_MAX_ITEMS
    } else {
        value
    }
}

/// Brings a history limit into `MIN_MAX_ITEMS..=MAX_MAX_ITEMS`.
pub fn clamp_max_items(value: usize) -> (r: usize)
    ensures
        r == spec_clamp_max_items(value),
{
    if value < MIN_MAX_ITEMS {
        MIN_MAX_ITEMS
    } else if value > MAX_MAX_ITEMS {
        MAX_MAX_ITEMS
    } else {
        value
    }
}

impl AppSettings {
    /// The shortcut to register: none when it is turned off.
    pub fn hotkey_spec(&self) -> (r: Option<&str>)
        ensures
            match r {
                Some(spec) => self.hotkey_enabled && spec@ == self.hotkey@,
                None => !self.hotkey_enabled,
            },
    {
        if self.hotkey_enabled {
            Some(self.hotkey.as_str())
        } else {
            None
        }
    }

    /// Sets the history limit, clamped to `MIN_MAX_ITEMS..=MAX_MAX_ITEMS`.
    /// Returns whether it changed; only then must the history be trimmed and
    /// the settings saved.
    pub fn set_max_items(&mut self, value: usize) -> (changed: bool)
        ensures
            changed == (spec_clamp_max_items(value) != old(self).max_items),
            *final(self) == (AppSettings { max_items: spec_clamp_max_items(value), ..*old(self) }),
    {
        let value = clamp_max_items(value);
        if value == self.max_items {
            return false;
        }
        self.max_items = value;
        true
    }

    /// Applies what the user typed in the "entries to keep" field when it is
    /// confirmed. A number of at least 1 (surrounding whitespace allowed)
    /// sets the limit, clamped; when that changes it, the field shows the new
    /// limit. Anything else puts the current limit back in the field.
    /// Returns whether the limit changed.
    pub fn commit_max_items_input(&mut self, input: &mut String) -> (changed: bool)
        ensures
            ({
                let parsed = spec_parse_usize(trim(old(input)@));
                if parsed matches Some(n) && n >= 1 {
                    let v = spec_clamp_max_items(parsed->0);
                    &&& changed == (v != old(self).max_items)
                    &&& *final(self) == (AppSettings { max_items: v, ..*old(self) })
                    &&& changed ==> final(input)@ == spec_decimal(v as nat)
                    &&& !changed ==> final(input)@ == old(input)@
                } else {
                    &&& !changed
                    &&& *final(self) == *old(self)
                    &&& final(input)@ == spec_decimal(old(self).max_items as nat)
                }
            }),
    {
        let parsed = parse_trimmed_usize(input.as_str());
        if let Some(n) = parsed {
            if n >= 1 {
                let changed = self.set_max_items(n);
                if changed {
                    *input = decimal_string(self.max_items as u64);
                }
                return changed;
            }
        }
        let current = self.max_items;
        *input = decimal_string(current as u64);
        false
    }
}

/// After a change through the "entries to keep" field, the limit lies within
/// `MIN_MAX_ITEMS..=MAX_MAX_ITEMS` and the field reads back as the limit.
pub proof fn law_committed_limit_reads_back(limit: usize, shown: Seq<char>)
    requires
        shown == spec_decimal(spec_clamp_max_items(limit) as nat),
    ensures
        MIN_MAX_ITEMS <= spec_clamp_max_items(limit) <= MAX_MAX_ITEMS,
        spec_parse_usize(trim(shown)) == Some(spec_clamp_max_items(limit)),
{
    crate::text::law_parse_decimal_roundtrip(spec_clamp_max_items(limit));
    crate::text::lemma_trim_decimal(spec_clamp_max_items(limit) as nat);
}

} // verus!
