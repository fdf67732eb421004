//! Preferences shared by the screens, the screen the app shows, and the key
//! presses the screens react to.

use vstd::prelude::*;

verus! {

/// Cross-screen toggles, read and written by both the dashboard and the
/// processes key handlers so the two views stay in sync.
#[derive(Debug, Clone, Copy, PartialEq, Eq, Structural)]
pub struct UiPrefs {
    /// Show resolved host names in place of destination addresses (`n`).
    pub names_mode: bool,
    /// Show the help overlay in place of the main content (`?`, `esc`).
    pub show_help: bool,
    /// Include expired flows, dimmed (`e`).
    pub show_expired: bool,
    /// Merge each connection's two directed flows into one row (`a`).
    pub aggregate: bool,
}

impl Default for UiPrefs {
    /// Host names on, help closed, expired flows hidden, per-flow view.
    fn default() -> (r: UiPrefs)
        ensures
            r == (UiPrefs { names_mode: true, show_help: false, show_expired: false, aggregate: false }),
    {
        UiPrefs { names_mode: true, show_help: false, show_expired: false, aggregate: false }
    }
}

/// Top-level screen shown by the app; the app starts on the picker.
#[derive(Debug, Clone, Copy, PartialEq, Eq, Hash, Structural)]
pub enum Screen {
    Picker,
    Dashboard,
    Processes,
}

impl Default for Screen {
    fn default() -> (r: Screen)
        ensures
            r == Screen::Picker,
    {
        Screen::Picker
    }
}

/// The key of a key press, as far as the screens tell keys apart.
#[derive(Debug, Clone, Copy, PartialEq, Eq, Structural)]
pub enum Key {
    Char(char),
    Enter,
    Esc,
    Backspace,
    Up,
    Down,
    /// Any other key; no screen reacts to it.
    Other,
}

/// A key press with the modifiers the screens look at.
#[derive(Debug, Clone, Copy, PartialEq, Eq, Structural)]
pub struct KeyPress {
    pub key: Key,
    pub ctrl: bool,
    pub alt: bool,
}

impl KeyPress {
    pub open spec fn is_char(self, c: char) -> bool {
        self.key == Key::Char(c)
    }

    /// `Ctrl-C`, which the global handler owns; screens skip it.
    pub open spec fn is_interrupt(self) -> bool {
        self.key == Key::Char('c') && self.ctrl
    }
}

pub fn is_interrupt(k: &KeyPress) -> (r: bool)
    ensures
        r == k.is_interrupt(),
{
    match k.key {
        Key::Char(c) => c == 'c' && k.ctrl,
        _ => false,
    }
}

} // verus!
