//! Keys that the user presses.
use vstd::prelude::*;

verus! {

/// A key.
#[derive(Clone, Copy, Debug, PartialEq, Eq, Structural)]
pub enum KeyCode {
    Char(char),
    Enter,
    Esc,
    Backspace,
    Tab,
    Up,
    Down,
    Left,
    Right,
    F(u8),
    Other,
}

/// Keys that are held down with another.
#[derive(Clone, Copy, Debug, PartialEq, Eq, Structural)]
pub struct KeyModifiers {
    pub shift: bool,
    pub control: bool,
    /// Any other modifier.
    pub other: bool,
}

/// A key that is pressed.
#[derive(Clone, Copy, Debug, PartialEq, Eq, Structural)]
pub struct KeyEvent {
    pub code: KeyCode,
    pub modifiers: KeyModifiers,
}

impl KeyModifiers {
    /// Whether no modifier is held down.
    pub open spec fn is_empty_spec(self) -> bool {
        !self.shift && !self.control && !self.other
    }

    /// No modifier.
    pub fn none() -> (r: KeyModifiers)
        ensures
            r.is_empty_spec(),
    {
        KeyModifiers { shift: false, control: false, other: false }
    }

    /// The control key alone.
    pub fn control() -> (r: KeyModifiers)
        ensures
            r == (KeyModifiers { shift: false, control: true, other: false }),
    {
        KeyModifiers { shift: false, control: true, other: false }
    }

    pub fn is_empty(self) -> (r: bool)
        ensures
            r == self.is_empty_spec(),
    {
        !self.shift && !self.control && !self.other
    }
}

impl KeyEvent {
    pub fn new(code: KeyCode, modifiers: KeyModifiers) -> (r: KeyEvent)
        ensures
            r == (KeyEvent { code, modifiers }),
    {
        KeyEvent { code, modifiers }
    }
}

/// Whether a character with these modifiers is text: without any, or with the shift key.
pub open spec fn text_modifier_spec(modifiers: KeyModifiers) -> bool {
    !modifiers.control && !modifiers.other
}

/// Whether a character with these modifiers is text.
pub fn text_modifier(modifiers: KeyModifiers) -> (r: bool)
    ensures
        r == text_modifier_spec(modifiers),
{
    !modifiers.control && !modifiers.other
}

/// Whether a key asks to quit: Ctrl-c, or a plain `q` where no text is edited.
pub open spec fn quit_requested_spec(key: KeyEvent, editing_text: bool) -> bool {
    (key.code == KeyCode::Char('c') && key.modifiers.control) || (key.code == KeyCode::Char('q')
        && key.modifiers.is_empty_spec() && !editing_text)
}

/// Whether a key asks to quit.
pub fn quit_requested(key: KeyEvent, editing_text: bool) -> (r: bool)
    ensures
        r == quit_requested_spec(key, editing_text),
{
    (key.code == KeyCode::Char('c') && key.modifiers.control) || (key.code == KeyCode::Char('q')
        && key.modifiers.is_empty() && !editing_text)
}

/// Whether a key asks to refresh: Ctrl-r.
pub open spec fn refresh_requested_spec(key: KeyEvent) -> bool {
    key.code == KeyCode::Char('r') && key.modifiers.control
}

/// Whether a key asks to refresh.
pub fn refresh_requested(key: KeyEvent) -> (r: bool)
    ensures
        r == refresh_requested_spec(key),
{
    key.code == KeyCode::Char('r') && key.modifiers.control
}

} // verus!
