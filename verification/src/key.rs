//! Key presses.

use vstd::prelude::*;

verus! {

/// The key that was pressed.
#[derive(Debug, Clone, Copy, PartialEq, Eq, Structural)]
pub enum KeyCode {
    Backspace,
    Delete,
    Left,
    Right,
    Up,
    Down,
    Home,
    End,
    PageUp,
    PageDown,
    Tab,
    BackTab,
    Enter,
    Esc,
    Char(char),
    /// a key that nothing is bound to
    Other,
}

/// The modifier keys held down.
#[derive(Debug, Clone, Copy, PartialEq, Eq, Structural)]
pub struct KeyModifiers {
    pub shift: bool,
    pub control: bool,
    pub alt: bool,
    /// any other modifier
    pub other: bool,
}

/// What happened to the key.
#[derive(Debug, Clone, Copy, PartialEq, Eq, Structural)]
pub enum KeyEventKind {
    Press,
    Repeat,
    Release,
}

/// A key press, repeat or release.
#[derive(Debug, Clone, Copy, PartialEq, Eq, Structural)]
pub struct KeyEvent {
    pub code: KeyCode,
    pub modifiers: KeyModifiers,
    pub kind: KeyEventKind,
}

impl KeyModifiers {
    /// No modifier, or those named and no other.
    pub open spec fn only(self, shift: bool, control: bool, alt: bool) -> bool {
        self.shift == shift && self.control == control && self.alt == alt && !self.other
    }
}

impl KeyEvent {
    /// A press of `code` with the given modifiers.
    pub fn new(code: KeyCode, modifiers: KeyModifiers) -> (key: Self)
        ensures
            key.code == code,
            key.modifiers == modifiers,
            key.kind == KeyEventKind::Press,
    {
        KeyEvent { code, modifiers, kind: KeyEventKind::Press }
    }

    /// The key pressed with no modifier.
    pub open spec fn bare(self, code: KeyCode) -> bool {
        self.code == code && self.modifiers.only(false, false, false)
    }

    /// The key pressed with Shift alone.
    pub open spec fn shifted(self, code: KeyCode) -> bool {
        self.code == code && self.modifiers.only(true, false, false)
    }

    /// The key pressed with Control alone.
    pub open spec fn control(self, code: KeyCode) -> bool {
        self.code == code && self.modifiers.only(false, true, false)
    }

    /// The key pressed with Alt alone.
    pub open spec fn alt(self, code: KeyCode) -> bool {
        self.code == code && self.modifiers.only(false, false, true)
    }

    /// The key pressed with no modifier or with Shift alone: terminals
    /// differ in whether they report Shift for a capital or a symbol.
    pub open spec fn plain(self, code: KeyCode) -> bool {
        self.bare(code) || self.shifted(code)
    }

    /// Whether the key was pressed with no modifier.
    pub fn is_bare(&self, code: KeyCode) -> (yes: bool)
        ensures
            yes == self.bare(code),
    {
        self.code == code && !self.modifiers.shift && !self.modifiers.control
            && !self.modifiers.alt && !self.modifiers.other
    }

    /// Whether the key was pressed with Control alone.
    pub fn is_control(&self, code: KeyCode) -> (yes: bool)
        ensures
            yes == self.control(code),
    {
        self.code == code && !self.modifiers.shift && self.modifiers.control
            && !self.modifiers.alt && !self.modifiers.other
    }

    /// Whether the key was pressed with Alt alone.
    pub fn is_alt(&self, code: KeyCode) -> (yes: bool)
        ensures
            yes == self.alt(code),
    {
        self.code == code && !self.modifiers.shift && !self.modifiers.control
            && self.modifiers.alt && !self.modifiers.other
    }

    /// Whether the key was pressed with no modifier or with Shift alone.
    pub fn is_plain(&self, code: KeyCode) -> (yes: bool)
        ensures
            yes == self.plain(code),
    {
        self.code == code && !self.modifiers.control && !self.modifiers.alt
            && !self.modifiers.other
    }
}

/// How keys are told apart: by their code and by exactly which modifiers are
/// held.
pub proof fn law_keys_are_told_by_code_and_modifiers(key: KeyEvent, code: KeyCode)
    ensures
        key.bare(code) <==> key.code == code && !key.modifiers.shift && !key.modifiers.control
            && !key.modifiers.alt && !key.modifiers.other,
        key.shifted(code) <==> key.code == code && key.modifiers.shift && !key.modifiers.control
            && !key.modifiers.alt && !key.modifiers.other,
        key.control(code) <==> key.code == code && !key.modifiers.shift && key.modifiers.control
            && !key.modifiers.alt && !key.modifiers.other,
        key.alt(code) <==> key.code == code && !key.modifiers.shift && !key.modifiers.control
            && key.modifiers.alt && !key.modifiers.other,
        key.plain(code) <==> key.code == code && !key.modifiers.control && !key.modifiers.alt
            && !key.modifiers.other,
{
}

} // verus!
