//! Input event vocabulary shared by the UI elements.

use vstd::prelude::*;

verus! {

/// Pointer button.
#[derive(Debug, Clone, Copy, PartialEq, Eq, Structural)]
pub enum PointerButton {
    Primary,
    Secondary,
    Middle,
    Touch(u32),
}

/// Keyboard key.
#[derive(Debug, Clone, Copy, PartialEq, Eq, Structural)]
pub enum Key {
    A, B, C, D, E, F, G, H, I, J, K, L, M,
    N, O, P, Q, R, S, T, U, V, W, X, Y, Z,
    Num0, Num1, Num2, Num3, Num4,
    Num5, Num6, Num7, Num8, Num9,
    F1, F2, F3, F4, F5, F6, F7, F8,
    F9, F10, F11, F12,
    Up, Down, Left, Right,
    Home, End, PageUp, PageDown,
    Backspace, Delete, Tab, Enter,
    Space, Escape,
    Shift, Control, Alt, Meta,
    Unknown,
}

/// Keyboard modifiers held during a key event.
#[derive(Debug, Clone, Copy)]
pub struct Modifiers {
    pub shift: bool,
    pub control: bool,
    pub alt: bool,
    pub meta: bool,
}

impl Default for Modifiers {
    fn default() -> (m: Self)
        ensures
            !m.shift && !m.control && !m.alt && !m.meta,
    {
        Modifiers { shift: false, control: false, alt: false, meta: false }
    }
}

/// Whether an event was handled.
#[derive(Debug, Clone, Copy, PartialEq, Eq, Structural)]
pub enum EventHandled {
    Yes,
    No,
}

/// Error raised while handling input.
#[derive(Debug, Clone)]
pub struct InputError {
    pub message: String,
}

impl From<String> for InputError {
    fn from(message: String) -> (e: Self) {
        InputError { message }
    }
}

impl vstd::std_specs::convert::FromSpecImpl<String> for InputError {
    open spec fn obeys_from_spec() -> bool {
        true
    }

    open spec fn from_spec(message: String) -> InputError {
        InputError { message }
    }
}

} // verus!
