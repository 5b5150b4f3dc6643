//! Input routing decisions: which element is hovered, focused and pressed,
//! and what each input event changes. Hit testing and the component store
//! belong to the caller, which hands in their results and applies the
//! component updates returned here.

use vstd::prelude::*;
use crate::components::UiTextComponent;
use crate::element::ElementId;
use crate::input::event::Key;
use crate::text::{
    byte_offset, char_index_at, chars_to_string, insert_chars, is_char_boundary, lemma_byte_offset_end,
    lemma_char_index_at, locate_byte, str_byte_len, str_chars, utf8_len, ByteLocation,
};

verus! {

/// Which element's flag to clear and which to set after an event.
#[derive(Debug, Clone, Copy, PartialEq, Eq, Structural)]
pub struct FlagChange {
    /// The event changed the input state.
    pub handled: bool,
    /// The element whose flag is cleared.
    pub clear: Option<ElementId>,
    /// The element whose flag is set.
    pub set: Option<ElementId>,
}

/// Hover, focus and press state of the UI.
pub struct InputManager {
    hovered_element: Option<ElementId>,
    focused_element: Option<ElementId>,
    pressed_element: Option<ElementId>,
}

/// Model of the input state: hovered, focused and pressed elements.
pub struct InputModel {
    pub hovered: Option<ElementId>,
    pub focused: Option<ElementId>,
    pub pressed: Option<ElementId>,
}

impl View for InputManager {
    type V = InputModel;

    closed spec fn view(&self) -> InputModel {
        InputModel { hovered: self.hovered_element, focused: self.focused_element, pressed: self.pressed_element }
    }
}

impl InputManager {
    /// Nothing hovered, focused or pressed.
    pub fn new() -> (m: Self)
        ensures
            m@.hovered is None,
            m@.focused is None,
            m@.pressed is None,
    {
        InputManager { hovered_element: None, focused_element: None, pressed_element: None }
    }

    /// The focused element.
    pub fn get_focused_element(&self) -> (f: Option<ElementId>)
        ensures
            f == self@.focused,
    {
        self.focused_element
    }

    /// Gives the focus to `element`, or takes it away when `None`.
    pub fn set_focused_element(&mut self, element: Option<ElementId>)
        ensures
            final(self)@ == (InputModel { focused: element, ..old(self)@ }),
    {
        self.focused_element = element;
    }

    /// The pointer is over `hit`: when that changes the hovered element, the
    /// old one loses its hover flag and the new one gets it.
    pub fn update_hover(&mut self, hit: Option<ElementId>) -> (c: FlagChange)
        ensures
            final(self)@.hovered == hit,
            final(self)@.focused == old(self)@.focused,
            final(self)@.pressed == old(self)@.pressed,
            hit != old(self)@.hovered ==> c == (FlagChange { handled: true, clear: old(self)@.hovered, set: hit }),
            hit == old(self)@.hovered ==> c == (FlagChange { handled: false, clear: None, set: None }),
    {
        if hit != self.hovered_element {
            let old_hover = self.hovered_element;
            self.hovered_element = hit;
            FlagChange { handled: true, clear: old_hover, set: hit }
        } else {
            FlagChange { handled: false, clear: None, set: None }
        }
    }

    /// A press on `hit`: an element pressed becomes the pressed one and, when
    /// it is not already focused, takes the focus from the focused one.
    pub fn handle_mouse_down(&mut self, hit: Option<ElementId>) -> (c: FlagChange)
        ensures
            final(self)@.hovered == old(self)@.hovered,
            hit is None ==> final(self)@ == old(self)@ && c == (FlagChange { handled: false, clear: None, set: None }),
            hit matches Some(e) ==> {
                &&& final(self)@.pressed == Some(e)
                &&& final(self)@.focused == Some(e)
                &&& old(self)@.focused == Some(e) ==> c == (FlagChange { handled: true, clear: None, set: None })
                &&& old(self)@.focused != Some(e) ==> c == (FlagChange { handled: true, clear: old(self)@.focused, set: Some(e) })
            },
    {
        match hit {
            Some(element) => {
                self.pressed_element = Some(element);
                if self.focused_element != Some(element) {
                    let old_focus = self.focused_element;
                    self.focused_element = Some(element);
                    FlagChange { handled: true, clear: old_focus, set: Some(element) }
                } else {
                    FlagChange { handled: true, clear: None, set: None }
                }
            },
            None => FlagChange { handled: false, clear: None, set: None },
        }
    }

    /// The element whose click handler is looked up when the pointer is
    /// released over `hit`: the pressed element, when the release is over it.
    pub fn click_target(&self, hit: Option<ElementId>) -> (t: Option<ElementId>)
        ensures
            t == (if self@.pressed is Some && hit == self@.pressed { self@.pressed } else { None }),
    {
        if self.pressed_element.is_some() && hit == self.pressed_element {
            self.pressed_element
        } else {
            None
        }
    }

    /// The pointer was released: a press in progress ends.
    pub fn handle_mouse_up(&mut self) -> (handled: bool)
        ensures
            handled == old(self)@.pressed is Some,
            final(self)@.pressed is None,
            final(self)@.hovered == old(self)@.hovered,
            final(self)@.focused == old(self)@.focused,
    {
        if self.pressed_element.is_some() {
            self.pressed_element = None;
            true
        } else {
            false
        }
    }

    /// A key press reaching the focused element, which accepts input or not:
    /// Escape on an element that accepts input drops its focus.
    pub fn handle_key_down(&mut self, key: Key, accepts_input: bool) -> (c: FlagChange)
        ensures
            final(self)@.hovered == old(self)@.hovered,
            final(self)@.pressed == old(self)@.pressed,
            (old(self)@.focused is None || !accepts_input) ==> final(self)@ == old(self)@ && c == (FlagChange { handled: false, clear: None, set: None }),
            (old(self)@.focused is Some && accepts_input && key == Key::Escape) ==> final(self)@.focused is None
                && c == (FlagChange { handled: true, clear: old(self)@.focused, set: None }),
            (old(self)@.focused is Some && accepts_input && key != Key::Escape) ==> final(self)@.focused == old(self)@.focused
                && c == (FlagChange { handled: true, clear: None, set: None }),
    {
        match self.focused_element {
            Some(focused) => {
                if accepts_input {
                    if key == Key::Escape {
                        self.focused_element = None;
                        FlagChange { handled: true, clear: Some(focused), set: None }
                    } else {
                        FlagChange { handled: true, clear: None, set: None }
                    }
                } else {
                    FlagChange { handled: false, clear: None, set: None }
                }
            },
            None => FlagChange { handled: false, clear: None, set: None },
        }
    }
}

/// `text` inserted into `t` at the byte position `cursor`.
pub open spec fn text_with_insert(t: Seq<char>, cursor: int, text: Seq<char>) -> Seq<char> {
    let k = char_index_at(t, cursor);
    t.take(k) + text + t.skip(k)
}

/// Typing `text` into an editable text component: the text with `text`
/// inserted at the cursor, and the cursor after it (in bytes). A component
/// that is not editable takes nothing. The cursor must be a character
/// boundary of the text.
pub fn text_after_input(component: &UiTextComponent, text: &str) -> (r: Option<(String, usize)>)
    requires
        is_char_boundary(component.text@, component.cursor_position as int),
    ensures
        !component.editable ==> r is None,
        component.editable ==> (r matches Some(p) && p.0@ == text_with_insert(component.text@, component.cursor_position as int, text@)
            && p.1 == component.cursor_position + utf8_len(text@)),
{
    if !component.editable {
        return None;
    }
    let mut chars = str_chars(component.text.as_str());
    let total = str_byte_len(component.text.as_str());
    let added = str_byte_len(text);
    let inserted = str_chars(text);
    let cursor = component.cursor_position;
    proof {
        lemma_char_index_at(chars@, cursor as int);
        lemma_byte_offset_end(chars@);
    }
    let ghost before = chars@;
    match locate_byte(&chars, cursor) {
        ByteLocation::Boundary(k) => {
            insert_chars(&mut chars, k, &inserted);
        },
        _ => {
            proof {
                if cursor < total {
                    assert(false);
                }
                crate::text::lemma_byte_offset_injective(before, char_index_at(before, cursor as int), before.len() as int);
            }
            let n = chars.len();
            insert_chars(&mut chars, n, &inserted);
        },
    }
    Some((chars_to_string(chars.as_slice()), cursor + added))
}

} // verus!
