//! Component data attached to UI entities: element flags, input handlers,
//! text state, and the layout and style enumerations.

use vstd::prelude::*;
use crate::runtime::{new_uuid_string, uuid_text};

verus! {

/// How an element lays out its children.
#[derive(Debug, Clone, Copy, PartialEq, Eq, Structural)]
pub enum LayoutType {
    Flexbox,
    Absolute,
    Docking,
}

/// Main axis of a flex container.
#[derive(Debug, Clone, Copy, PartialEq, Eq, Structural)]
pub enum FlexDirection {
    Row,
    Column,
    RowReverse,
    ColumnReverse,
}

/// Distribution of children along the main axis.
#[derive(Debug, Clone, Copy, PartialEq, Eq, Structural)]
pub enum JustifyContent {
    FlexStart,
    FlexEnd,
    Center,
    SpaceBetween,
    SpaceAround,
    SpaceEvenly,
}

/// Alignment of children across the main axis.
#[derive(Debug, Clone, Copy, PartialEq, Eq, Structural)]
pub enum AlignItems {
    FlexStart,
    FlexEnd,
    Center,
    Baseline,
    Stretch,
}

/// How an element is positioned.
#[derive(Debug, Clone, Copy, PartialEq, Eq, Structural)]
pub enum PositionType {
    Relative,
    Absolute,
    Fixed,
}

/// Font weight.
#[derive(Debug, Clone, Copy, PartialEq, Eq, Structural)]
pub enum FontWeight {
    Light,
    Normal,
    Bold,
    ExtraBold,
}

/// Horizontal text alignment.
#[derive(Debug, Clone, Copy, PartialEq, Eq, Structural)]
pub enum TextAlign {
    Left,
    Center,
    Right,
    Justify,
}

/// Element component: identity, type, content and interaction flags.
#[derive(Debug, Clone)]
pub struct UiElementComponent {
    pub id: String,
    pub element_type: String,
    pub text_content: Option<String>,
    pub visible: bool,
    pub hovered: bool,
    pub focused: bool,
    pub disabled: bool,
    pub children: Vec<crate::element::ElementId>,
}

impl UiElementComponent {
    /// A visible, idle element of type `element_type` with a fresh identifier
    /// (the hyphenated text of a random UUID).
    pub fn new(element_type: &str) -> (c: Self)
        ensures
            exists|v: u128| c.id@ == uuid_text(v),
            c.element_type@ == element_type@,
            c.text_content is None,
            c.visible,
            !c.hovered,
            !c.focused,
            !c.disabled,
            c.children@.len() == 0,
    {
        UiElementComponent {
            id: new_uuid_string(),
            element_type: element_type.to_string(),
            text_content: None,
            visible: true,
            hovered: false,
            focused: false,
            disabled: false,
            children: Vec::new(),
        }
    }
}

/// Input component: whether the element takes input, and its handlers.
#[derive(Debug, Clone)]
pub struct UiInputComponent {
    pub accepts_input: bool,
    pub tab_index: Option<i32>,
    pub on_click: Option<String>,
    pub on_hover: Option<String>,
    pub on_focus: Option<String>,
    pub on_blur: Option<String>,
    pub on_key_down: Option<String>,
    pub on_key_up: Option<String>,
}

impl Default for UiInputComponent {
    /// No input accepted and no handlers.
    fn default() -> (c: Self)
        ensures
            !c.accepts_input,
            c.tab_index is None,
            c.on_click is None,
            c.on_hover is None,
            c.on_focus is None,
            c.on_blur is None,
            c.on_key_down is None,
            c.on_key_up is None,
    {
        UiInputComponent {
            accepts_input: false,
            tab_index: None,
            on_click: None,
            on_hover: None,
            on_focus: None,
            on_blur: None,
            on_key_down: None,
            on_key_up: None,
        }
    }
}

/// Text component: the text, whether it can be selected or edited, the
/// selection and the cursor.
#[derive(Debug, Clone)]
pub struct UiTextComponent {
    pub text: String,
    pub selectable: bool,
    pub editable: bool,
    pub selection_start: Option<usize>,
    pub selection_end: Option<usize>,
    pub cursor_position: usize,
}

impl UiTextComponent {
    /// Selectable, read-only text with no selection and the cursor at the start.
    pub fn new(text: String) -> (c: Self)
        ensures
            c.text == text,
            c.selectable,
            !c.editable,
            c.selection_start is None,
            c.selection_end is None,
            c.cursor_position == 0,
    {
        UiTextComponent {
            text,
            selectable: true,
            editable: false,
            selection_start: None,
            selection_end: None,
            cursor_position: 0,
        }
    }
}

} // verus!
