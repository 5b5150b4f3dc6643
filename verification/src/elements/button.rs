//! Button element: a labelled control that fires its callback when a press
//! that started on it is released.

use vstd::prelude::*;
use crate::input::event::EventHandled;
use crate::runtime::new_uuid;

verus! {

/// Button element. `F` is the type of the click callback.
pub struct Button<F> {
    id: u128,
    text: String,
    pressed: bool,
    on_click: Option<F>,
    dirty: bool,
    visible: bool,
}

impl<F: Fn()> Button<F> {
    /// The element's identifier.
    pub closed spec fn element_id(&self) -> u128 {
        self.id
    }

    /// The label.
    pub closed spec fn label(&self) -> Seq<char> {
        self.text@
    }

    /// Whether a press is in progress.
    pub closed spec fn pressed_state(&self) -> bool {
        self.pressed
    }

    /// Whether the button needs to be drawn again.
    pub closed spec fn dirty_state(&self) -> bool {
        self.dirty
    }

    /// Whether the button is shown.
    pub closed spec fn visible_state(&self) -> bool {
        self.visible
    }

    /// Whether a callback is attached.
    pub closed spec fn has_callback(&self) -> bool {
        self.on_click is Some
    }

    /// The attached callback, if any.
    pub closed spec fn callback(&self) -> Option<F> {
        self.on_click
    }

    /// The attached callback, when there is one, may be called with no arguments.
    pub closed spec fn callback_ready(&self) -> bool {
        match self.on_click {
            Some(f) => f.requires(()),
            None => true,
        }
    }

    /// A new, visible, released button with no callback.
    pub fn new(text: String) -> (b: Self)
        ensures
            b.label() == text@,
            !b.pressed_state(),
            !b.dirty_state(),
            b.visible_state(),
            !b.has_callback(),
            b.callback() == None::<F>,
            b.callback_ready(),
    {
        Button { id: new_uuid(), text, pressed: false, on_click: None, dirty: false, visible: true }
    }

    /// The same button with `callback` attached as its click action.
    pub fn on_click(self, callback: F) -> (b: Self)
        requires
            callback.requires(()),
        ensures
            b.label() == self.label(),
            b.element_id() == self.element_id(),
            b.pressed_state() == self.pressed_state(),
            b.dirty_state() == self.dirty_state(),
            b.visible_state() == self.visible_state(),
            b.has_callback(),
            b.callback() == Some(callback),
            b.callback_ready(),
    {
        let mut b = self;
        b.on_click = Some(callback);
        b
    }

    /// The name of this kind of element.
    pub fn kind_name(&self) -> (s: &'static str)
        ensures
            s@ == "Button"@,
    {
        "Button"
    }

    /// The element's identifier.
    pub fn id(&self) -> (id: u128)
        ensures
            id == self.element_id(),
    {
        self.id
    }

    /// The label.
    pub fn text(&self) -> (s: &str)
        ensures
            s@ == self.label(),
    {
        self.text.as_str()
    }

    /// Whether a press is in progress.
    pub fn is_pressed(&self) -> (p: bool)
        ensures
            p == self.pressed_state(),
    {
        self.pressed
    }

    /// A pointer went down on the button: it becomes pressed and needs redrawing.
    pub fn pointer_down(&mut self) -> (r: EventHandled)
        ensures
            r == EventHandled::Yes,
            final(self).pressed_state(),
            final(self).dirty_state(),
            final(self).label() == old(self).label(),
            final(self).element_id() == old(self).element_id(),
            final(self).visible_state() == old(self).visible_state(),
            final(self).has_callback() == old(self).has_callback(),
            final(self).callback_ready() == old(self).callback_ready(),
    {
        self.pressed = true;
        self.dirty = true;
        EventHandled::Yes
    }

    /// A pointer was released: when a press was in progress, the callback
    /// (if any) runs once, the button is released and needs redrawing;
    /// otherwise nothing changes. The event counts as handled either way.
    pub fn pointer_up(&mut self) -> (r: EventHandled)
        requires
            old(self).callback_ready(),
        ensures
            r == EventHandled::Yes,
            !final(self).pressed_state(),
            final(self).dirty_state() == (old(self).dirty_state() || old(self).pressed_state()),
            final(self).label() == old(self).label(),
            final(self).element_id() == old(self).element_id(),
            final(self).visible_state() == old(self).visible_state(),
            final(self).has_callback() == old(self).has_callback(),
            final(self).callback_ready() == old(self).callback_ready(),
    {
        if self.pressed {
            match &self.on_click {
                Some(cb) => {
                    cb();
                },
                None => {},
            }
            self.pressed = false;
            self.dirty = true;
        }
        EventHandled::Yes
    }

    /// Whether the button needs to be drawn again.
    pub fn is_dirty(&self) -> (d: bool)
        ensures
            d == self.dirty_state(),
    {
        self.dirty
    }

    /// Marks the button as drawn.
    pub fn mark_clean(&mut self)
        ensures
            !final(self).dirty_state(),
            final(self).pressed_state() == old(self).pressed_state(),
            final(self).label() == old(self).label(),
            final(self).element_id() == old(self).element_id(),
            final(self).visible_state() == old(self).visible_state(),
            final(self).has_callback() == old(self).has_callback(),
            final(self).callback_ready() == old(self).callback_ready(),
    {
        self.dirty = false;
    }

    /// Marks the button as needing to be drawn again.
    pub fn mark_dirty(&mut self)
        ensures
            final(self).dirty_state(),
            final(self).pressed_state() == old(self).pressed_state(),
            final(self).label() == old(self).label(),
            final(self).element_id() == old(self).element_id(),
            final(self).visible_state() == old(self).visible_state(),
            final(self).has_callback() == old(self).has_callback(),
            final(self).callback_ready() == old(self).callback_ready(),
    {
        self.dirty = true;
    }

    /// Whether the button is shown.
    pub fn is_visible(&self) -> (v: bool)
        ensures
            v == self.visible_state(),
    {
        self.visible
    }

    /// Shows or hides the button; it then needs to be drawn again.
    pub fn set_visible(&mut self, visible: bool)
        ensures
            final(self).visible_state() == visible,
            final(self).dirty_state(),
            final(self).pressed_state() == old(self).pressed_state(),
            final(self).label() == old(self).label(),
            final(self).element_id() == old(self).element_id(),
            final(self).has_callback() == old(self).has_callback(),
            final(self).callback_ready() == old(self).callback_ready(),
    {
        self.visible = visible;
        self.dirty = true;
    }
}

} // verus!
