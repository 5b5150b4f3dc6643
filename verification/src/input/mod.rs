pub mod event;
pub mod gestures;
pub mod manager;

pub use event::{EventHandled, InputError, Key, Modifiers, PointerButton};
pub use gestures::SwipeDirection;
