use vstd::prelude::*;

verus! {

/// Direction of a swipe gesture.
#[derive(Debug, Clone, Copy, PartialEq, Eq, Structural)]
pub enum SwipeDirection {
    Up,
    Down,
    Left,
    Right,
}

} // verus!
