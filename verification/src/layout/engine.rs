//! The layout engine: one strategy per layout type.

use vstd::prelude::*;
use crate::layout::types::{AbsoluteLayout, DockingLayout, FlexboxLayout};

verus! {

/// The layout engine, holding the flexbox, absolute and docking strategies.
pub struct LayoutEngine {
    pub flexbox: FlexboxLayout,
    pub absolute: AbsoluteLayout,
    pub docking: DockingLayout,
}

impl LayoutEngine {
    /// An engine with each strategy.
    pub fn new() -> (e: Self) {
        LayoutEngine { flexbox: FlexboxLayout::new(), absolute: AbsoluteLayout::new(), docking: DockingLayout::new() }
    }
}

} // verus!
