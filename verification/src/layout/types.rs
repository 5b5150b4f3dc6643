//! Layout vocabulary and the layout strategies.

use vstd::prelude::*;

verus! {

/// Layout direction.
#[derive(Debug, Clone, Copy, PartialEq, Eq, Structural)]
pub enum Direction {
    Row,
    Column,
    RowReverse,
    ColumnReverse,
}

/// Justify content alignment.
#[derive(Debug, Clone, Copy, PartialEq, Eq, Structural)]
pub enum JustifyContent {
    Start,
    End,
    Center,
    SpaceBetween,
    SpaceAround,
    SpaceEvenly,
}

/// Align items alignment.
#[derive(Debug, Clone, Copy, PartialEq, Eq, Structural)]
pub enum AlignItems {
    Start,
    End,
    Center,
    Stretch,
    Baseline,
}

/// Align content alignment.
#[derive(Debug, Clone, Copy, PartialEq, Eq, Structural)]
pub enum AlignContent {
    Start,
    End,
    Center,
    SpaceBetween,
    SpaceAround,
    Stretch,
}

/// Position type.
#[derive(Debug, Clone, Copy, PartialEq, Eq, Structural)]
pub enum Position {
    Relative,
    Absolute,
    Fixed,
}

/// Flexbox layout strategy.
#[derive(Debug, Clone, Copy)]
pub struct FlexboxLayout;

impl FlexboxLayout {
    /// The flexbox strategy.
    pub fn new() -> (l: Self) {
        FlexboxLayout
    }
}

/// Absolute layout strategy.
#[derive(Debug, Clone, Copy)]
pub struct AbsoluteLayout;

impl AbsoluteLayout {
    /// The absolute strategy.
    pub fn new() -> (l: Self) {
        AbsoluteLayout
    }
}

/// Docking layout strategy (lays out as the absolute strategy does).
#[derive(Debug, Clone, Copy)]
pub struct DockingLayout;

impl DockingLayout {
    /// The docking strategy.
    pub fn new() -> (l: Self) {
        DockingLayout
    }
}

} // verus!
