pub mod types;
pub mod engine;

pub use types::{AbsoluteLayout, AlignContent, AlignItems, Direction, DockingLayout, FlexboxLayout, JustifyContent, Position};
pub use engine::LayoutEngine;
