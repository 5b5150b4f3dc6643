pub mod button;

pub use button::Button;
