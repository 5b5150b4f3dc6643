//! Verified core of the playground UI system: terminal text handling,
//! element hierarchy, editor buffers, chat state and wire encodings.

pub mod error;

pub use error::{UiError, UiResult};
pub mod text;
pub mod strings;
mod runtime;
pub mod terminal;
pub mod element;
pub mod input;
pub mod ide;
pub mod chat;
pub mod messages;
pub mod components;
pub mod layout;
pub mod rendering;
pub mod internal_storage;
pub mod command_processor;
pub mod elements;
