pub mod chat_interface;
pub mod code_context;
pub mod conversation_handler;

pub use chat_interface::{ChatInterface, ChatMessage, CodeBlock};
