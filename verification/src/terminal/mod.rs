pub mod websocket;
pub mod emulator;
pub mod manager;
pub mod terminal;
pub mod connection;

pub use websocket::{AnsiParser, TerminalMessage, TerminalOutput, TerminalStyle};
