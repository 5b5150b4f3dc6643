use vstd::prelude::*;

verus! {

/// Errors reported by the UI system.
#[derive(Debug, Clone, PartialEq, Eq)]
pub enum UiError {
    AlreadyInitialized,
    NotInitialized,
    ElementNotFound(String),
    ThemeNotFound(String),
    LayoutError(String),
    InputError(String),
    RenderingError(String),
    TerminalError(String),
    EcsError(String),
    SerializationError(String),
    NetworkError(String),
    CreationFailed(String),
    InvalidOperation(String),
    InvalidInput(String),
    NotFound(String),
}

/// Result type used throughout the UI system.
pub type UiResult<T> = Result<T, UiError>;

} // verus!
