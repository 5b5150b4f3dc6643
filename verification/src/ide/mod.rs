pub mod code_editor;

pub use code_editor::CodeEditor;
