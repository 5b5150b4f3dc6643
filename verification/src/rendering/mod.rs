pub mod batch_manager;
pub mod text_renderer;
pub mod render_data;
pub mod sdf;

pub use batch_manager::{BatchStats, RenderBatchManager};
