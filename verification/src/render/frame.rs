pub mod render_queue;

pub use render_queue::RenderQueue;
