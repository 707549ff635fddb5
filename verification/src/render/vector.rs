pub mod draw_call_ordering;
pub mod instance;
pub mod lazy_instance;
pub mod renderer;
pub mod svg_geometry;
pub mod vertex;
pub mod vertex_buffers;

pub use instance::VectorInstance;
