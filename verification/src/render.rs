pub mod basic_mesh;
pub mod frame;
pub mod geometry;
pub mod img_texture;
pub mod linear;
pub mod msdf;
pub mod quad;
pub mod scene;
pub mod text;
pub mod vector;
pub mod vertex;
