pub mod glyphs;
pub mod sprite_renderer;
