//! Rasterized glyphs on their way to the GPU: cache, atlas pages and batches.

pub mod atlas;
pub mod compositor;
pub mod glyph_cache;
pub mod image_cache;
pub mod render;
pub mod types;
