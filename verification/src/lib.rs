//! Text to draw commands: segmentation and font fallback, line layout, a
//! glyph raster cache, atlas packing and draw batching.
//!
//! All lengths are fixed point with [`layout::UNITS_PER_PIXEL`] units to the
//! pixel, so that every rule of the pipeline is stated over integers.

pub mod document;
pub mod fonts;
pub mod gfx;
pub mod layout;
