//! Colors, rectangles and vertices.

use super::image_cache::TextureLocation;
use vstd::prelude::*;

verus! {

/// A color of four channels, the last of them the opacity.
#[derive(Debug, Clone, Copy, PartialEq, Eq, Structural)]
pub struct Color {
    pub r: u8,
    pub g: u8,
    pub b: u8,
    pub a: u8,
}

impl Color {
    /// The color of the given channels.
    pub fn new(r: u8, g: u8, b: u8, a: u8) -> (color: Color)
        ensures
            color == (Color { r, g, b, a }),
    {
        Color { r, g, b, a }
    }

    /// Whether nothing shows through the color.
    pub open spec fn spec_is_opaque(self) -> bool {
        self.a == 255
    }

    /// Whether nothing shows through the color.
    #[verifier::when_used_as_spec(spec_is_opaque)]
    pub fn is_opaque(self) -> (opaque: bool)
        ensures
            opaque == self.spec_is_opaque(),
    {
        self.a == 255
    }
}

/// A rectangle in sub-pixel units.
#[derive(Debug, Clone, Copy, PartialEq, Eq, Structural)]
pub struct Rect {
    pub x: i32,
    pub y: i32,
    pub width: i32,
    pub height: i32,
}

impl Rect {
    /// The rectangle of the given corner and size.
    pub fn new(x: i32, y: i32, width: i32, height: i32) -> (rect: Rect)
        ensures
            rect == (Rect { x, y, width, height }),
    {
        Rect { x, y, width, height }
    }

    /// The rectangle of the corner `v[0]`, `v[1]` and the size `v[2]`,
    /// `v[3]`.
    pub fn from_array(v: [i32; 4]) -> (rect: Rect)
        ensures
            rect == (Rect { x: v[0], y: v[1], width: v[2], height: v[3] }),
    {
        Rect::new(v[0], v[1], v[2], v[3])
    }
}

/// A corner of a quad. `x` and `y` are in sub-pixel units, `depth` grows
/// away from the viewer, and `(u, v)` divided by `uv_extent` is the
/// normalized texture coordinate, which is sampled only where `textured`.
#[derive(Debug, Clone, Copy, PartialEq, Eq, Structural)]
pub struct Vertex {
    pub x: i64,
    pub y: i64,
    pub depth: u16,
    pub textured: bool,
    pub color: Color,
    pub u: u32,
    pub v: u32,
    pub uv_extent: u32,
}

/// The four corners of a quad: top left, bottom left, bottom right and top
/// right. With a texture location the corners map to the corners of the
/// image, without one to those of the unit square.
pub open spec fn quad_vertices(
    rect: Rect,
    depth: u16,
    color: Color,
    location: Option<TextureLocation>,
) -> Seq<Vertex> {
    let textured = location is Some;
    let (left, top, right, bottom, uv_extent) = match location {
        Some(location) => (
            location.min.0,
            location.min.1,
            location.max.0,
            location.max.1,
            location.extent,
        ),
        None => (0u32, 0u32, 1u32, 1u32, 1u32),
    };
    let x0 = rect.x as i64;
    let y0 = rect.y as i64;
    let x1 = (rect.x + rect.width) as i64;
    let y1 = (rect.y + rect.height) as i64;
    seq![
        Vertex { x: x0, y: y0, depth, textured, color, u: left, v: top, uv_extent },
        Vertex { x: x0, y: y1, depth, textured, color, u: left, v: bottom, uv_extent },
        Vertex { x: x1, y: y1, depth, textured, color, u: right, v: bottom, uv_extent },
        Vertex { x: x1, y: y0, depth, textured, color, u: right, v: top, uv_extent },
    ]
}

/// The indices of the two triangles of the quad whose first corner has the
/// index `base`.
pub open spec fn quad_indices(base: int) -> Seq<u32> {
    seq![
        base as u32,
        (base + 1) as u32,
        (base + 2) as u32,
        base as u32,
        (base + 2) as u32,
        (base + 3) as u32,
    ]
}

} // verus!
