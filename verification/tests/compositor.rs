use glyph_pipeline::gfx::compositor::{Command, Compositor, DisplayList, Pipeline, MAX_QUADS};
use glyph_pipeline::gfx::image_cache::TextureLocation;
use glyph_pipeline::gfx::render::{on_surface_error, render, FrameAction, RenderOp, RenderPipeline, SurfaceError};
use glyph_pipeline::gfx::types::{Color, Rect, Vertex};

const RED: Color = Color { r: 255, g: 0, b: 0, a: 255 };
const GLASS: Color = Color { r: 0, g: 0, b: 255, a: 128 };
const BLACK: Color = Color { r: 0, g: 0, b: 0, a: 255 };

fn page(atlas_index: usize) -> TextureLocation {
    TextureLocation { atlas_index, min: (2, 3), max: (10, 15), extent: 64 }
}

fn square(at: i32) -> Rect {
    Rect::new(at * 64, at * 64, 64, 128)
}

#[test]
fn an_empty_compositor_gives_an_empty_list() {
    let list = Compositor::new().build_display_list();
    assert!(list.vertices().is_empty());
    assert!(list.indices().is_empty());
    assert!(list.commands().is_empty());
    let list = DisplayList::new();
    assert!(list.commands().is_empty());
}

#[test]
fn a_quad_has_four_corners_and_two_triangles() {
    let mut compositor = Compositor::new();
    compositor.draw_rect(Rect::from_array([64, 128, 320, 192]), 7, RED);
    let list = compositor.build_display_list();
    let corner = |x: i64, y: i64, u: u32, v: u32| Vertex {
        x,
        y,
        depth: 7,
        textured: false,
        color: RED,
        u,
        v,
        uv_extent: 1,
    };
    assert_eq!(
        list.vertices(),
        &[corner(64, 128, 0, 0), corner(64, 320, 0, 1), corner(384, 320, 1, 1), corner(384, 128, 1, 0)]
    );
    assert_eq!(list.indices(), &[0, 1, 2, 0, 2, 3]);
    assert_eq!(
        list.commands(),
        &[Command::BindPipeline(Pipeline::Opaque), Command::Draw { start: 0, count: 6 }]
    );
}

#[test]
fn an_image_quad_maps_to_the_corners_of_its_image() {
    let mut compositor = Compositor::new();
    let location = TextureLocation { atlas_index: 3, min: (2, 3), max: (10, 15), extent: 64 };
    compositor.add_image_rect(Rect::new(-64, 0, 8 * 64, 12 * 64), 1, BLACK, location);
    let list = compositor.build_display_list();
    let corners: Vec<(i64, i64, u32, u32)> =
        list.vertices().iter().map(|vertex| (vertex.x, vertex.y, vertex.u, vertex.v)).collect();
    assert_eq!(corners, vec![(-64, 0, 2, 3), (-64, 768, 2, 15), (448, 768, 10, 15), (448, 0, 10, 3)]);
    assert!(list.vertices().iter().all(|vertex| vertex.textured && vertex.uv_extent == 64));
    assert_eq!(
        list.commands(),
        &[
            Command::BindPipeline(Pipeline::Transparent),
            Command::BindTexture(3),
            Command::Draw { start: 0, count: 6 },
        ]
    );
}

#[test]
fn corners_do_not_overflow() {
    let mut compositor = Compositor::new();
    compositor.draw_rect(Rect::new(i32::MAX, i32::MIN, i32::MAX, i32::MIN), 0, RED);
    let list = compositor.build_display_list();
    assert_eq!(list.vertices()[2].x, 2 * i32::MAX as i64);
    assert_eq!(list.vertices()[2].y, 2 * i32::MIN as i64);
}

#[test]
fn quads_of_one_page_share_a_batch() {
    let mut compositor = Compositor::new();
    compositor.add_subpixel_rect(square(0), 1, BLACK, page(0));
    compositor.add_subpixel_rect(square(1), 1, BLACK, page(1));
    compositor.add_subpixel_rect(square(2), 1, BLACK, page(0));
    compositor.add_subpixel_rect(square(3), 1, BLACK, page(1));
    compositor.add_subpixel_rect(square(4), 1, BLACK, page(2));
    assert_eq!(compositor.quad_count(), 5);
    let list = compositor.build_display_list();
    assert_eq!(
        list.commands(),
        &[
            Command::BindPipeline(Pipeline::Subpixel),
            Command::BindTexture(0),
            Command::Draw { start: 0, count: 12 },
            Command::BindTexture(1),
            Command::Draw { start: 12, count: 12 },
            Command::BindTexture(2),
            Command::Draw { start: 24, count: 6 },
        ]
    );
    let xs: Vec<i64> = list.vertices().iter().step_by(4).map(|vertex| vertex.x / 64).collect();
    assert_eq!(xs, vec![0, 2, 1, 3, 4]);
    let expected: Vec<u32> =
        (0..5u32).flat_map(|quad| [0, 1, 2, 0, 2, 3].map(|index| 4 * quad + index)).collect();
    assert_eq!(list.indices(), &expected[..]);
}

#[test]
fn a_quad_without_image_joins_the_first_batch() {
    let mut compositor = Compositor::new();
    compositor.add_image_rect(square(0), 1, GLASS, page(4));
    compositor.add_image_rect(square(1), 1, GLASS, page(5));
    compositor.draw_rect(square(2), 1, GLASS);
    // The first batch stays on its page: an image of another page does not
    // join it.
    compositor.add_image_rect(square(3), 1, GLASS, page(5));
    compositor.add_image_rect(square(4), 1, GLASS, page(6));
    let list = compositor.build_display_list();
    assert_eq!(
        list.commands(),
        &[
            Command::BindPipeline(Pipeline::Transparent),
            Command::BindTexture(4),
            Command::Draw { start: 0, count: 12 },
            Command::BindTexture(5),
            Command::Draw { start: 12, count: 12 },
            Command::BindTexture(6),
            Command::Draw { start: 24, count: 6 },
        ]
    );
    let flags: Vec<bool> = list.vertices().iter().step_by(4).map(|vertex| vertex.textured).collect();
    assert_eq!(flags, vec![true, false, true, true, true]);
}

#[test]
fn a_batch_without_page_takes_the_page_of_its_first_image() {
    let mut compositor = Compositor::new();
    compositor.draw_rect(square(0), 1, GLASS);
    compositor.add_image_rect(square(1), 1, GLASS, page(2));
    compositor.add_image_rect(square(2), 1, GLASS, page(3));
    let list = compositor.build_display_list();
    assert_eq!(
        list.commands(),
        &[
            Command::BindPipeline(Pipeline::Transparent),
            Command::BindTexture(2),
            Command::Draw { start: 0, count: 12 },
            Command::BindTexture(3),
            Command::Draw { start: 12, count: 6 },
        ]
    );
}

#[test]
fn the_passes_come_in_a_fixed_order() {
    let mut compositor = Compositor::new();
    compositor.add_subpixel_rect(square(0), 1, BLACK, page(0));
    compositor.add_image_rect(square(1), 1, BLACK, page(0));
    compositor.draw_rect(square(2), 1, GLASS);
    compositor.draw_rect(square(3), 1, RED);
    let list = compositor.build_display_list();
    assert_eq!(
        list.commands(),
        &[
            Command::BindPipeline(Pipeline::Opaque),
            Command::Draw { start: 0, count: 6 },
            Command::BindPipeline(Pipeline::Transparent),
            Command::BindTexture(0),
            Command::Draw { start: 6, count: 12 },
            Command::BindPipeline(Pipeline::Subpixel),
            Command::BindTexture(0),
            Command::Draw { start: 18, count: 6 },
        ]
    );
    let xs: Vec<i64> = list.vertices().iter().step_by(4).map(|vertex| vertex.x / 64).collect();
    assert_eq!(xs, vec![3, 1, 2, 0]);
    assert_eq!(list.indices()[6..12], [4, 5, 6, 4, 6, 7]);
    assert_eq!(list.indices()[18..24], [12, 13, 14, 12, 14, 15]);
}

#[test]
fn begin_empties_every_batch() {
    let mut compositor = Compositor::new();
    compositor.draw_rect(square(0), 1, RED);
    compositor.add_image_rect(square(1), 1, BLACK, page(1));
    compositor.add_subpixel_rect(square(2), 1, BLACK, page(2));
    compositor.begin();
    assert_eq!(compositor.quad_count(), 0);
    assert!(compositor.build_display_list().commands().is_empty());
    // A batch that is used again has left its page behind.
    compositor.draw_rect(square(5), 1, GLASS);
    let list = compositor.build_display_list();
    assert_eq!(
        list.commands(),
        &[Command::BindPipeline(Pipeline::Transparent), Command::Draw { start: 0, count: 6 }]
    );
    assert_eq!(list.vertices().len(), 4);
    assert_eq!(list.vertices()[0].x, 5 * 64);
}

#[test]
fn a_cleared_list_is_empty() {
    let mut compositor = Compositor::new();
    compositor.draw_rect(square(0), 1, RED);
    let mut list = compositor.build_display_list();
    let copy = list.clone();
    list.clear();
    assert!(list.vertices().is_empty() && list.indices().is_empty() && list.commands().is_empty());
    assert_eq!(copy.commands().len(), 2);
    assert!(MAX_QUADS as u64 * 6 <= u32::MAX as u64);
    assert!((MAX_QUADS as u64 + 1) * 6 > u32::MAX as u64);
}

#[test]
fn colors() {
    assert_eq!(Color::new(1, 2, 3, 4), Color { r: 1, g: 2, b: 3, a: 4 });
    assert!(RED.is_opaque());
    assert!(!GLASS.is_opaque());
    assert!(!Color::new(9, 9, 9, 254).is_opaque());
}

#[test]
fn subpixel_ranges_are_drawn_for_each_channel() {
    let mut compositor = Compositor::new();
    compositor.draw_rect(square(0), 1, RED);
    compositor.add_image_rect(square(1), 1, BLACK, page(1));
    compositor.add_subpixel_rect(square(2), 1, BLACK, page(0));
    compositor.add_subpixel_rect(square(3), 1, BLACK, page(0));
    let ops = render(&compositor.build_display_list(), 2).expect("both pages exist");
    let draw = |start: u32, end: u32| RenderOp::DrawIndexed { start, end };
    assert_eq!(
        ops,
        vec![
            RenderOp::BindTexture(0),
            RenderOp::SetPipeline(RenderPipeline::Opaque),
            draw(0, 6),
            RenderOp::SetPipeline(RenderPipeline::Transparent),
            RenderOp::BindTexture(1),
            draw(6, 12),
            RenderOp::BindTexture(0),
            RenderOp::SetPipeline(RenderPipeline::SubpixelRed),
            draw(12, 24),
            RenderOp::SetPipeline(RenderPipeline::SubpixelGreen),
            draw(12, 24),
            RenderOp::SetPipeline(RenderPipeline::SubpixelBlue),
            draw(12, 24),
        ]
    );
}

#[test]
fn a_frame_with_a_missing_page_is_left_out() {
    let mut compositor = Compositor::new();
    compositor.draw_rect(square(0), 1, RED);
    assert_eq!(render(&compositor.build_display_list(), 0), None);
    assert_eq!(
        render(&compositor.build_display_list(), 1),
        Some(vec![
            RenderOp::BindTexture(0),
            RenderOp::SetPipeline(RenderPipeline::Opaque),
            RenderOp::DrawIndexed { start: 0, end: 6 },
        ])
    );
    compositor.add_image_rect(square(1), 1, BLACK, page(2));
    assert_eq!(render(&compositor.build_display_list(), 2), None);
    assert!(render(&compositor.build_display_list(), 3).is_some());
    assert_eq!(render(&DisplayList::new(), 1), Some(vec![RenderOp::BindTexture(0)]));
}

#[test]
fn surface_errors() {
    assert_eq!(on_surface_error(SurfaceError::Lost), FrameAction::Reconfigure);
    assert_eq!(on_surface_error(SurfaceError::OutOfMemory), FrameAction::Abort);
    assert_eq!(on_surface_error(SurfaceError::Timeout), FrameAction::Skip);
    assert_eq!(on_surface_error(SurfaceError::Outdated), FrameAction::Skip);
}
