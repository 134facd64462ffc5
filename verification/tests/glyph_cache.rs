use glyph_pipeline::gfx::glyph_cache::{GlyphCache, GlyphEntry, GlyphImage, GlyphKey, SubpixelOffset};
use glyph_pipeline::gfx::image_cache::{ImageCache, TextureLocation};

fn mask(width: u32, height: u32) -> Option<GlyphImage> {
    GlyphImage::new(-1, 9, width, height, false, vec![200u8; (width * height * 4) as usize])
}

#[test]
fn quantize_boundaries() {
    let fractions: [f32; 13] = [
        0.0, 0.1, 0.125, 0.2, 0.374, 0.375, 0.5, 0.624, 0.625, 0.8, 0.874, 0.875, 0.99,
    ];
    let expected = [
        SubpixelOffset::Zero,
        SubpixelOffset::Zero,
        SubpixelOffset::Quarter,
        SubpixelOffset::Quarter,
        SubpixelOffset::Quarter,
        SubpixelOffset::Half,
        SubpixelOffset::Half,
        SubpixelOffset::Half,
        SubpixelOffset::ThreeQuarters,
        SubpixelOffset::ThreeQuarters,
        SubpixelOffset::ThreeQuarters,
        SubpixelOffset::Zero,
        SubpixelOffset::Zero,
    ];
    for (fraction, expected) in fractions.iter().zip(expected.iter()) {
        let units = (fraction * 64.0).floor() as i32;
        assert_eq!(SubpixelOffset::quantize(units), *expected, "fraction {}", fraction);
        assert_eq!(SubpixelOffset::quantize(units + 5 * 64), *expected);
        assert_eq!(SubpixelOffset::quantize(units - 3 * 64), *expected);
    }
}

#[test]
fn get_rasterizes_once() {
    let mut glyphs = GlyphCache::new();
    let mut images = ImageCache::new(16);
    let mut session = glyphs.session(&mut images, 7, 32 * 64);
    let mut calls = 0;
    let first = session.get(5, 10, 20, |_key| {
        calls += 1;
        GlyphImage::new(1, 2, 2, 3, false, vec![9u8; 24])
    });
    let second = session.get(5, 10, 20, |_key| {
        calls += 1;
        GlyphImage::new(1, 2, 2, 3, false, vec![9u8; 24])
    });
    assert_eq!(calls, 1);
    let first = first.expect("the glyph has pixels and the page has room");
    assert_eq!(second, Some(first));
    assert_eq!(first.image_id, 0);
    assert_eq!((first.left, first.top, first.width, first.height), (1, 2, 2, 3));
    assert!(!first.is_bitmap);
}

#[test]
fn quantizes_what_is_above_the_pixel_below() {
    let cases = [
        (0, SubpixelOffset::Zero),
        (7, SubpixelOffset::Zero),
        (8, SubpixelOffset::Quarter),
        (23, SubpixelOffset::Quarter),
        (24, SubpixelOffset::Half),
        (39, SubpixelOffset::Half),
        (40, SubpixelOffset::ThreeQuarters),
        (55, SubpixelOffset::ThreeQuarters),
        (56, SubpixelOffset::Zero),
        (63, SubpixelOffset::Zero),
        (64, SubpixelOffset::Zero),
        (-1, SubpixelOffset::Zero),
        (-8, SubpixelOffset::Zero),
        (-9, SubpixelOffset::ThreeQuarters),
        (-40, SubpixelOffset::Half),
        (-56, SubpixelOffset::Quarter),
        (-57, SubpixelOffset::Zero),
        (-64, SubpixelOffset::Zero),
        (i32::MAX, SubpixelOffset::Zero),
        (i32::MIN, SubpixelOffset::Zero),
        (i32::MIN + 8, SubpixelOffset::Quarter),
    ];
    for (units, expected) in cases {
        assert_eq!(SubpixelOffset::quantize(units), expected, "{} units", units);
    }
}

#[test]
fn offsets_in_quarters_and_units() {
    let all = [
        SubpixelOffset::Zero,
        SubpixelOffset::Quarter,
        SubpixelOffset::Half,
        SubpixelOffset::ThreeQuarters,
    ];
    assert_eq!(all.map(|offset| offset.quarters()), [0, 1, 2, 3]);
    assert_eq!(all.map(|offset| offset.units()), [0, 16, 32, 48]);
    // The shift that stands for a position is within an eighth of a pixel
    // of what is above the pixel below, around the pixel.
    for units in 0..64 {
        let shift = SubpixelOffset::quantize(units).units();
        let distance = (units - shift).rem_euclid(64).min((shift - units).rem_euclid(64));
        assert!(distance <= 8, "{} units", units);
    }
}

#[test]
fn the_key_of_a_request() {
    let mut glyphs = GlyphCache::new();
    let mut images = ImageCache::new(16);
    let session = glyphs.session(&mut images, 77, 12 * 64 + 33);
    assert_eq!(
        session.key(5, 3 * 64 + 16, -64 + 40),
        GlyphKey {
            font_key: 77,
            id: 5,
            offset_x: SubpixelOffset::Quarter,
            offset_y: SubpixelOffset::ThreeQuarters,
            size: 12 * 32 + 16,
        }
    );
}

#[test]
fn sizes_are_kept_in_32nds_of_a_pixel() {
    let mut glyphs = GlyphCache::new();
    let mut images = ImageCache::new(16);
    for (size, expected) in [(0, 0), (1, 0), (2, 1), (3, 1), (64, 32), (131070, 65535), (131072, 65535), (u32::MAX, 65535)] {
        let session = glyphs.session(&mut images, 1, size);
        assert_eq!(session.quant_size, expected, "size of {} units", size);
        assert_eq!(session.font_key, 1);
    }
}

#[test]
fn requests_in_one_bucket_share_a_glyph() {
    let mut glyphs = GlyphCache::new();
    let mut images = ImageCache::new(16);
    let mut session = glyphs.session(&mut images, 7, 640);
    let first = session.get(5, 8, 0, |_key| mask(2, 2)).expect("the page has room");
    // Another position within the same quarter, and the same size in
    // 32nds of a pixel.
    assert_eq!(session.get(5, 64 * 9 + 23, 128 + 7, |_key| unreachable!()), Some(first));
    assert_eq!(session.lookup(5, 8, 0), Some(first));
    // Another quarter, another glyph, another font or size: each is new.
    assert_eq!(session.lookup(5, 24, 0), None);
    assert_eq!(session.lookup(5, 8, 8), None);
    assert_eq!(session.lookup(6, 8, 0), None);
    let second = session.get(5, 24, 0, |_key| mask(2, 2)).expect("the page has room");
    assert_eq!(second.image_id, 1);
    let mut session = glyphs.session(&mut images, 8, 640);
    assert_eq!(session.lookup(5, 8, 0), None);
    assert_eq!(session.get(5, 8, 0, |_key| mask(1, 1)).map(|entry| entry.image_id), Some(2));
    let mut session = glyphs.session(&mut images, 7, 642);
    assert_eq!(session.lookup(5, 8, 0), None);
    assert_eq!(session.get(5, 8, 0, |_key| mask(1, 1)).map(|entry| entry.image_id), Some(3));
    let session = glyphs.session(&mut images, 7, 641);
    assert_eq!(session.lookup(5, 8, 0), Some(first));
}

#[test]
fn the_rasterizer_is_asked_with_the_key() {
    let mut glyphs = GlyphCache::new();
    let mut images = ImageCache::new(16);
    let mut session = glyphs.session(&mut images, 7, 640);
    let mut asked = None;
    session.get(5, 40, 24, |key| {
        asked = Some(key);
        None
    });
    assert_eq!(asked, Some(session.key(5, 40, 24)));
    assert_eq!(
        asked.map(|key| (key.offset_x.units(), key.offset_y.units())),
        Some((48, 32))
    );
}

#[test]
fn a_glyph_without_pixels_is_not_kept() {
    let mut glyphs = GlyphCache::new();
    let mut images = ImageCache::new(16);
    let mut session = glyphs.session(&mut images, 7, 640);
    let mut calls = 0;
    for (width, height) in [(0, 0), (0, 3), (3, 0)] {
        let entry = session.get(32, 0, 0, |_key| {
            calls += 1;
            mask(width, height)
        });
        assert_eq!(entry, None);
    }
    let entry = session.get(32, 0, 0, |_key| {
        calls += 1;
        None
    });
    assert_eq!(entry, None);
    assert_eq!(calls, 4);
    assert_eq!(session.get_texture_location(0), None);
    assert_eq!(images.page_count(), 0);
}

#[test]
fn a_glyph_without_room_is_not_kept() {
    let mut glyphs = GlyphCache::new();
    let mut images = ImageCache::new(4);
    let mut session = glyphs.session(&mut images, 7, 640);
    assert_eq!(session.get(5, 0, 0, |_key| mask(5, 5)), None);
    assert_eq!(session.lookup(5, 0, 0), None);
    // The next request asks the rasterizer again.
    let entry = session.get(5, 0, 0, |_key| mask(4, 4)).expect("a page has room");
    assert_eq!(entry.image_id, 0);
    assert_eq!(session.lookup(5, 0, 0), Some(entry));
}

#[test]
fn an_entry_tells_masks_from_color_bitmaps() {
    let mut glyphs = GlyphCache::new();
    let mut images = ImageCache::new(16);
    let mut session = glyphs.session(&mut images, 7, 640);
    let color = session.get(1, 0, 0, |_key| GlyphImage::new(3, 4, 2, 1, true, vec![1; 8]));
    let mask = session.get(2, 0, 0, |_key| GlyphImage::new(-3, -4, 1, 2, false, vec![1; 8]));
    assert_eq!(
        color,
        Some(GlyphEntry { left: 3, top: 4, width: 2, height: 1, is_bitmap: true, image_id: 0 })
    );
    assert_eq!(
        mask,
        Some(GlyphEntry { left: -3, top: -4, width: 1, height: 2, is_bitmap: false, image_id: 1 })
    );
    let location = session.get_texture_location(1).expect("the image exists");
    assert_eq!((location.max.0 - location.min.0, location.max.1 - location.min.1), (1, 2));
    assert_eq!(session.get_texture_location(2), None);
    assert_eq!(
        session.get_texture_location(0),
        Some(TextureLocation { atlas_index: 0, min: (0, 0), max: (2, 1), extent: 16 })
    );
}

#[test]
fn an_image_has_four_bytes_for_each_pixel() {
    assert!(GlyphImage::new(0, 0, 2, 3, false, vec![0; 24]).is_some());
    assert!(GlyphImage::new(0, 0, 2, 3, false, vec![0; 23]).is_none());
    assert!(GlyphImage::new(0, 0, 2, 3, false, vec![0; 6]).is_none());
    assert!(GlyphImage::new(0, 0, 0, 3, true, vec![]).is_some());
    assert!(GlyphImage::new(0, 0, u32::MAX, u32::MAX, true, vec![]).is_none());
    let image = GlyphImage::new(0, 0, 1, 2, true, vec![1, 2, 3, 4, 5, 6, 7, 8]).expect("complete");
    assert_eq!((image.width(), image.height()), (1, 2));
    assert_eq!(image.data(), &[1, 2, 3, 4, 5, 6, 7, 8]);
}

#[test]
fn stored_glyphs_are_found() {
    let mut glyphs = GlyphCache::new();
    let mut images = ImageCache::new(8);
    let mut session = glyphs.session(&mut images, 3, 64);
    let key = session.key(9, 0, 0);
    assert_eq!(session.store(key, None), None);
    assert_eq!(session.store(key, mask(0, 1)), None);
    assert_eq!(session.store(key, mask(9, 1)), None);
    assert_eq!(session.lookup(9, 0, 0), None);
    let entry = session.store(key, mask(2, 3)).expect("the page has room");
    assert_eq!(entry, GlyphEntry { left: -1, top: 9, width: 2, height: 3, is_bitmap: false, image_id: 0 });
    assert_eq!(session.lookup(9, 0, 0), Some(entry));
    assert_eq!(glyphs.find(&key), Some(entry));
    let other = GlyphKey { size: 33, ..key };
    assert_eq!(glyphs.find(&other), None);
    glyphs.insert(other, GlyphEntry { image_id: 5, ..entry });
    assert_eq!(glyphs.find(&other).map(|entry| entry.image_id), Some(5));
    assert_eq!(glyphs.find(&key), Some(entry));
    for changed in [
        GlyphKey { font_key: 4, ..key },
        GlyphKey { font_key: 3 + (1 << 40), ..key },
        GlyphKey { id: 10, ..key },
        GlyphKey { offset_x: SubpixelOffset::Half, ..key },
        GlyphKey { offset_y: SubpixelOffset::Half, ..key },
    ] {
        assert_eq!(glyphs.find(&changed), None);
    }
}
