//! Rasterized glyphs, kept by font, glyph, sub-pixel position and size.

use super::image_cache::{ImageCache, ImageCacheView, TextureLocation, BYTES_PER_PIXEL};
use std::collections::HashMap;
use vstd::prelude::*;

verus! {

/// The part of a pixel by which a glyph is shifted, in quarters of a pixel.
#[derive(Hash, Clone, Copy, Debug, Eq, Ord, PartialEq, PartialOrd, Structural)]
pub enum SubpixelOffset {
    Zero,
    Quarter,
    Half,
    ThreeQuarters,
}

impl SubpixelOffset {
    /// The quarter that stands for the position `pos`, in sub-pixel units.
    /// Of `pos` only the part above the pixel below it counts. In eighths of
    /// a pixel, rounded down, that part is 0 to 7: 1 and 2 give a quarter, 3
    /// and 4 a half, 5 and 6 three quarters, 0 and 7 none.
    pub open spec fn spec_quantize(pos: int) -> SubpixelOffset {
        let eighth = (pos % 64) / 8;
        if 1 <= eighth <= 2 {
            SubpixelOffset::Quarter
        } else if 3 <= eighth <= 4 {
            SubpixelOffset::Half
        } else if 5 <= eighth <= 6 {
            SubpixelOffset::ThreeQuarters
        } else {
            SubpixelOffset::Zero
        }
    }

    /// The number of quarters, 0 to 3.
    pub open spec fn spec_quarters(self) -> int {
        match self {
            SubpixelOffset::Zero => 0,
            SubpixelOffset::Quarter => 1,
            SubpixelOffset::Half => 2,
            SubpixelOffset::ThreeQuarters => 3,
        }
    }

    /// The quarter that stands for the position `pos`, in sub-pixel units.
    pub fn quantize(pos: i32) -> (offset: SubpixelOffset)
        ensures
            offset == Self::spec_quantize(pos as int),
    {
        let rest: i32 = pos % 64;
        let part: i32 = if rest < 0 {
            rest + 64
        } else {
            rest
        };
        let eighth: i32 = part / 8;
        if 1 <= eighth && eighth <= 2 {
            SubpixelOffset::Quarter
        } else if 3 <= eighth && eighth <= 4 {
            SubpixelOffset::Half
        } else if 5 <= eighth && eighth <= 6 {
            SubpixelOffset::ThreeQuarters
        } else {
            SubpixelOffset::Zero
        }
    }

    /// The number of quarters, 0 to 3.
    pub fn quarters(self) -> (quarters: u8)
        ensures
            quarters == self.spec_quarters(),
    {
        match self {
            SubpixelOffset::Zero => 0,
            SubpixelOffset::Quarter => 1,
            SubpixelOffset::Half => 2,
            SubpixelOffset::ThreeQuarters => 3,
        }
    }

    /// The shift in sub-pixel units: 0, 16, 32 or 48.
    pub fn units(self) -> (units: i32)
        ensures
            units == 16 * self.spec_quarters(),
    {
        match self {
            SubpixelOffset::Zero => 0,
            SubpixelOffset::Quarter => 16,
            SubpixelOffset::Half => 32,
            SubpixelOffset::ThreeQuarters => 48,
        }
    }
}

/// What a rasterized glyph is kept by. Two requests with equal keys are
/// served by one raster.
#[derive(Clone, Copy, Debug, PartialEq, Eq, Structural)]
pub struct GlyphKey {
    pub font_key: u64,
    pub id: u16,
    pub offset_x: SubpixelOffset,
    pub offset_y: SubpixelOffset,
    /// The font size in 32nds of a pixel.
    pub size: u16,
}

impl GlyphKey {
    /// The key as one number, its fields side by side.
    pub open spec fn spec_packed(self) -> int {
        (((self.font_key * 0x1_0000 + self.id) * 4 + self.offset_x.spec_quarters()) * 4
            + self.offset_y.spec_quarters()) * 0x1_0000 + self.size
    }

    /// Different keys are different numbers.
    pub proof fn lemma_packed_apart(self, other: GlyphKey)
        ensures
            0 <= self.spec_packed() <= u128::MAX,
            self.spec_packed() == other.spec_packed() ==> self == other,
    {
    }

    fn packed(&self) -> (packed: u128)
        ensures
            packed == self.spec_packed(),
    {
        let font = self.font_key as u128;
        let id = self.id as u128;
        let x = self.offset_x.quarters() as u128;
        let y = self.offset_y.quarters() as u128;
        (((font * 0x1_0000 + id) * 4 + x) * 4 + y) * 0x1_0000 + self.size as u128
    }
}

/// A rasterized glyph: where its bitmap goes relative to the pen, the
/// bitmap's size in pixels, whether the bitmap has colors of its own or is a
/// coverage mask, and the image that holds it.
#[derive(Debug, Clone, Copy, PartialEq, Eq, Structural)]
pub struct GlyphEntry {
    pub left: i32,
    pub top: i32,
    pub width: u32,
    pub height: u32,
    pub is_bitmap: bool,
    pub image_id: usize,
}

/// What a rasterizer made of a glyph: the bitmap with four bytes to the
/// pixel, and where it goes relative to the pen.
pub struct GlyphImage {
    left: i32,
    top: i32,
    width: u32,
    height: u32,
    is_color: bool,
    data: Vec<u8>,
}

/// What a [`GlyphImage`] holds, as mathematical values.
pub struct GlyphImageView {
    pub left: i32,
    pub top: i32,
    pub width: u32,
    pub height: u32,
    pub is_color: bool,
    pub data: Seq<u8>,
}

impl View for GlyphImage {
    type V = GlyphImageView;

    closed spec fn view(&self) -> GlyphImageView {
        GlyphImageView {
            left: self.left,
            top: self.top,
            width: self.width,
            height: self.height,
            is_color: self.is_color,
            data: self.data@,
        }
    }
}

impl GlyphImage {
    #[verifier::type_invariant]
    spec fn complete(self) -> bool {
        self.data@.len() == self.width * self.height * BYTES_PER_PIXEL
    }

    /// An image of `width` by `height` pixels, or `None` where `data` does
    /// not hold four bytes for each pixel.
    pub fn new(left: i32, top: i32, width: u32, height: u32, is_color: bool, data: Vec<u8>) -> (image:
        Option<GlyphImage>)
        ensures
            match image {
                Some(image) => image@ == (GlyphImageView {
                    left,
                    top,
                    width,
                    height,
                    is_color,
                    data: data@,
                }),
                None => data@.len() != width * height * BYTES_PER_PIXEL,
            },
    {
        proof {
            assert(width * height <= 0xffff_ffff * 0xffff_ffff) by (nonlinear_arith)
                requires
                    0 <= width <= 0xffff_ffff,
                    0 <= height <= 0xffff_ffff,
            ;
        }
        let bytes: u128 = width as u128 * height as u128 * BYTES_PER_PIXEL as u128;
        if data.len() as u128 == bytes {
            Some(GlyphImage { left, top, width, height, is_color, data })
        } else {
            None
        }
    }

    /// Width of the bitmap in pixels.
    pub fn width(&self) -> (width: u32)
        ensures
            width == self@.width,
    {
        self.width
    }

    /// Height of the bitmap in pixels.
    pub fn height(&self) -> (height: u32)
        ensures
            height == self@.height,
    {
        self.height
    }

    /// The bytes of the bitmap, four for each pixel, row by row.
    pub fn data(&self) -> (data: &[u8])
        ensures
            data@ == self@.data,
            data@.len() == self@.width * self@.height * BYTES_PER_PIXEL,
    {
        proof {
            use_type_invariant(self);
        }
        self.data.as_slice()
    }
}

/// The rasterized glyphs of all fonts.
pub struct GlyphCache {
    glyphs: HashMap<u128, GlyphEntry>,
}

impl View for GlyphCache {
    type V = Map<GlyphKey, GlyphEntry>;

    closed spec fn view(&self) -> Map<GlyphKey, GlyphEntry> {
        Map::new(
            |key: GlyphKey| self.glyphs@.contains_key(key.spec_packed() as u128),
            |key: GlyphKey| self.glyphs@[key.spec_packed() as u128],
        )
    }
}

impl GlyphCache {
    /// A cache without glyphs.
    pub fn new() -> (cache: GlyphCache)
        ensures
            cache@ == Map::<GlyphKey, GlyphEntry>::empty(),
    {
        let cache = GlyphCache { glyphs: HashMap::new() };
        assert(cache@ =~= Map::empty());
        cache
    }

    /// The glyph kept under `key`, if there is one.
    pub fn find(&self, key: &GlyphKey) -> (entry: Option<GlyphEntry>)
        ensures
            entry == (if self@.contains_key(*key) {
                Some(self@[*key])
            } else {
                None
            }),
    {
        let packed = key.packed();
        match self.glyphs.get(&packed) {
            Some(entry) => Some(*entry),
            None => None,
        }
    }

    /// Keeps `entry` under `key`, in place of what was kept under it.
    pub fn insert(&mut self, key: GlyphKey, entry: GlyphEntry)
        ensures
            final(self)@ == old(self)@.insert(key, entry),
    {
        let packed = key.packed();
        self.glyphs.insert(packed, entry);
        proof {
            assert forall|other: GlyphKey| other != key implies other.spec_packed() as u128
                != packed by {
                key.lemma_packed_apart(other);
                other.lemma_packed_apart(key);
            }
            key.lemma_packed_apart(key);
            assert(self@ =~= old(self)@.insert(key, entry));
        }
    }

    /// Begins a session: requests for glyphs of one font at one size, with
    /// both caches held for as long as the session lives. `size` is the font
    /// size in sub-pixel units; glyphs are kept by the size in 32nds of a
    /// pixel, rounded down and at most `u16::MAX`.
    pub fn session<'a>(
        &'a mut self,
        image_cache: &'a mut ImageCache,
        font_key: u64,
        size: u32,
    ) -> (session: GlyphCacheSession<'a>)
        ensures
            session@ == (SessionView {
                glyphs: old(self)@,
                images: old(image_cache)@,
                font_key,
                quant_size: if size / 2 > u16::MAX {
                    u16::MAX
                } else {
                    (size / 2) as u16
                },
            }),
            old(image_cache).wf() ==> session.wf(),
            *final(self) == *final(session.cache),
            *final(image_cache) == *final(session.image_cache),
    {
        let half = size / 2;
        let quant_size: u16 = if half > u16::MAX as u32 {
            u16::MAX
        } else {
            half as u16
        };
        GlyphCacheSession { image_cache, cache: self, quant_size, font_key }
    }
}

/// Requests for glyphs of one font at one size.
pub struct GlyphCacheSession<'a> {
    pub image_cache: &'a mut ImageCache,
    pub cache: &'a mut GlyphCache,
    /// The font size in 32nds of a pixel.
    pub quant_size: u16,
    pub font_key: u64,
}

/// What a [`GlyphCacheSession`] holds, as mathematical values.
pub struct SessionView {
    pub glyphs: Map<GlyphKey, GlyphEntry>,
    pub images: ImageCacheView,
    pub font_key: u64,
    pub quant_size: u16,
}

impl SessionView {
    /// The key of glyph `id` at the pen position `(x, y)`, in sub-pixel
    /// units.
    pub open spec fn key(self, id: u16, x: int, y: int) -> GlyphKey {
        GlyphKey {
            font_key: self.font_key,
            id,
            offset_x: SubpixelOffset::spec_quantize(x),
            offset_y: SubpixelOffset::spec_quantize(y),
            size: self.quant_size,
        }
    }

    /// Whether `image` has anything to draw.
    pub open spec fn visible(image: Option<GlyphImageView>) -> bool {
        image matches Some(image) && image.width != 0 && image.height != 0
    }

    /// The glyph that comes of storing what the rasterizer made for `key`:
    /// none where it made nothing, or a bitmap without pixels, or where the
    /// image cache has no room for the bitmap.
    pub open spec fn stored_entry(self, image: Option<GlyphImageView>) -> Option<GlyphEntry> {
        if Self::visible(image) {
            let image = image->0;
            match self.images.allocation(image.width as int, image.height as int) {
                Some(id) => Some(
                    GlyphEntry {
                        left: image.left,
                        top: image.top,
                        width: image.width,
                        height: image.height,
                        is_bitmap: image.is_color,
                        image_id: id as usize,
                    },
                ),
                None => None,
            }
        } else {
            None
        }
    }

    /// The session after what the rasterizer made for `key` was stored. A
    /// bitmap with pixels is offered to the image cache, and the glyph is
    /// kept under `key` if the bitmap found room.
    pub open spec fn stored(self, key: GlyphKey, image: Option<GlyphImageView>) -> SessionView {
        if Self::visible(image) {
            let image = image->0;
            SessionView {
                glyphs: match self.stored_entry(Some(image)) {
                    Some(entry) => self.glyphs.insert(key, entry),
                    None => self.glyphs,
                },
                images: self.images.allocated(image.width as int, image.height as int, image.data),
                ..self
            }
        } else {
            self
        }
    }

    /// The glyph that a request for `key` returns, the rasterizer making
    /// `image` if it is asked: the glyph kept under `key`, or else what comes
    /// of storing `image`.
    pub open spec fn fetched_entry(self, key: GlyphKey, image: Option<GlyphImageView>) -> Option<
        GlyphEntry,
    > {
        if self.glyphs.contains_key(key) {
            Some(self.glyphs[key])
        } else {
            self.stored_entry(image)
        }
    }

    /// The session after a request for `key`, the rasterizer making `image`
    /// if it is asked.
    pub open spec fn fetched(self, key: GlyphKey, image: Option<GlyphImageView>) -> SessionView {
        if self.glyphs.contains_key(key) {
            self
        } else {
            self.stored(key, image)
        }
    }
}

/// A request that returned a glyph is answered from the cache ever after:
/// the same request again returns the same glyph, whatever the rasterizer
/// would make, and changes nothing.
pub proof fn lemma_fetch_again(
    session: SessionView,
    key: GlyphKey,
    first: Option<GlyphImageView>,
    second: Option<GlyphImageView>,
)
    requires
        session.fetched_entry(key, first) is Some,
    ensures
        session.fetched(key, first).fetched_entry(key, second) == session.fetched_entry(key, first),
        session.fetched(key, first).fetched(key, second) == session.fetched(key, first),
{
}

/// The rasterizer's image as the mathematical value that the contracts
/// speak of.
pub open spec fn image_view(image: Option<GlyphImage>) -> Option<GlyphImageView> {
    match image {
        Some(image) => Some(image@),
        None => None,
    }
}

impl<'a> View for GlyphCacheSession<'a> {
    type V = SessionView;

    open spec fn view(&self) -> SessionView {
        SessionView {
            glyphs: (*self.cache)@,
            images: (*self.image_cache)@,
            font_key: self.font_key,
            quant_size: self.quant_size,
        }
    }
}

impl<'a> GlyphCacheSession<'a> {
    /// Whether the session's image cache is sound.
    pub open spec fn wf(&self) -> bool {
        self.image_cache.wf()
    }

    /// Where image `image_id` lies, or `None` where no image has that id.
    pub fn get_texture_location(&self, image_id: usize) -> (location: Option<TextureLocation>)
        ensures
            location == (if image_id < self@.images.entries.len() {
                Some(self@.images.entries[image_id as int])
            } else {
                None
            }),
    {
        self.image_cache.get_image_location(image_id)
    }

    /// The key of glyph `id` at the pen position `(x, y)`, in sub-pixel
    /// units.
    pub fn key(&self, id: u16, x: i32, y: i32) -> (key: GlyphKey)
        ensures
            key == self@.key(id, x as int, y as int),
    {
        GlyphKey {
            font_key: self.font_key,
            id,
            offset_x: SubpixelOffset::quantize(x),
            offset_y: SubpixelOffset::quantize(y),
            size: self.quant_size,
        }
    }

    /// The glyph kept for glyph `id` at the pen position `(x, y)`, if there
    /// is one. Nothing is rasterized.
    pub fn lookup(&self, id: u16, x: i32, y: i32) -> (entry: Option<GlyphEntry>)
        ensures
            entry == (if self@.glyphs.contains_key(self@.key(id, x as int, y as int)) {
                Some(self@.glyphs[self@.key(id, x as int, y as int)])
            } else {
                None
            }),
    {
        let key = self.key(id, x, y);
        self.cache.find(&key)
    }

    /// Stores what the rasterizer made for `key`, and returns the glyph. A
    /// bitmap with pixels goes to the image cache; the glyph is kept under
    /// `key` if the bitmap found room there, and is `None` otherwise.
    pub fn store(&mut self, key: GlyphKey, image: Option<GlyphImage>) -> (entry: Option<GlyphEntry>)
        requires
            old(self).wf(),
        ensures
            final(self).wf(),
            final(self)@ == old(self)@.stored(key, image_view(image)),
            entry == old(self)@.stored_entry(image_view(image)),
            *final(final(self).image_cache) == *final(old(self).image_cache),
            *final(final(self).cache) == *final(old(self).cache),
    {
        let image = match image {
            Some(image) => image,
            None => {
                return None;
            },
        };
        if image.width == 0 || image.height == 0 {
            return None;
        }
        proof {
            use_type_invariant(&image);
        }
        let image_id = match self.image_cache.allocate(
            image.width,
            image.height,
            image.data.as_slice(),
        ) {
            Some(image_id) => image_id,
            None => {
                return None;
            },
        };
        let entry = GlyphEntry {
            left: image.left,
            top: image.top,
            width: image.width,
            height: image.height,
            is_bitmap: image.is_color,
            image_id,
        };
        self.cache.insert(key, entry);
        Some(entry)
    }

    /// The rasterized glyph `id` at the pen position `(x, y)`, in sub-pixel
    /// units. A glyph that the cache holds is returned without any other
    /// work. Otherwise `rasterize` is called once, with the key, and what it
    /// made is stored as [`GlyphCacheSession::store`] does.
    pub fn get<F: FnOnce(GlyphKey) -> Option<GlyphImage>>(
        &mut self,
        id: u16,
        x: i32,
        y: i32,
        rasterize: F,
    ) -> (entry: Option<GlyphEntry>)
        requires
            old(self).wf(),
            call_requires(rasterize, (old(self)@.key(id, x as int, y as int),)),
        ensures
            final(self).wf(),
            old(self)@.glyphs.contains_key(old(self)@.key(id, x as int, y as int)) ==> {
                &&& entry == Some(old(self)@.glyphs[old(self)@.key(id, x as int, y as int)])
                &&& final(self)@ == old(self)@
            },
            !old(self)@.glyphs.contains_key(old(self)@.key(id, x as int, y as int)) ==> exists|
                image: Option<GlyphImage>,
            |
                {
                    &&& call_ensures(rasterize, (old(self)@.key(id, x as int, y as int),), image)
                    &&& entry == old(self)@.stored_entry(image_view(image))
                    &&& final(self)@ == old(self)@.stored(
                        old(self)@.key(id, x as int, y as int),
                        image_view(image),
                    )
                },
            *final(final(self).image_cache) == *final(old(self).image_cache),
            *final(final(self).cache) == *final(old(self).cache),
    {
        let key = self.key(id, x, y);
        match self.cache.find(&key) {
            Some(entry) => {
                return Some(entry);
            },
            None => {},
        }
        let image = rasterize(key);
        let ghost made = image;
        let entry = self.store(key, image);
        proof {
            assert(call_ensures(rasterize, (key,), made));
        }
        entry
    }
}


} // verus!
