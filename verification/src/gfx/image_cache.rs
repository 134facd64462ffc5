//! Images, such as rasterized glyphs, packed into texture pages.

use super::atlas::{disjoint, Atlas, AtlasView};
use vstd::prelude::*;

verus! {

/// Bytes to the pixel of every page.
pub const BYTES_PER_PIXEL: u32 = 4;

/// Where an image lies: the page and the pixel rectangle from `min` up to,
/// and without, `max`. `extent` is the width and height of the page, so that
/// a coordinate divided by it is the normalized texture coordinate.
#[derive(Debug, Clone, Copy, PartialEq, Eq)]
pub struct TextureLocation {
    pub atlas_index: usize,
    pub min: (u32, u32),
    pub max: (u32, u32),
    pub extent: u32,
}

impl TextureLocation {
    /// The pixels of the image as `(x, y, width, height)`.
    pub open spec fn rect(self) -> (int, int, int, int) {
        (
            self.min.0 as int,
            self.min.1 as int,
            self.max.0 - self.min.0,
            self.max.1 - self.min.1,
        )
    }
}

/// The location of an image of `width` by `height` pixels that was put at
/// pixel `at` of page `page`, the pages being `extent` pixels wide and high.
pub open spec fn location_of(page: int, at: (int, int), width: int, height: int, extent: u32) -> TextureLocation {
    TextureLocation {
        atlas_index: page as usize,
        min: (at.0 as u32, at.1 as u32),
        max: ((at.0 + width) as u32, (at.1 + height) as u32),
        extent,
    }
}

/// The first of the pages `pages[from..]` that has room for a bitmap of
/// `width` by `height` pixels, and the number of pages where none has.
pub open spec fn first_fit(pages: Seq<AtlasView>, width: int, height: int, from: int) -> int
    decreases pages.len() - from,
{
    if from < 0 || from >= pages.len() {
        pages.len() as int
    } else if pages[from].choice(width, height) is Some {
        from
    } else {
        first_fit(pages, width, height, from + 1)
    }
}

/// What an [`ImageCache`] holds, as mathematical values.
pub struct ImageCacheView {
    pub pages: Seq<AtlasView>,
    /// The location of each image, by its id.
    pub entries: Seq<TextureLocation>,
    pub max_texture_size: u32,
}

impl ImageCacheView {
    /// A new page of this cache: empty, all bytes zero, and counted as
    /// changed.
    pub open spec fn fresh_page(self) -> AtlasView {
        AtlasView {
            size: self.max_texture_size as int,
            block_size: BYTES_PER_PIXEL as int,
            rects: Seq::empty(),
            pixels: Seq::new(
                (self.max_texture_size * self.max_texture_size * BYTES_PER_PIXEL) as nat,
                |k: int| 0u8,
            ),
            dirty: true,
        }
    }

    /// The pages that a bitmap is offered to: those of the cache, and behind
    /// them a new page where none of them has room.
    pub open spec fn offered(self, width: int, height: int) -> Seq<AtlasView> {
        if first_fit(self.pages, width, height, 0) < self.pages.len() {
            self.pages
        } else {
            self.pages.push(self.fresh_page())
        }
    }

    /// The page that takes a bitmap of `width` by `height` pixels: the first
    /// that has room, or else a new page behind them.
    pub open spec fn target(self, width: int, height: int) -> int {
        first_fit(self.pages, width, height, 0)
    }

    /// The id that a bitmap of `width` by `height` pixels gets: the number of
    /// images before it, and `None` where not even a new page has room.
    pub open spec fn allocation(self, width: int, height: int) -> Option<int> {
        if self.offered(width, height)[self.target(width, height)].choice(width, height) is Some {
            Some(self.entries.len() as int)
        } else {
            None
        }
    }

    /// The cache after a bitmap was offered to it. The page of
    /// [`ImageCacheView::target`] holds the bitmap if it has room, and the
    /// bitmap's location is the last entry. A new page stays even where the
    /// bitmap did not fit in it.
    pub open spec fn allocated(self, width: int, height: int, data: Seq<u8>) -> ImageCacheView {
        let page = self.target(width, height);
        let offered = self.offered(width, height);
        ImageCacheView {
            pages: offered.update(page, offered[page].with_bitmap(width, height, data)),
            entries: match offered[page].choice(width, height) {
                Some(at) => self.entries.push(
                    location_of(page, at, width, height, self.max_texture_size),
                ),
                None => self.entries,
            },
            max_texture_size: self.max_texture_size,
        }
    }

    /// Whether the cache is sound: its pages are sound and of one size, each
    /// image lies in a rectangle of its page, and no two images of one page
    /// share a pixel.
    pub open spec fn wf(self) -> bool {
        &&& self.max_texture_size * self.max_texture_size * BYTES_PER_PIXEL <= u32::MAX
        &&& forall|k: int|
            0 <= k < self.pages.len() ==> {
                &&& (#[trigger] self.pages[k]).wf()
                &&& self.pages[k].size == self.max_texture_size
                &&& self.pages[k].block_size == BYTES_PER_PIXEL
            }
        &&& forall|i: int|
            0 <= i < self.entries.len() ==> {
                let entry = #[trigger] self.entries[i];
                &&& entry.atlas_index < self.pages.len()
                &&& entry.extent == self.max_texture_size
                &&& entry.min.0 < entry.max.0 <= entry.extent
                &&& entry.min.1 < entry.max.1 <= entry.extent
                &&& self.pages[entry.atlas_index as int].rects.contains(entry.rect())
            }
        &&& forall|i: int, j: int|
            0 <= i < j < self.entries.len() && (#[trigger] self.entries[i]).atlas_index == (
            #[trigger] self.entries[j]).atlas_index ==> disjoint(
                self.entries[i].rect(),
                self.entries[j].rect(),
            )
    }
}

/// No two images of one page overlap: in a sound cache, two images that lie
/// in the same page share no pixel.
pub proof fn lemma_images_apart(cache: ImageCacheView, a: int, b: int)
    requires
        cache.wf(),
        0 <= a < cache.entries.len(),
        0 <= b < cache.entries.len(),
        a != b,
        cache.entries[a].atlas_index == cache.entries[b].atlas_index,
    ensures
        disjoint(cache.entries[a].rect(), cache.entries[b].rect()),
{
    if a < b {
        assert(disjoint(cache.entries[a].rect(), cache.entries[b].rect()));
    } else {
        assert(disjoint(cache.entries[b].rect(), cache.entries[a].rect()));
    }
}

/// The page that [`first_fit`] finds has room, and no page before it has.
pub proof fn lemma_first_fit(pages: Seq<AtlasView>, width: int, height: int, from: int)
    requires
        0 <= from <= pages.len(),
    ensures
        from <= first_fit(pages, width, height, from) <= pages.len(),
        first_fit(pages, width, height, from) < pages.len() ==> pages[first_fit(
            pages,
            width,
            height,
            from,
        )].choice(width, height) is Some,
        forall|k: int|
            from <= k < first_fit(pages, width, height, from) ==> (#[trigger] pages[k]).choice(
                width,
                height,
            ) is None,
    decreases pages.len() - from,
{
    if from < pages.len() && pages[from].choice(width, height) is None {
        lemma_first_fit(pages, width, height, from + 1);
    }
}

/// Texture pages that fill up one after the other, and the images in them.
pub struct ImageCache {
    atlases: Vec<Atlas>,
    entries: Vec<TextureLocation>,
    max_texture_size: u32,
}

impl View for ImageCache {
    type V = ImageCacheView;

    closed spec fn view(&self) -> ImageCacheView {
        ImageCacheView {
            pages: self.atlases@.map_values(|a: Atlas| a@),
            entries: self.entries@,
            max_texture_size: self.max_texture_size,
        }
    }
}

impl ImageCache {
    /// Whether the cache and each of its pages is sound.
    pub closed spec fn wf(&self) -> bool {
        &&& self@.wf()
        &&& forall|k: int| 0 <= k < self.atlases@.len() ==> (#[trigger] self.atlases@[k]).wf()
    }

    /// A sound cache has a sound view.
    pub proof fn lemma_wf_view(&self)
        requires
            self.wf(),
        ensures
            self@.wf(),
    {
    }

    /// A cache without pages, whose pages will be `max_texture_size` pixels
    /// wide and high.
    pub fn new(max_texture_size: u32) -> (cache: ImageCache)
        requires
            max_texture_size * max_texture_size * BYTES_PER_PIXEL <= u32::MAX,
        ensures
            cache.wf(),
            cache@ == (ImageCacheView {
                pages: Seq::empty(),
                entries: Seq::empty(),
                max_texture_size,
            }),
    {
        let cache = ImageCache { atlases: Vec::new(), entries: Vec::new(), max_texture_size };
        assert(cache@.pages =~= Seq::empty());
        cache
    }

    /// The number of pages.
    pub fn page_count(&self) -> (count: usize)
        ensures
            count == self@.pages.len(),
    {
        self.atlases.len()
    }

    /// Page `index`, or `None` where the cache has fewer pages.
    pub fn atlas(&self, index: usize) -> (page: Option<&Atlas>)
        ensures
            match page {
                Some(atlas) => index < self@.pages.len() && atlas@ == self@.pages[index as int] && (
                self.wf() ==> atlas.wf()),
                None => index >= self@.pages.len(),
            },
    {
        if index < self.atlases.len() {
            Some(&self.atlases[index])
        } else {
            None
        }
    }

    /// Tells whether page `index` is due for upload, and if so counts it as
    /// uploaded, as [`Atlas::update_texture`] does. No page of that index is
    /// never due.
    pub fn update_texture(&mut self, index: usize) -> (due: bool)
        requires
            old(self).wf(),
        ensures
            final(self).wf(),
            due == (index < old(self)@.pages.len() && old(self)@.pages[index as int].dirty && old(
                self,
            )@.pages[index as int].rects.len() > 0),
            final(self)@ == (if due {
                ImageCacheView {
                    pages: old(self)@.pages.update(
                        index as int,
                        AtlasView { dirty: false, ..old(self)@.pages[index as int] },
                    ),
                    ..old(self)@
                }
            } else {
                old(self)@
            }),
    {
        if index >= self.atlases.len() {
            return false;
        }
        let due = self.atlases[index].update_texture();
        proof {
            assert(self@.pages =~= old(self)@.pages.update(
                index as int,
                AtlasView { dirty: old(self)@.pages[index as int].dirty && !due, ..old(self)@.pages[index as int] },
            ));
            if !due {
                assert(self@.pages =~= old(self)@.pages);
            }
            assert forall|k: int| 0 <= k < self@.pages.len() implies (#[trigger] self@.pages[k]).wf() by {
                assert(old(self)@.pages[k].wf());
            }
            assert forall|i: int| 0 <= i < self@.entries.len() implies self@.pages[(
            #[trigger] self@.entries[i]).atlas_index as int].rects.contains(self@.entries[i].rect()) by {
                assert(old(self)@.pages[old(self)@.entries[i].atlas_index as int].rects.contains(
                    old(self)@.entries[i].rect(),
                ));
            }
        }
        due
    }

    /// Where image `image_id` lies, or `None` where no image has that id.
    pub fn get_image_location(&self, image_id: usize) -> (location: Option<TextureLocation>)
        ensures
            location == (if image_id < self@.entries.len() {
                Some(self@.entries[image_id as int])
            } else {
                None
            }),
    {
        if image_id < self.entries.len() {
            Some(self.entries[image_id])
        } else {
            None
        }
    }

    /// Puts a bitmap of `width` by `height` pixels, four bytes to the pixel,
    /// into the first page that has room for it, or else into a new page,
    /// and returns the image's id. Ids count up from zero. Where not even a
    /// new page has room the result is `None`; the new page stays.
    pub fn allocate(&mut self, width: u32, height: u32, data: &[u8]) -> (image_id: Option<usize>)
        requires
            old(self).wf(),
            data@.len() == width * height * BYTES_PER_PIXEL,
        ensures
            final(self).wf(),
            final(self)@ == old(self)@.allocated(width as int, height as int, data@),
            match image_id {
                Some(id) => old(self)@.allocation(width as int, height as int) == Some(id as int),
                None => old(self)@.allocation(width as int, height as int) is None,
            },
    {
        let ghost before = self@;
        let ghost w = width as int;
        let ghost h = height as int;
        let mut found: Option<(usize, u32, u32)> = None;
        let mut index: usize = 0;
        while index < self.atlases.len() && found.is_none()
            invariant
                index <= self.atlases@.len(),
                self.entries == old(self).entries,
                self.max_texture_size == old(self).max_texture_size,
                before == old(self)@,
                before.wf(),
                data@.len() == width * height * BYTES_PER_PIXEL,
                w == width,
                h == height,
                self.atlases@.len() == before.pages.len(),
                forall|k: int| 0 <= k < self.atlases@.len() ==> (#[trigger] self.atlases@[k]).wf(),
                match found {
                    None => {
                        &&& self@.pages == before.pages
                        &&& first_fit(before.pages, w, h, 0) == first_fit(before.pages, w, h, index as int)
                    },
                    Some((page, x, y)) => {
                        &&& page < before.pages.len()
                        &&& first_fit(before.pages, w, h, 0) == page
                        &&& before.pages[page as int].choice(w, h) == Some((x as int, y as int))
                        &&& self@.pages == before.pages.update(
                            page as int,
                            before.pages[page as int].with_bitmap(w, h, data@),
                        )
                    },
                },
            decreases self.atlases@.len() - index + if found is None { 1int } else { 0int },
        {
            let ghost pages = self@.pages;
            assert(pages[index as int] == self.atlases@[index as int]@);
            assert(before.pages[index as int].block_size == BYTES_PER_PIXEL);
            match self.atlases[index].allocate(width, height, data) {
                Some((x, y)) => {
                    found = Some((index, x, y));
                    assert(self@.pages =~= before.pages.update(
                        index as int,
                        before.pages[index as int].with_bitmap(w, h, data@),
                    ));
                },
                None => {
                    assert(self@.pages =~= before.pages);
                    index += 1;
                },
            }
        }
        let entry = match found {
            Some(entry) => entry,
            None => {
                let atlas_index = self.atlases.len();
                let mut atlas = Atlas::new(self.max_texture_size, BYTES_PER_PIXEL);
                let ghost fresh = atlas@;
                assert(fresh == before.fresh_page());
                let at = atlas.allocate(width, height, data);
                proof {
                    atlas.lemma_wf_view();
                }
                self.atlases.push(atlas);
                proof {
                    assert(first_fit(before.pages, w, h, 0) == before.pages.len());
                    let offered = before.pages.push(fresh);
                    assert(self@.pages =~= offered.update(
                        atlas_index as int,
                        offered[atlas_index as int].with_bitmap(w, h, data@),
                    ));
                }
                match at {
                    Some((x, y)) => (atlas_index, x, y),
                    None => {
                        proof {
                            lemma_entries_stay(before, self@);
                        }
                        return None;
                    },
                }
            },
        };
        let (atlas_index, x, y) = entry;
        let id = self.entries.len();
        proof {
            lemma_first_fit(before.pages, w, h, 0);
            let page = self@.pages[atlas_index as int];
            assert(self.atlases@[atlas_index as int].wf());
            self.atlases@[atlas_index as int].lemma_wf_view();
            assert(page == self.atlases@[atlas_index as int]@);
            assert(page.rects.last() == (x as int, y as int, w, h));
            assert(super::atlas::within(page.rects[page.rects.len() - 1], (page.size, page.size)));
        }
        let location = TextureLocation {
            atlas_index,
            min: (x, y),
            max: (x + width, y + height),
            extent: self.max_texture_size,
        };
        self.entries.push(location);
        proof {
            assert(location == location_of(
                atlas_index as int,
                (x as int, y as int),
                w,
                h,
                self.max_texture_size,
            ));
            lemma_entry_added(before, self@, location);
        }
        Some(id)
    }
}

/// Whether the rectangles `after` begin with the rectangles `before`.
pub open spec fn begins_with(
    after: Seq<(int, int, int, int)>,
    before: Seq<(int, int, int, int)>,
) -> bool {
    &&& before.len() <= after.len()
    &&& forall|n: int| 0 <= n < before.len() ==> after[n] == #[trigger] before[n]
}

/// A cache stays sound where its pages only gain rectangles, in sound pages,
/// and its images stay.
proof fn lemma_entries_stay(before: ImageCacheView, after: ImageCacheView)
    requires
        before.wf(),
        after.entries == before.entries,
        after.max_texture_size == before.max_texture_size,
        before.pages.len() <= after.pages.len(),
        forall|k: int|
            0 <= k < after.pages.len() ==> {
                &&& (#[trigger] after.pages[k]).wf()
                &&& after.pages[k].size == after.max_texture_size
                &&& after.pages[k].block_size == BYTES_PER_PIXEL
            },
        forall|k: int|
            0 <= k < before.pages.len() ==> begins_with(
                (#[trigger] after.pages[k]).rects,
                before.pages[k].rects,
            ),
    ensures
        after.wf(),
{
    assert forall|i: int| 0 <= i < after.entries.len() implies after.pages[(
    #[trigger] after.entries[i]).atlas_index as int].rects.contains(after.entries[i].rect()) by {
        let entry = before.entries[i];
        let page = entry.atlas_index as int;
        assert(before.pages[page].rects.contains(entry.rect()));
        let n = choose|n: int|
            0 <= n < before.pages[page].rects.len() && before.pages[page].rects[n] == entry.rect();
        assert(begins_with(after.pages[page].rects, before.pages[page].rects));
        assert(after.pages[page].rects[n] == before.pages[page].rects[n]);
    }
}

/// A cache stays sound where an image is added whose rectangle is the one
/// that its page gained last.
proof fn lemma_entry_added(before: ImageCacheView, after: ImageCacheView, location: TextureLocation)
    requires
        before.wf(),
        after.entries == before.entries.push(location),
        after.max_texture_size == before.max_texture_size,
        before.pages.len() <= after.pages.len(),
        forall|k: int|
            0 <= k < after.pages.len() ==> {
                &&& (#[trigger] after.pages[k]).wf()
                &&& after.pages[k].size == after.max_texture_size
                &&& after.pages[k].block_size == BYTES_PER_PIXEL
            },
        forall|k: int|
            0 <= k < before.pages.len() ==> begins_with(
                (#[trigger] after.pages[k]).rects,
                before.pages[k].rects,
            ),
        location.atlas_index < after.pages.len(),
        location.extent == after.max_texture_size,
        location.min.0 < location.max.0 <= location.extent,
        location.min.1 < location.max.1 <= location.extent,
        after.pages[location.atlas_index as int].rects.len() > 0,
        after.pages[location.atlas_index as int].rects.last() == location.rect(),
        location.atlas_index < before.pages.len() ==> after.pages[location.atlas_index as int].rects.len()
            == before.pages[location.atlas_index as int].rects.len() + 1,
    ensures
        after.wf(),
{
    let page = location.atlas_index as int;
    let rects = after.pages[page].rects;
    assert(rects.contains(location.rect())) by {
        assert(rects[rects.len() - 1] == location.rect());
    }
    assert forall|i: int| 0 <= i < after.entries.len() implies after.pages[(
    #[trigger] after.entries[i]).atlas_index as int].rects.contains(after.entries[i].rect()) by {
        if i < before.entries.len() {
            let entry = before.entries[i];
            let p = entry.atlas_index as int;
            assert(before.pages[p].rects.contains(entry.rect()));
            let n = choose|n: int|
                0 <= n < before.pages[p].rects.len() && before.pages[p].rects[n] == entry.rect();
            assert(begins_with(after.pages[p].rects, before.pages[p].rects));
            assert(after.pages[p].rects[n] == before.pages[p].rects[n]);
        }
    }
    assert forall|i: int, j: int|
        0 <= i < j < after.entries.len() && (#[trigger] after.entries[i]).atlas_index == (
        #[trigger] after.entries[j]).atlas_index implies disjoint(
        after.entries[i].rect(),
        after.entries[j].rect(),
    ) by {
        if j == before.entries.len() {
            let entry = before.entries[i];
            assert(before.pages[page].rects.contains(entry.rect()));
            let n = choose|n: int|
                0 <= n < before.pages[page].rects.len() && before.pages[page].rects[n]
                    == entry.rect();
            assert(begins_with(rects, before.pages[page].rects));
            assert(rects[n] == before.pages[page].rects[n]);
            assert(disjoint(rects[n], rects[rects.len() - 1]));
        } else {
            assert(disjoint(before.entries[i].rect(), before.entries[j].rect()));
        }
    }
}

} // verus!
