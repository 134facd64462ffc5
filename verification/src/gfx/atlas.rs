//! One texture page: a square of pixels into which bitmaps are packed.

use guillotiere::SimpleAtlasAllocator;
use vstd::arithmetic::div_mod::{lemma_fundamental_div_mod, lemma_fundamental_div_mod_converse};
use vstd::prelude::*;
use vstd::slice::slice_subrange;

verus! {

#[verifier::external_type_specification]
#[verifier::external_body]
pub struct ExSimpleAtlasAllocator(SimpleAtlasAllocator);

/// The rectangles that an allocator has handed out, oldest first, each as
/// `(x, y, width, height)` in pixels.
pub uninterp spec fn placed(allocator: SimpleAtlasAllocator) -> Seq<(int, int, int, int)>;

/// The width and height that an allocator was made with.
pub uninterp spec fn extent(allocator: SimpleAtlasAllocator) -> (int, int);

/// Where the guillotine packing puts a rectangle of `width` by `height` in an
/// atlas of size `extent` that holds `placed`; `None` where it finds no room.
pub uninterp spec fn placement(
    extent: (int, int),
    placed: Seq<(int, int, int, int)>,
    width: int,
    height: int,
) -> Option<(int, int)>;

/// Whether two rectangles, each `(x, y, width, height)`, share no pixel.
pub open spec fn disjoint(a: (int, int, int, int), b: (int, int, int, int)) -> bool {
    a.0 + a.2 <= b.0 || b.0 + b.2 <= a.0 || a.1 + a.3 <= b.1 || b.1 + b.3 <= a.1
}

/// Whether the rectangle `rect` is not empty and lies within `extent`.
pub open spec fn within(rect: (int, int, int, int), extent: (int, int)) -> bool {
    &&& 0 < rect.2
    &&& 0 < rect.3
    &&& 0 <= rect.0
    &&& 0 <= rect.1
    &&& rect.0 + rect.2 <= extent.0
    &&& rect.1 + rect.3 <= extent.1
}

/// `SimpleAtlasAllocator::new` of guillotiere: an allocator of the given size
/// that has handed out nothing.
#[verifier::external_body]
fn allocator_new(width: i32, height: i32) -> (allocator: SimpleAtlasAllocator)
    requires
        0 <= width,
        0 <= height,
    ensures
        placed(allocator) == Seq::<(int, int, int, int)>::empty(),
        extent(allocator) == (width as int, height as int),
{
    SimpleAtlasAllocator::new(guillotiere::size2(width, height))
}

/// `SimpleAtlasAllocator::allocate` of guillotiere. It is trusted to depend on
/// nothing but the allocator's size and what it handed out before, to refuse
/// an empty size, and, where it finds room, to hand out a rectangle of the
/// size asked for that lies within the atlas and shares no pixel with an
/// earlier one. A refusal leaves the allocator as it was.
#[verifier::external_body]
fn allocator_allocate(allocator: &mut SimpleAtlasAllocator, width: i32, height: i32) -> (at: Option<
    (i32, i32),
>)
    ensures
        extent(*final(allocator)) == extent(*old(allocator)),
        match at {
            Some((x, y)) => {
                let rect = (x as int, y as int, width as int, height as int);
                &&& placement(
                    extent(*old(allocator)),
                    placed(*old(allocator)),
                    width as int,
                    height as int,
                ) == Some((x as int, y as int))
                &&& within(rect, extent(*old(allocator)))
                &&& forall|i: int|
                    0 <= i < placed(*old(allocator)).len() ==> disjoint(
                        #[trigger] placed(*old(allocator))[i],
                        rect,
                    )
                &&& placed(*final(allocator)) == placed(*old(allocator)).push(rect)
            },
            None => {
                &&& placement(
                    extent(*old(allocator)),
                    placed(*old(allocator)),
                    width as int,
                    height as int,
                ) is None
                &&& placed(*final(allocator)) == placed(*old(allocator))
            },
        },
{
    match allocator.allocate(guillotiere::size2(width, height)) {
        Some(rect) => Some((rect.min.x, rect.min.y)),
        None => None,
    }
}

/// `SimpleAtlasAllocator::is_empty` of guillotiere: whether nothing was
/// handed out yet.
#[verifier::external_body]
fn allocator_is_empty(allocator: &SimpleAtlasAllocator) -> (empty: bool)
    ensures
        empty == (placed(*allocator).len() == 0),
{
    allocator.is_empty()
}

/// `copy_from_slice` of std, on the part of `dest` that begins at `at`.
#[verifier::external_body]
fn copy_into(dest: &mut Vec<u8>, at: usize, src: &[u8])
    requires
        at + src@.len() <= old(dest)@.len(),
    ensures
        final(dest)@ == old(dest)@.subrange(0, at as int) + src@ + old(dest)@.subrange(
            at + src@.len(),
            old(dest)@.len() as int,
        ),
{
    dest[at..at + src.len()].copy_from_slice(src);
}

/// The bytes of a page after a bitmap was written into it. A page row has
/// `page_row` bytes and a bitmap row `bitmap_row`; the bitmap's first byte
/// goes to byte `left` of row `top`, and its `rows` rows go one below the
/// other.
pub open spec fn page_with_bitmap(
    page: Seq<u8>,
    page_row: int,
    left: int,
    top: int,
    bitmap: Seq<u8>,
    bitmap_row: int,
    rows: int,
) -> Seq<u8> {
    Seq::new(
        page.len(),
        |k: int|
            {
                let row = k / page_row - top;
                let column = k % page_row - left;
                if 0 <= row < rows && 0 <= column < bitmap_row {
                    bitmap[row * bitmap_row + column]
                } else {
                    page[k]
                }
            },
    )
}

/// A texture page on the CPU side: the packing of its rectangles, its pixel
/// bytes, and whether they changed since they were last uploaded.
pub struct Atlas {
    allocator: SimpleAtlasAllocator,
    size: u32,
    block_size: u32,
    buffer: Vec<u8>,
    dirty: bool,
}

/// What an [`Atlas`] holds, as mathematical values.
pub struct AtlasView {
    /// Width and height of the page in pixels.
    pub size: int,
    /// Bytes to the pixel.
    pub block_size: int,
    /// The rectangles handed out so far, oldest first, each as
    /// `(x, y, width, height)` in pixels.
    pub rects: Seq<(int, int, int, int)>,
    /// The pixel bytes, row by row.
    pub pixels: Seq<u8>,
    /// Whether the pixel bytes changed since the last upload.
    pub dirty: bool,
}

impl AtlasView {
    /// Whether the page is sound: it has the bytes of its pixels, and its
    /// rectangles lie within it and share no pixel.
    pub open spec fn wf(self) -> bool {
        &&& 0 < self.block_size
        &&& 0 <= self.size
        &&& self.size * self.size * self.block_size <= u32::MAX
        &&& self.pixels.len() == self.size * self.size * self.block_size
        &&& forall|i: int|
            0 <= i < self.rects.len() ==> within(#[trigger] self.rects[i], (self.size, self.size))
        &&& forall|i: int, j: int|
            0 <= i < j < self.rects.len() ==> disjoint(
                #[trigger] self.rects[i],
                #[trigger] self.rects[j],
            )
    }

    /// Where a bitmap of `width` by `height` pixels goes in this page, and
    /// `None` where the packing finds no room for it.
    pub open spec fn choice(self, width: int, height: int) -> Option<(int, int)> {
        if width > i32::MAX || height > i32::MAX {
            None
        } else {
            placement((self.size, self.size), self.rects, width, height)
        }
    }

    /// The page after a bitmap of `width` by `height` pixels was offered to
    /// it: with the bitmap at the place of [`AtlasView::choice`], or as it
    /// was.
    pub open spec fn with_bitmap(self, width: int, height: int, data: Seq<u8>) -> AtlasView {
        match self.choice(width, height) {
            Some((x, y)) => AtlasView {
                size: self.size,
                block_size: self.block_size,
                rects: self.rects.push((x, y, width, height)),
                pixels: page_with_bitmap(
                    self.pixels,
                    self.size * self.block_size,
                    x * self.block_size,
                    y,
                    data,
                    width * self.block_size,
                    height,
                ),
                dirty: true,
            },
            None => self,
        }
    }
}

impl View for Atlas {
    type V = AtlasView;

    closed spec fn view(&self) -> AtlasView {
        AtlasView {
            size: self.size as int,
            block_size: self.block_size as int,
            rects: placed(self.allocator),
            pixels: self.buffer@,
            dirty: self.dirty,
        }
    }
}

impl Atlas {
    /// Whether the page is sound, and its packing is that of a page of its
    /// size.
    pub closed spec fn wf(&self) -> bool {
        &&& self@.wf()
        &&& extent(self.allocator) == (self.size as int, self.size as int)
    }

    /// A sound page has a sound view.
    pub proof fn lemma_wf_view(&self)
        requires
            self.wf(),
        ensures
            self@.wf(),
    {
    }

    /// An empty page of `max_size` by `max_size` pixels with `block_size`
    /// bytes to the pixel, all of them zero. It counts as changed.
    pub fn new(max_size: u32, block_size: u32) -> (atlas: Atlas)
        requires
            block_size > 0,
            max_size * max_size * block_size <= u32::MAX,
        ensures
            atlas.wf(),
            atlas@ == (AtlasView {
                size: max_size as int,
                block_size: block_size as int,
                rects: Seq::empty(),
                pixels: Seq::new((max_size * max_size * block_size) as nat, |k: int| 0u8),
                dirty: true,
            }),
    {
        proof {
            assert(max_size * max_size <= max_size * max_size * block_size) by (nonlinear_arith)
                requires
                    block_size >= 1,
            ;
            assert(max_size <= 0xffff) by (nonlinear_arith)
                requires
                    max_size * max_size <= 0xffff_ffff,
            ;
        }
        let bytes = max_size * max_size * block_size;
        let buffer = vec![0u8; bytes as usize];
        assert(buffer@ =~= Seq::new((max_size * max_size * block_size) as nat, |k: int| 0u8));
        Atlas {
            allocator: allocator_new(max_size as i32, max_size as i32),
            size: max_size,
            block_size,
            buffer,
            dirty: true,
        }
    }

    /// Width and height of the page in pixels.
    pub fn size(&self) -> (size: u32)
        ensures
            size == self@.size,
    {
        self.size
    }

    /// Bytes to the pixel.
    pub fn block_size(&self) -> (block_size: u32)
        ensures
            block_size == self@.block_size,
    {
        self.block_size
    }

    /// The pixel bytes, row by row.
    pub fn buffer(&self) -> (bytes: &[u8])
        ensures
            bytes@ == self@.pixels,
    {
        self.buffer.as_slice()
    }

    /// Whether the pixel bytes changed since the last upload.
    pub fn is_dirty(&self) -> (dirty: bool)
        ensures
            dirty == self@.dirty,
    {
        self.dirty
    }

    /// Tells whether the page is due for upload, and if so counts it as
    /// uploaded: it is due if it changed since the last upload and holds a
    /// rectangle. The caller then uploads [`Atlas::buffer`].
    pub fn update_texture(&mut self) -> (due: bool)
        ensures
            due == (old(self)@.dirty && old(self)@.rects.len() > 0),
            final(self)@ == (AtlasView { dirty: old(self)@.dirty && !due, ..old(self)@ }),
            old(self).wf() ==> final(self).wf(),
    {
        if !self.dirty || allocator_is_empty(&self.allocator) {
            return false;
        }
        self.dirty = false;
        true
    }

    /// Packs a bitmap of `width` by `height` pixels into the page and copies
    /// its rows into the page's pixels. Returns the pixel at which it was
    /// put, or `None` where the packing finds no room; the page is then as it
    /// was.
    pub fn allocate(&mut self, width: u32, height: u32, data: &[u8]) -> (at: Option<(u32, u32)>)
        requires
            old(self).wf(),
            data@.len() == width * height * old(self)@.block_size,
        ensures
            final(self).wf(),
            final(self)@ == old(self)@.with_bitmap(width as int, height as int, data@),
            match at {
                Some((x, y)) => old(self)@.choice(width as int, height as int) == Some(
                    (x as int, y as int),
                ),
                None => old(self)@.choice(width as int, height as int) is None,
            },
    {
        if width > i32::MAX as u32 || height > i32::MAX as u32 {
            return None;
        }
        let (x, y) = match allocator_allocate(&mut self.allocator, width as i32, height as i32) {
            Some((x, y)) => (x as u32, y as u32),
            None => {
                return None;
            },
        };
        let ghost page = self.buffer@;
        let ghost packing = self.allocator;
        let ghost size = self.size as int;
        let ghost block = self.block_size as int;
        proof {
            assert(x + width <= size && y + height <= size);
            lemma_row_bounds(size, block, x as int, y as int, width as int, height as int);
        }
        let channels = self.block_size as usize;
        let data_stride = width as usize * channels;
        let buffer_stride = self.size as usize * channels;
        let left = x as usize * channels;
        let mut row: usize = 0;
        while row < height as usize
            invariant
                row <= height,
                self.allocator == packing,
                self.dirty == old(self).dirty,
                self.size == size,
                self.block_size == block,
                block > 0,
                channels == block,
                data_stride == width * block,
                buffer_stride == size * block,
                left == x * block,
                x + width <= size,
                y + height <= size,
                0 < data_stride,
                left + data_stride <= buffer_stride,
                size * size * block <= u32::MAX,
                height * data_stride <= u32::MAX,
                size * buffer_stride <= u32::MAX,
                data@.len() == height * data_stride,
                self.buffer@.len() == size * buffer_stride,
                page.len() == size * buffer_stride,
                self.buffer@ == page_with_bitmap(
                    page,
                    buffer_stride as int,
                    left as int,
                    y as int,
                    data@,
                    data_stride as int,
                    row as int,
                ),
            decreases height - row,
        {
            proof {
                lemma_row_fits(
                    size,
                    buffer_stride as int,
                    left as int,
                    y as int,
                    data_stride as int,
                    height as int,
                    row as int,
                );
            }
            let from = row * data_stride;
            let at = (y as usize + row) * buffer_stride + left;
            let ghost before = self.buffer@;
            copy_into(&mut self.buffer, at, slice_subrange(data, from, from + data_stride));
            proof {
                lemma_row_written(
                    page,
                    before,
                    self.buffer@,
                    buffer_stride as int,
                    left as int,
                    y as int,
                    data@,
                    data_stride as int,
                    row as int,
                );
            }
            row += 1;
        }
        self.dirty = true;
        proof {
            let rects = placed(self.allocator);
            let rect = (x as int, y as int, width as int, height as int);
            assert(rects == placed(old(self).allocator).push(rect));
            assert forall|i: int| 0 <= i < rects.len() implies within(
                #[trigger] rects[i],
                (size, size),
            ) by {
                if i < rects.len() - 1 {
                    assert(rects[i] == placed(old(self).allocator)[i]);
                }
            }
            assert forall|i: int, j: int| 0 <= i < j < rects.len() implies disjoint(
                #[trigger] rects[i],
                #[trigger] rects[j],
            ) by {
                assert(rects[i] == placed(old(self).allocator)[i]);
                if j < rects.len() - 1 {
                    assert(rects[j] == placed(old(self).allocator)[j]);
                }
            }
        }
        Some((x, y))
    }
}

/// The index, among the bytes of a page, of byte `channel` of the pixel at
/// `(x, y)`.
pub open spec fn byte_index(page: AtlasView, x: int, y: int, channel: int) -> int {
    (y * page.size + x) * page.block_size + channel
}

/// A bitmap that is put into a page leaves the pixels of the earlier
/// rectangles as they were: in a page that is sound with the bitmap in it,
/// every byte of a pixel of rectangle `i` is what it was before.
pub proof fn lemma_pixels_kept(
    page: AtlasView,
    width: int,
    height: int,
    data: Seq<u8>,
    i: int,
    x: int,
    y: int,
    channel: int,
)
    requires
        page.wf(),
        page.with_bitmap(width, height, data).wf(),
        0 <= i < page.rects.len(),
        page.rects[i].0 <= x < page.rects[i].0 + page.rects[i].2,
        page.rects[i].1 <= y < page.rects[i].1 + page.rects[i].3,
        0 <= channel < page.block_size,
    ensures
        0 <= byte_index(page, x, y, channel) < page.pixels.len(),
        page.with_bitmap(width, height, data).pixels[byte_index(page, x, y, channel)]
            == page.pixels[byte_index(page, x, y, channel)],
{
    let size = page.size;
    let block = page.block_size;
    let k = byte_index(page, x, y, channel);
    let row = size * block;
    assert(within(page.rects[i], (size, size)));
    assert(0 <= x < size && 0 <= y < size);
    assert(0 <= x * block + channel < row) by (nonlinear_arith)
        requires
            0 <= x < size,
            0 <= channel < block,
            row == size * block,
    ;
    assert(k == y * row + (x * block + channel)) by (nonlinear_arith)
        requires
            k == (y * size + x) * block + channel,
            row == size * block,
    ;
    assert(0 <= y * row && y * row + row <= size * row) by (nonlinear_arith)
        requires
            0 <= y < size,
            0 <= row,
    ;
    assert(size * row == size * size * block) by (nonlinear_arith)
        requires
            row == size * block,
    ;
    lemma_fundamental_div_mod_converse(k, row, y, x * block + channel);
    match page.choice(width, height) {
        Some((left, top)) => {
            let after = page.with_bitmap(width, height, data);
            let last = after.rects.len() - 1;
            assert(after.rects[i] == page.rects[i]);
            assert(after.rects[last] == (left, top, width, height));
            assert(disjoint(after.rects[i], after.rects[last]));
            if top <= y < top + height {
                assert(!(left <= x < left + width));
                assert(!(0 <= x * block + channel - left * block < width * block))
                    by (nonlinear_arith)
                    requires
                        !(left <= x < left + width),
                        0 <= channel < block,
                ;
            }
        },
        None => {},
    }
}

/// A rectangle within a page gives byte offsets within the page's rows.
proof fn lemma_row_bounds(size: int, block: int, x: int, y: int, width: int, height: int)
    requires
        0 < block,
        0 <= x,
        0 <= y,
        0 < width,
        0 < height,
        x + width <= size,
        y + height <= size,
        size * size * block <= u32::MAX,
    ensures
        0 <= x * block,
        x * block + width * block <= size * block,
        0 < width * block <= u32::MAX,
        0 <= size * block <= u32::MAX,
        size * (size * block) == size * size * block,
        width * height * block == height * (width * block),
        height * (width * block) <= size * size * block,
{
    assert(height * (width * block) <= size * (size * block)) by (nonlinear_arith)
        requires
            0 < height <= size,
            0 < width <= size,
            0 < block,
    ;
    assert(x * block + width * block == (x + width) * block) by (nonlinear_arith);
    assert((x + width) * block <= size * block) by (nonlinear_arith)
        requires
            x + width <= size,
            0 < block,
    ;
    assert(0 <= x * block) by (nonlinear_arith)
        requires
            0 <= x,
            0 < block,
    ;
    assert(0 < width * block) by (nonlinear_arith)
        requires
            0 < width,
            0 < block,
    ;
    assert(size * block <= size * size * block) by (nonlinear_arith)
        requires
            1 <= size,
            0 < block,
    ;
    assert(size * (size * block) == size * size * block) by (nonlinear_arith);
    assert(width * height * block == height * (width * block)) by (nonlinear_arith);
}

/// Row `row` of a bitmap lies within the bitmap, and its place within the page.
proof fn lemma_row_fits(
    size: int,
    page_row: int,
    left: int,
    top: int,
    bitmap_row: int,
    rows: int,
    row: int,
)
    requires
        0 <= row < rows,
        0 <= top,
        top + rows <= size,
        0 <= left,
        0 <= bitmap_row,
        left + bitmap_row <= page_row,
    ensures
        0 <= row * bitmap_row,
        row * bitmap_row + bitmap_row <= rows * bitmap_row,
        0 <= (top + row) * page_row,
        (top + row) * page_row + left + bitmap_row <= size * page_row,
{
    assert(row * bitmap_row + bitmap_row == (row + 1) * bitmap_row) by (nonlinear_arith);
    assert((row + 1) * bitmap_row <= rows * bitmap_row) by (nonlinear_arith)
        requires
            row + 1 <= rows,
            0 <= bitmap_row,
    ;
    assert(0 <= row * bitmap_row) by (nonlinear_arith)
        requires
            0 <= row,
            0 <= bitmap_row,
    ;
    assert(0 <= (top + row) * page_row) by (nonlinear_arith)
        requires
            0 <= top + row,
            0 <= page_row,
    ;
    assert((top + row) * page_row + page_row <= size * page_row) by (nonlinear_arith)
        requires
            top + row + 1 <= size,
            0 <= page_row,
    ;
}

/// Writing row `row` of a bitmap behind its first `row` rows gives the page
/// with `row + 1` rows of the bitmap.
proof fn lemma_row_written(
    page: Seq<u8>,
    before: Seq<u8>,
    after: Seq<u8>,
    page_row: int,
    left: int,
    top: int,
    bitmap: Seq<u8>,
    bitmap_row: int,
    row: int,
)
    requires
        0 <= row,
        0 <= top,
        0 <= left,
        0 < bitmap_row,
        left + bitmap_row <= page_row,
        row * bitmap_row + bitmap_row <= bitmap.len(),
        (top + row) * page_row + left + bitmap_row <= page.len(),
        before == page_with_bitmap(page, page_row, left, top, bitmap, bitmap_row, row),
        after == before.subrange(0, (top + row) * page_row + left) + bitmap.subrange(
            row * bitmap_row,
            row * bitmap_row + bitmap_row,
        ) + before.subrange((top + row) * page_row + left + bitmap_row, before.len() as int),
    ensures
        after == page_with_bitmap(page, page_row, left, top, bitmap, bitmap_row, row + 1),
{
    let at = (top + row) * page_row + left;
    let goal = page_with_bitmap(page, page_row, left, top, bitmap, bitmap_row, row + 1);
    assert(0 <= (top + row) * page_row) by (nonlinear_arith)
        requires
            0 <= top + row,
            0 <= page_row,
    ;
    assert(0 <= row * bitmap_row) by (nonlinear_arith)
        requires
            0 <= row,
            0 <= bitmap_row,
    ;
    assert((row + 1) * bitmap_row == row * bitmap_row + bitmap_row) by (nonlinear_arith);
    assert(after.len() == page.len());
    assert forall|k: int| 0 <= k < page.len() implies after[k] == goal[k] by {
        lemma_fundamental_div_mod(k, page_row);
        if at <= k < at + bitmap_row {
            lemma_fundamental_div_mod_converse(k, page_row, top + row, left + (k - at));
            assert(after[k] == bitmap[row * bitmap_row + (k - at)]);
        } else {
            assert(!(k / page_row - top == row && 0 <= k % page_row - left < bitmap_row)) by {
                if k / page_row == top + row {
                    assert(page_row * (k / page_row) == (top + row) * page_row)
                        by (nonlinear_arith)
                        requires
                            k / page_row == top + row,
                    ;
                }
            }
            assert(after[k] == before[k]);
        }
    }
    assert(after =~= goal);
}

} // verus!
