//! Quads gathered into batches, and the batches flattened into one display
//! list.

use super::image_cache::TextureLocation;
use super::types::{quad_indices, quad_vertices, Color, Rect, Vertex};
use vstd::prelude::*;

verus! {

/// Pipelines used by a display list.
#[derive(Copy, Clone, PartialEq, Eq, Debug, Structural)]
pub enum Pipeline {
    Opaque,
    Transparent,
    Subpixel,
}

/// Command in a display list.
#[derive(Copy, Clone, PartialEq, Eq, Debug, Structural)]
pub enum Command {
    /// Bind the texture page of the given index.
    BindTexture(usize),
    /// Switch to the given pipeline.
    BindPipeline(Pipeline),
    /// Draw `count` indices, beginning with index `start`.
    Draw { start: u32, count: u32 },
}

/// The most quads that a compositor holds at a time. Their indices then
/// still fit the 32 bits of an index.
pub const MAX_QUADS: u32 = 0x2aaa_aaaa;

/// Quads that are drawn with one pipeline and at most one texture page.
struct Batch {
    atlas_index: Option<usize>,
    vertices: Vec<Vertex>,
    indices: Vec<u32>,
}

/// What a batch holds, as mathematical values.
pub struct BatchView {
    /// The texture page that the batch is bound to, if any.
    pub atlas_index: Option<usize>,
    pub vertices: Seq<Vertex>,
    pub indices: Seq<u32>,
}

impl BatchView {
    /// A batch without quads, bound to no page.
    pub open spec fn empty() -> BatchView {
        BatchView { atlas_index: None, vertices: Seq::empty(), indices: Seq::empty() }
    }

    /// The number of quads.
    pub open spec fn quads(self) -> nat {
        self.vertices.len() / 4
    }

    /// Whether the batch is made of quads: four vertices and six indices
    /// each, the indices those of its own vertices.
    pub open spec fn wf(self) -> bool {
        &&& self.vertices.len() == 4 * self.quads()
        &&& self.indices.len() == 6 * self.quads()
        &&& self.quads() <= MAX_QUADS
        &&& forall|k: int| 0 <= k < self.indices.len() ==> #[trigger] self.indices[k] < self.vertices.len()
    }

    /// Whether the batch takes a quad that needs page `page`, or no page:
    /// the quad needs none, or the batch is bound to none yet, or both are
    /// the same page.
    pub open spec fn accepts(self, page: Option<usize>) -> bool {
        page is None || self.atlas_index is None || self.atlas_index == page
    }

    /// The batch with one more quad. A quad with a texture location binds
    /// the batch to its page; a quad without one leaves the binding.
    pub open spec fn with_quad(
        self,
        rect: Rect,
        depth: u16,
        color: Color,
        location: Option<TextureLocation>,
    ) -> BatchView {
        BatchView {
            atlas_index: match location {
                Some(location) => Some(location.atlas_index),
                None => self.atlas_index,
            },
            vertices: self.vertices + quad_vertices(rect, depth, color, location),
            indices: self.indices + quad_indices(self.vertices.len() as int),
        }
    }
}

impl View for Batch {
    type V = BatchView;

    closed spec fn view(&self) -> BatchView {
        BatchView { atlas_index: self.atlas_index, vertices: self.vertices@, indices: self.indices@ }
    }
}

/// The page that a quad with the texture location `location` needs.
pub open spec fn page_of(location: Option<TextureLocation>) -> Option<usize> {
    match location {
        Some(location) => Some(location.atlas_index),
        None => None,
    }
}

/// The number of quads in `batches`.
pub open spec fn quads_in(batches: Seq<BatchView>) -> nat
    decreases batches.len(),
{
    if batches.len() == 0 {
        0
    } else {
        quads_in(batches.drop_last()) + batches.last().quads()
    }
}

/// The first of `batches[from..]` that takes a quad for page `page`, and the
/// number of batches where none does.
pub open spec fn first_accepting(batches: Seq<BatchView>, page: Option<usize>, from: int) -> int
    decreases batches.len() - from,
{
    if from < 0 || from >= batches.len() {
        batches.len() as int
    } else if batches[from].accepts(page) {
        from
    } else {
        first_accepting(batches, page, from + 1)
    }
}

/// The batches of one pipeline after a quad was added: to the first batch
/// that takes it, or else to a new batch behind them.
pub open spec fn batches_with_quad(
    batches: Seq<BatchView>,
    rect: Rect,
    depth: u16,
    color: Color,
    location: Option<TextureLocation>,
) -> Seq<BatchView> {
    let target = first_accepting(batches, page_of(location), 0);
    if target < batches.len() {
        batches.update(target, batches[target].with_quad(rect, depth, color, location))
    } else {
        batches.push(BatchView::empty().with_quad(rect, depth, color, location))
    }
}

/// The batch that [`first_accepting`] finds takes the quad, and no batch
/// before it does.
pub proof fn lemma_first_accepting(batches: Seq<BatchView>, page: Option<usize>, from: int)
    requires
        0 <= from <= batches.len(),
    ensures
        from <= first_accepting(batches, page, from) <= batches.len(),
        first_accepting(batches, page, from) < batches.len() ==> batches[first_accepting(
            batches,
            page,
            from,
        )].accepts(page),
        forall|k: int|
            from <= k < first_accepting(batches, page, from) ==> !(#[trigger] batches[k]).accepts(
                page,
            ),
    decreases batches.len() - from,
{
    if from < batches.len() && !batches[from].accepts(page) {
        lemma_first_accepting(batches, page, from + 1);
    }
}

/// A batch stays on its page: adding a quad to batches never changes the
/// page that a batch is bound to, and the batch that takes a quad with a
/// texture location is bound to the page of that location.
pub proof fn lemma_binding_kept(
    batches: Seq<BatchView>,
    rect: Rect,
    depth: u16,
    color: Color,
    location: Option<TextureLocation>,
)
    ensures
        ({
            let after = batches_with_quad(batches, rect, depth, color, location);
            let target = first_accepting(batches, page_of(location), 0);
            &&& 0 <= target < after.len()
            &&& batches.len() <= after.len() <= batches.len() + 1
            &&& forall|k: int|
                0 <= k < batches.len() && (#[trigger] batches[k]).atlas_index is Some
                    ==> after[k].atlas_index == batches[k].atlas_index
            &&& forall|k: int|
                0 <= k < batches.len() && k != target ==> after[k] == #[trigger] batches[k]
            &&& location is Some ==> after[target].atlas_index == page_of(location)
        }),
{
    lemma_first_accepting(batches, page_of(location), 0);
}

/// The quads of `batches` where one batch was replaced.
proof fn lemma_quads_update(batches: Seq<BatchView>, at: int, batch: BatchView)
    requires
        0 <= at < batches.len(),
    ensures
        quads_in(batches.update(at, batch)) == quads_in(batches) - batches[at].quads() + batch.quads(),
        batches[at].quads() <= quads_in(batches),
    decreases batches.len(),
{
    let updated = batches.update(at, batch);
    if at == batches.len() - 1 {
        assert(updated.drop_last() =~= batches.drop_last());
    } else {
        assert(updated.drop_last() =~= batches.drop_last().update(at, batch));
        lemma_quads_update(batches.drop_last(), at, batch);
    }
}

/// The quads of the first `n + 1` of `batches` are those of the first `n`
/// and of batch `n`, and no more than all quads.
proof fn lemma_quads_take(batches: Seq<BatchView>, n: int)
    requires
        0 <= n < batches.len(),
    ensures
        quads_in(batches.take(n + 1)) == quads_in(batches.take(n)) + batches[n].quads(),
        quads_in(batches.take(n + 1)) <= quads_in(batches),
    decreases batches.len() - n,
{
    assert(batches.take(n + 1).drop_last() =~= batches.take(n));
    if n + 1 == batches.len() {
        assert(batches.take(n + 1) =~= batches);
    } else {
        lemma_quads_take(batches, n + 1);
    }
}

/// The views of batches.
spec fn views(batches: Seq<Batch>) -> Seq<BatchView> {
    batches.map_values(|b: Batch| b@)
}

impl Batch {
    fn new() -> (batch: Batch)
        ensures
            batch@ == BatchView::empty(),
    {
        Batch { atlas_index: None, vertices: Vec::new(), indices: Vec::new() }
    }

    fn clear(&mut self)
        ensures
            final(self)@ == BatchView::empty(),
    {
        self.vertices.clear();
        self.indices.clear();
        self.atlas_index = None;
    }

    fn add_rect(&mut self, rect: Rect, depth: u16, color: Color, location: Option<TextureLocation>)
        requires
            old(self)@.wf(),
            old(self)@.quads() < MAX_QUADS,
        ensures
            final(self)@ == old(self)@.with_quad(rect, depth, color, location),
            final(self)@.wf(),
            final(self)@.quads() == old(self)@.quads() + 1,
    {
        let textured = location.is_some();
        let (left, top, right, bottom, uv_extent) = match location {
            Some(location) => {
                self.atlas_index = Some(location.atlas_index);
                (location.min.0, location.min.1, location.max.0, location.max.1, location.extent)
            },
            None => (0u32, 0u32, 1u32, 1u32, 1u32),
        };
        let x0 = rect.x as i64;
        let y0 = rect.y as i64;
        let x1 = rect.x as i64 + rect.width as i64;
        let y1 = rect.y as i64 + rect.height as i64;
        let base = self.vertices.len() as u32;
        let ghost before = self@;
        self.vertices.push(Vertex { x: x0, y: y0, depth, textured, color, u: left, v: top, uv_extent });
        self.vertices.push(
            Vertex { x: x0, y: y1, depth, textured, color, u: left, v: bottom, uv_extent },
        );
        self.vertices.push(
            Vertex { x: x1, y: y1, depth, textured, color, u: right, v: bottom, uv_extent },
        );
        self.vertices.push(Vertex { x: x1, y: y0, depth, textured, color, u: right, v: top, uv_extent });
        self.indices.push(base);
        self.indices.push(base + 1);
        self.indices.push(base + 2);
        self.indices.push(base);
        self.indices.push(base + 2);
        self.indices.push(base + 3);
        proof {
            assert(self@.vertices =~= old(self)@.vertices + quad_vertices(rect, depth, color, location));
            assert(self@.indices =~= old(self)@.indices + quad_indices(base as int));
        }
    }

    /// Appends the batch to `list`: its vertices, its indices moved behind
    /// the vertices that the list held, the binding of its page if it has
    /// one, and the drawing of its indices.
    fn build_display_list(&self, list: &mut DisplayList)
        requires
            self@.wf(),
            old(list)@.vertices.len() + self@.vertices.len() <= u32::MAX,
            old(list)@.indices.len() + self@.indices.len() <= u32::MAX,
        ensures
            final(list)@ == old(list)@.with_batch(self@),
            old(list)@.wf() ==> final(list)@.wf(),
    {
        let first_vertex = list.vertices.len() as u32;
        let first_index = list.indices.len() as u32;
        let mut i: usize = 0;
        while i < self.vertices.len()
            invariant
                i <= self.vertices.len(),
                list.indices == old(list).indices,
                list.commands == old(list).commands,
                list.vertices@ == old(list).vertices@ + self.vertices@.take(i as int),
            decreases self.vertices.len() - i,
        {
            list.vertices.push(self.vertices[i]);
            proof {
                assert(self.vertices@.take(i + 1) =~= self.vertices@.take(i as int).push(
                    self.vertices@[i as int],
                ));
            }
            i += 1;
        }
        assert(self.vertices@.take(self.vertices.len() as int) =~= self.vertices@);
        let mut k: usize = 0;
        while k < self.indices.len()
            invariant
                k <= self.indices.len(),
                self@.wf(),
                first_vertex + self@.vertices.len() <= u32::MAX,
                list.vertices@ == old(list).vertices@ + self.vertices@,
                list.commands == old(list).commands,
                list.indices@ == old(list).indices@ + self.indices@.take(k as int).map_values(
                    |index: u32| (index + first_vertex) as u32,
                ),
            decreases self.indices.len() - k,
        {
            assert(self@.indices[k as int] < self@.vertices.len());
            list.indices.push(self.indices[k] + first_vertex);
            proof {
                assert(self.indices@.take(k + 1) =~= self.indices@.take(k as int).push(
                    self.indices@[k as int],
                ));
                assert(self.indices@.take(k + 1).map_values(
                    |index: u32| (index + first_vertex) as u32,
                ) =~= self.indices@.take(k as int).map_values(
                    |index: u32| (index + first_vertex) as u32,
                ).push((self.indices@[k as int] + first_vertex) as u32));
            }
            k += 1;
        }
        assert(self.indices@.take(self.indices.len() as int) =~= self.indices@);
        if let Some(atlas_index) = self.atlas_index {
            list.commands.push(Command::BindTexture(atlas_index));
        }
        list.commands.push(Command::Draw { start: first_index, count: self.indices.len() as u32 });
        proof {
            assert(list@.commands =~= old(list)@.with_batch(self@).commands);
        }
    }
}

/// Resources and commands for drawing a composition.
#[derive(Clone)]
pub struct DisplayList {
    vertices: Vec<Vertex>,
    indices: Vec<u32>,
    commands: Vec<Command>,
}

/// What a [`DisplayList`] holds, as mathematical values.
pub struct DisplayListView {
    pub vertices: Seq<Vertex>,
    pub indices: Seq<u32>,
    pub commands: Seq<Command>,
}

impl DisplayListView {
    /// Whether every drawing command draws indices that the list holds, and
    /// the list holds no more indices than an index can count.
    pub open spec fn wf(self) -> bool {
        &&& self.indices.len() <= u32::MAX
        &&& forall|k: int|
            0 <= k < self.commands.len() ==> (#[trigger] self.commands[k] matches Command::Draw {
                start,
                count,
            } ==> start + count <= self.indices.len())
    }

    /// A list without vertices, indices and commands.
    pub open spec fn empty() -> DisplayListView {
        DisplayListView { vertices: Seq::empty(), indices: Seq::empty(), commands: Seq::empty() }
    }

    /// The list with `command` behind its commands.
    pub open spec fn with_command(self, command: Command) -> DisplayListView {
        DisplayListView { commands: self.commands.push(command), ..self }
    }

    /// The list with a batch behind it: the vertices of the batch, its
    /// indices moved by the number of vertices before them, the binding of
    /// its page if it has one, and the drawing of its indices.
    pub open spec fn with_batch(self, batch: BatchView) -> DisplayListView {
        let first_vertex = self.vertices.len() as u32;
        let draw = Command::Draw { start: self.indices.len() as u32, count: batch.indices.len() as u32 };
        DisplayListView {
            vertices: self.vertices + batch.vertices,
            indices: self.indices + batch.indices.map_values(
                |index: u32| (index + first_vertex) as u32,
            ),
            commands: match batch.atlas_index {
                Some(page) => self.commands.push(Command::BindTexture(page)).push(draw),
                None => self.commands.push(draw),
            },
        }
    }

    /// The list with the first `n` of `batches` behind it, those without
    /// vertices left out.
    pub open spec fn with_batches(self, batches: Seq<BatchView>, n: int) -> DisplayListView
        decreases n,
    {
        if n <= 0 {
            self
        } else {
            let before = self.with_batches(batches, n - 1);
            if batches[n - 1].vertices.len() == 0 {
                before
            } else {
                before.with_batch(batches[n - 1])
            }
        }
    }

    /// The list with the pass of one pipeline behind it: nothing where the
    /// pipeline has no batches, else the binding of the pipeline and its
    /// batches.
    pub open spec fn with_pass(self, pipeline: Pipeline, batches: Seq<BatchView>) -> DisplayListView {
        if batches.len() == 0 {
            self
        } else {
            self.with_command(Command::BindPipeline(pipeline)).with_batches(
                batches,
                batches.len() as int,
            )
        }
    }
}

impl View for DisplayList {
    type V = DisplayListView;

    closed spec fn view(&self) -> DisplayListView {
        DisplayListView {
            vertices: self.vertices@,
            indices: self.indices@,
            commands: self.commands@,
        }
    }
}

impl DisplayList {
    /// Creates a new empty display list.
    pub fn new() -> (list: DisplayList)
        ensures
            list@ == DisplayListView::empty(),
    {
        DisplayList { vertices: Vec::new(), indices: Vec::new(), commands: Vec::new() }
    }

    /// Returns the buffered vertices for the display list.
    pub fn vertices(&self) -> (vertices: &[Vertex])
        ensures
            vertices@ == self@.vertices,
    {
        self.vertices.as_slice()
    }

    /// Returns the buffered indices for the display list.
    pub fn indices(&self) -> (indices: &[u32])
        ensures
            indices@ == self@.indices,
    {
        self.indices.as_slice()
    }

    /// Returns the sequence of display commands.
    pub fn commands(&self) -> (commands: &[Command])
        ensures
            commands@ == self@.commands,
    {
        self.commands.as_slice()
    }

    /// Clears the display list.
    pub fn clear(&mut self)
        ensures
            final(self)@ == DisplayListView::empty(),
    {
        self.vertices.clear();
        self.indices.clear();
        self.commands.clear();
    }

    /// Appends the pass of one pipeline.
    fn add_pass(&mut self, pipeline: Pipeline, batches: &Vec<Batch>)
        requires
            forall|k: int| 0 <= k < batches@.len() ==> (#[trigger] batches@[k])@.wf(),
            old(self)@.vertices.len() + 4 * quads_in(views(batches@)) <= u32::MAX,
            old(self)@.indices.len() + 6 * quads_in(views(batches@)) <= u32::MAX,
        ensures
            final(self)@ == old(self)@.with_pass(pipeline, views(batches@)),
            final(self)@.vertices.len() == old(self)@.vertices.len() + 4 * quads_in(views(batches@)),
            final(self)@.indices.len() == old(self)@.indices.len() + 6 * quads_in(views(batches@)),
            old(self)@.wf() ==> final(self)@.wf(),
    {
        let ghost all = views(batches@);
        if batches.len() == 0 {
            return ;
        }
        self.commands.push(Command::BindPipeline(pipeline));
        let ghost start = self@;
        let mut i: usize = 0;
        while i < batches.len()
            invariant
                i <= batches.len(),
                all == views(batches@),
                forall|k: int| 0 <= k < batches@.len() ==> (#[trigger] batches@[k])@.wf(),
                start.vertices.len() + 4 * quads_in(all) <= u32::MAX,
                start.indices.len() + 6 * quads_in(all) <= u32::MAX,
                self@ == start.with_batches(all, i as int),
                old(self)@.wf() ==> self@.wf(),
                self@.vertices.len() == start.vertices.len() + 4 * quads_in(all.take(i as int)),
                self@.indices.len() == start.indices.len() + 6 * quads_in(all.take(i as int)),
            decreases batches.len() - i,
        {
            proof {
                lemma_quads_take(all, i as int);
                assert(all[i as int] == batches@[i as int]@);
            }
            if batches[i].vertices.len() != 0 {
                batches[i].build_display_list(self);
            }
            i += 1;
        }
        assert(all.take(batches.len() as int) =~= all);
    }
}

/// Gathers quads into batches, by pipeline and texture page.
pub struct Compositor {
    empty_batches: Vec<Batch>,
    opaque_batches: Vec<Batch>,
    transparent_batches: Vec<Batch>,
    subpixel_batches: Vec<Batch>,
}

/// What a [`Compositor`] holds, as mathematical values.
pub struct CompositorView {
    /// The number of batches that wait to be used again.
    pub pooled: nat,
    pub opaque: Seq<BatchView>,
    pub transparent: Seq<BatchView>,
    pub subpixel: Seq<BatchView>,
}

impl CompositorView {
    /// The number of quads in all batches.
    pub open spec fn quads(self) -> nat {
        quads_in(self.opaque) + quads_in(self.transparent) + quads_in(self.subpixel)
    }

    /// The batches of `pipeline`.
    pub open spec fn batches(self, pipeline: Pipeline) -> Seq<BatchView> {
        match pipeline {
            Pipeline::Opaque => self.opaque,
            Pipeline::Transparent => self.transparent,
            Pipeline::Subpixel => self.subpixel,
        }
    }

    /// The compositor after a quad was added to the batches of `pipeline`.
    /// A new batch is taken from those that wait to be used again, if there
    /// is one.
    pub open spec fn with_quad(
        self,
        pipeline: Pipeline,
        rect: Rect,
        depth: u16,
        color: Color,
        location: Option<TextureLocation>,
    ) -> CompositorView {
        let before = self.batches(pipeline);
        let after = batches_with_quad(before, rect, depth, color, location);
        let pooled = if after.len() > before.len() && self.pooled > 0 {
            (self.pooled - 1) as nat
        } else {
            self.pooled
        };
        match pipeline {
            Pipeline::Opaque => CompositorView { pooled, opaque: after, ..self },
            Pipeline::Transparent => CompositorView { pooled, transparent: after, ..self },
            Pipeline::Subpixel => CompositorView { pooled, subpixel: after, ..self },
        }
    }

    /// The display list of the batches: the pass of the opaque pipeline,
    /// then that of the transparent one, then that of the sub-pixel one.
    pub open spec fn display_list(self) -> DisplayListView {
        DisplayListView::empty().with_pass(Pipeline::Opaque, self.opaque).with_pass(
            Pipeline::Transparent,
            self.transparent,
        ).with_pass(Pipeline::Subpixel, self.subpixel)
    }
}

impl View for Compositor {
    type V = CompositorView;

    closed spec fn view(&self) -> CompositorView {
        CompositorView {
            pooled: self.empty_batches@.len(),
            opaque: views(self.opaque_batches@),
            transparent: views(self.transparent_batches@),
            subpixel: views(self.subpixel_batches@),
        }
    }
}

/// Whether all of `batches` are made of quads.
spec fn all_wf(batches: Seq<Batch>) -> bool {
    forall|k: int| 0 <= k < batches.len() ==> (#[trigger] batches[k])@.wf()
}

/// Whether all of `batches` are empty.
spec fn all_empty(batches: Seq<Batch>) -> bool {
    forall|k: int| 0 <= k < batches.len() ==> (#[trigger] batches[k])@ == BatchView::empty()
}

/// Adds a quad to the first of `batches` that takes it, or else to a new
/// batch behind them, which comes from `pool` if that has one.
fn add_quad(
    batches: &mut Vec<Batch>,
    pool: &mut Vec<Batch>,
    rect: Rect,
    depth: u16,
    color: Color,
    location: Option<TextureLocation>,
)
    requires
        all_wf(old(batches)@),
        all_empty(old(pool)@),
        quads_in(views(old(batches)@)) < MAX_QUADS,
    ensures
        all_wf(final(batches)@),
        all_empty(final(pool)@),
        views(final(batches)@) == batches_with_quad(views(old(batches)@), rect, depth, color, location),
        quads_in(views(final(batches)@)) == quads_in(views(old(batches)@)) + 1,
        final(pool)@.len() == (if final(batches)@.len() > old(batches)@.len() && old(pool)@.len() > 0 {
            old(pool)@.len() - 1
        } else {
            old(pool)@.len() as int
        }),
{
    let ghost before = views(batches@);
    let ghost page = page_of(location);
    let mut target: usize = 0;
    while target < batches.len() && !accepts(&batches[target], &location)
        invariant
            target <= batches.len(),
            batches == old(batches),
            before == views(batches@),
            page == page_of(location),
            first_accepting(before, page, 0) == first_accepting(before, page, target as int),
        decreases batches.len() - target,
    {
        assert(before[target as int] == batches@[target as int]@);
        target += 1;
    }
    proof {
        if target < batches.len() {
            assert(before[target as int] == batches@[target as int]@);
        }
        assert(first_accepting(before, page, 0) == target);
    }
    if target < batches.len() {
        proof {
            lemma_quads_update(
                before,
                target as int,
                before[target as int].with_quad(rect, depth, color, location),
            );
        }
        batches[target].add_rect(rect, depth, color, location);
        proof {
            assert(views(batches@) =~= before.update(
                target as int,
                before[target as int].with_quad(rect, depth, color, location),
            ));
        }
    } else {
        let mut batch = match pool.pop() {
            Some(batch) => batch,
            None => Batch::new(),
        };
        batch.add_rect(rect, depth, color, location);
        batches.push(batch);
        proof {
            let added = BatchView::empty().with_quad(rect, depth, color, location);
            assert(views(batches@) =~= before.push(added));
            assert(before.push(added).drop_last() =~= before);
        }
    }
}

/// Tells whether `batch` takes a quad with the texture location `location`.
fn accepts(batch: &Batch, location: &Option<TextureLocation>) -> (r: bool)
    ensures
        r == batch@.accepts(page_of(*location)),
{
    match (location, batch.atlas_index) {
        (Some(location), Some(bound)) => location.atlas_index == bound,
        _ => true,
    }
}

/// Moves `batches` to `pool`, emptied.
fn recycle(pool: &mut Vec<Batch>, batches: &mut Vec<Batch>)
    requires
        all_empty(old(pool)@),
    ensures
        all_empty(final(pool)@),
        final(pool)@.len() == old(pool)@.len() + old(batches)@.len(),
        final(batches)@.len() == 0,
{
    let kept = pool.len();
    pool.append(batches);
    let mut i: usize = kept;
    while i < pool.len()
        invariant
            kept <= i <= pool.len(),
            pool@.len() == kept + old(batches)@.len(),
            forall|k: int| 0 <= k < i ==> (#[trigger] pool@[k])@ == BatchView::empty(),
        decreases pool.len() - i,
    {
        pool[i].clear();
        i += 1;
    }
}

impl Compositor {
    /// Whether the batches are made of quads, of which there are at most
    /// [`MAX_QUADS`], and the batches that wait to be used again are empty.
    pub closed spec fn wf(&self) -> bool {
        &&& all_empty(self.empty_batches@)
        &&& all_wf(self.opaque_batches@)
        &&& all_wf(self.transparent_batches@)
        &&& all_wf(self.subpixel_batches@)
        &&& self@.quads() <= MAX_QUADS
    }

    /// A compositor without batches.
    pub fn new() -> (compositor: Compositor)
        ensures
            compositor.wf(),
            compositor@ == (CompositorView {
                pooled: 0,
                opaque: Seq::empty(),
                transparent: Seq::empty(),
                subpixel: Seq::empty(),
            }),
    {
        let compositor = Compositor {
            empty_batches: Vec::new(),
            opaque_batches: Vec::new(),
            transparent_batches: Vec::new(),
            subpixel_batches: Vec::new(),
        };
        proof {
            assert(compositor@.opaque =~= Seq::empty());
            assert(compositor@.transparent =~= Seq::empty());
            assert(compositor@.subpixel =~= Seq::empty());
        }
        compositor
    }

    /// Begins a frame: every batch of the frame before is emptied and waits
    /// to be used again.
    pub fn begin(&mut self)
        requires
            old(self).wf(),
        ensures
            final(self).wf(),
            final(self)@ == (CompositorView {
                pooled: old(self)@.pooled + old(self)@.opaque.len() + old(self)@.transparent.len()
                    + old(self)@.subpixel.len(),
                opaque: Seq::empty(),
                transparent: Seq::empty(),
                subpixel: Seq::empty(),
            }),
    {
        recycle(&mut self.empty_batches, &mut self.opaque_batches);
        recycle(&mut self.empty_batches, &mut self.transparent_batches);
        recycle(&mut self.empty_batches, &mut self.subpixel_batches);
        proof {
            assert(self@.opaque =~= Seq::empty());
            assert(self@.transparent =~= Seq::empty());
            assert(self@.subpixel =~= Seq::empty());
        }
    }

    /// The number of quads in all batches.
    pub fn quad_count(&self) -> (count: usize)
        requires
            self.wf(),
        ensures
            count == self@.quads(),
    {
        let opaque = count_quads(&self.opaque_batches);
        let transparent = count_quads(&self.transparent_batches);
        let subpixel = count_quads(&self.subpixel_batches);
        opaque + transparent + subpixel
    }

    /// Adds a quad of one color: to the opaque batches if nothing shows
    /// through the color, else to the transparent ones.
    pub fn draw_rect(&mut self, rect: Rect, depth: u16, color: Color)
        requires
            old(self).wf(),
            old(self)@.quads() < MAX_QUADS,
        ensures
            final(self).wf(),
            final(self)@ == old(self)@.with_quad(
                if color.a == 255 {
                    Pipeline::Opaque
                } else {
                    Pipeline::Transparent
                },
                rect,
                depth,
                color,
                None,
            ),
            final(self)@.quads() == old(self)@.quads() + 1,
    {
        if color.a == 255 {
            add_quad(&mut self.opaque_batches, &mut self.empty_batches, rect, depth, color, None);
        } else {
            add_quad(&mut self.transparent_batches, &mut self.empty_batches, rect, depth, color, None);
        }
    }

    /// Adds a quad that shows the image at `texture_location` in its own
    /// colors, to the transparent batches.
    pub fn add_image_rect(
        &mut self,
        rect: Rect,
        depth: u16,
        color: Color,
        texture_location: TextureLocation,
    )
        requires
            old(self).wf(),
            old(self)@.quads() < MAX_QUADS,
        ensures
            final(self).wf(),
            final(self)@ == old(self)@.with_quad(
                Pipeline::Transparent,
                rect,
                depth,
                color,
                Some(texture_location),
            ),
            final(self)@.quads() == old(self)@.quads() + 1,
    {
        add_quad(
            &mut self.transparent_batches,
            &mut self.empty_batches,
            rect,
            depth,
            color,
            Some(texture_location),
        );
    }

    /// Adds a quad that shows the image at `texture_location` as a coverage
    /// mask, to the sub-pixel batches.
    pub fn add_subpixel_rect(
        &mut self,
        rect: Rect,
        depth: u16,
        color: Color,
        texture_location: TextureLocation,
    )
        requires
            old(self).wf(),
            old(self)@.quads() < MAX_QUADS,
        ensures
            final(self).wf(),
            final(self)@ == old(self)@.with_quad(
                Pipeline::Subpixel,
                rect,
                depth,
                color,
                Some(texture_location),
            ),
            final(self)@.quads() == old(self)@.quads() + 1,
    {
        add_quad(
            &mut self.subpixel_batches,
            &mut self.empty_batches,
            rect,
            depth,
            color,
            Some(texture_location),
        );
    }

    /// Flattens the batches into one display list: the opaque pass, then the
    /// transparent pass, then the sub-pixel pass.
    pub fn build_display_list(&self) -> (list: DisplayList)
        requires
            self.wf(),
        ensures
            list@ == self@.display_list(),
            list@.wf(),
            list@.vertices.len() == 4 * self@.quads(),
            list@.indices.len() == 6 * self@.quads(),
    {
        let mut list = DisplayList::new();
        list.add_pass(Pipeline::Opaque, &self.opaque_batches);
        list.add_pass(Pipeline::Transparent, &self.transparent_batches);
        list.add_pass(Pipeline::Subpixel, &self.subpixel_batches);
        list
    }
}

/// Counts the quads of `batches`.
fn count_quads(batches: &Vec<Batch>) -> (count: usize)
    requires
        all_wf(batches@),
        quads_in(views(batches@)) <= MAX_QUADS,
    ensures
        count == quads_in(views(batches@)),
{
    let ghost all = views(batches@);
    let mut count: usize = 0;
    let mut i: usize = 0;
    while i < batches.len()
        invariant
            i <= batches.len(),
            all == views(batches@),
            all_wf(batches@),
            quads_in(all) <= MAX_QUADS,
            count == quads_in(all.take(i as int)),
        decreases batches.len() - i,
    {
        proof {
            lemma_quads_take(all, i as int);
            assert(all[i as int] == batches@[i as int]@);
        }
        count += batches[i].vertices.len() / 4;
        i += 1;
    }
    assert(all.take(batches.len() as int) =~= all);
    count
}

} // verus!
