//! Glyphs, font metrics, clusters of text and the shaping buffer.

use icu_segmenter::GraphemeClusterSegmenter;
use vstd::prelude::*;
use vstd::utf8::encode_scalar;

verus! {

/// A shaped glyph: the font's glyph id with its placement relative to the pen.
///
/// Id `0` is the font's "no glyph" entry and signals that the font cannot
/// render the input it was shaped from.
#[derive(Debug, Clone, Copy, PartialEq, Eq, Structural)]
pub struct Glyph {
    pub id: u32,
    pub x_offset: i32,
    pub y_offset: i32,
    pub x_advance: i32,
    pub y_advance: i32,
}

/// Vertical metrics of a font at the size of a run, in sub-pixel units.
#[derive(Debug, Clone, Copy, PartialEq, Eq, Structural)]
pub struct FontMetrics {
    pub ascent: i32,
    pub descent: i32,
    pub leading: i32,
}

/// A shaping cluster: the bytes `start..end` of its line, which are shaped
/// together.
#[derive(Debug, Clone, Copy, PartialEq, Eq, Structural)]
pub struct Cluster {
    pub start: usize,
    pub end: usize,
}

/// The number of bytes of `c` in UTF-8.
pub open spec fn utf8_width(c: char) -> int {
    encode_scalar(c as u32).len() as int
}

/// The number of bytes of `text` in UTF-8.
pub open spec fn utf8_len(text: Seq<char>) -> int
    decreases text.len(),
{
    if text.len() == 0 {
        0
    } else {
        utf8_len(text.drop_last()) + utf8_width(text.last())
    }
}

/// The characters of `text` whose first byte, with the text in UTF-8, is one
/// of the bytes `start..end`.
pub open spec fn chars_between(text: Seq<char>, start: int, end: int) -> Seq<char>
    decreases text.len(),
{
    if text.len() == 0 {
        Seq::empty()
    } else {
        let before = chars_between(text.drop_last(), start, end);
        if start <= utf8_len(text.drop_last()) < end {
            before.push(text.last())
        } else {
            before
        }
    }
}

/// The length of a text in UTF-8 is at most four bytes for each character.
pub proof fn lemma_utf8_len_bound(text: Seq<char>)
    ensures
        text.len() <= utf8_len(text) <= 4 * text.len(),
    decreases text.len(),
{
    if text.len() > 0 {
        lemma_utf8_len_bound(text.drop_last());
    }
}

/// The number of bytes of `c` in UTF-8.
pub fn char_width(c: char) -> (width: usize)
    ensures
        width == utf8_width(c),
        1 <= width <= 4,
{
    let v = c as u32;
    if v < 0x80 {
        1
    } else if v < 0x800 {
        2
    } else if v < 0x1_0000 {
        3
    } else {
        4
    }
}

/// The characters of a cluster: those of `text` whose first byte is within
/// the cluster.
pub fn cluster_text(text: &Vec<char>, cluster: &Cluster) -> (chars: Vec<char>)
    ensures
        chars@ == chars_between(text@, cluster.start as int, cluster.end as int),
{
    let mut chars: Vec<char> = Vec::new();
    let mut offset: u128 = 0;
    let mut i: usize = 0;
    while i < text.len()
        invariant
            i <= text.len(),
            offset == utf8_len(text@.take(i as int)),
            chars@ == chars_between(text@.take(i as int), cluster.start as int, cluster.end as int),
        decreases text.len() - i,
    {
        proof {
            assert(text@.take(i + 1).drop_last() =~= text@.take(i as int));
            lemma_utf8_len_bound(text@.take(i as int));
        }
        if cluster.start as u128 <= offset && offset < cluster.end as u128 {
            chars.push(text[i]);
        }
        offset += char_width(text[i]) as u128;
        i += 1;
    }
    assert(text@.take(text.len() as int) =~= text@);
    chars
}

#[verifier::external_type_specification]
#[verifier::external_body]
pub struct ExGraphemeClusterSegmenter(GraphemeClusterSegmenter);

/// The boundaries of the grapheme clusters of `text`, as byte offsets into
/// the text in UTF-8, by the rules of Unicode as ICU4X has them.
pub uninterp spec fn grapheme_breaks(text: Seq<char>) -> Seq<int>;

/// `GraphemeClusterSegmenter::new` of icu_segmenter: a segmenter with the
/// rules that are compiled into that crate.
#[verifier::external_body]
fn segmenter_new() -> GraphemeClusterSegmenter {
    GraphemeClusterSegmenter::new()
}

/// `GraphemeClusterSegmenter::segment_str` of icu_segmenter, on `text` as a
/// string. The boundaries are trusted to depend on the text alone, to begin
/// with 0, to end with the length of the text in bytes, and to grow from one
/// to the next.
#[verifier::external_body]
fn segmenter_breaks(segmenter: &GraphemeClusterSegmenter, text: &Vec<char>) -> (breaks: Vec<usize>)
    ensures
        breaks@.map_values(|b: usize| b as int) == grapheme_breaks(text@),
        breaks@.len() >= 1,
        breaks@[0] == 0,
        breaks@.last() == utf8_len(text@),
        forall|i: int, j: int| 0 <= i < j < breaks@.len() ==> breaks@[i] < breaks@[j],
{
    let text: String = text.iter().collect();
    segmenter.segment_str(&text).collect()
}

/// The clusters between boundaries: one from each boundary to the next.
pub open spec fn clusters_between(breaks: Seq<int>) -> Seq<Cluster> {
    Seq::new(
        if breaks.len() == 0 {
            0nat
        } else {
            (breaks.len() - 1) as nat
        },
        |i: int| Cluster { start: breaks[i] as usize, end: breaks[i + 1] as usize },
    )
}

/// The grapheme clusters of `text`.
pub open spec fn clusters_of(text: Seq<char>) -> Seq<Cluster> {
    clusters_between(grapheme_breaks(text))
}

/// Whether `clusters` cover the bytes `0..len` one after the other, none of
/// them empty.
pub open spec fn clusters_cover(clusters: Seq<Cluster>, len: int) -> bool {
    &&& forall|i: int| 0 <= i < clusters.len() ==> (#[trigger] clusters[i]).start < clusters[i].end
    &&& forall|i: int|
        0 <= i < clusters.len() - 1 ==> (#[trigger] clusters[i]).end == clusters[i + 1].start
    &&& clusters.len() > 0 ==> clusters[0].start == 0 && clusters.last().end == len
    &&& clusters.len() == 0 ==> len == 0
}

/// Segments text into the clusters that are shaped together.
pub struct ParseContext {
    segmenter: GraphemeClusterSegmenter,
}

impl ParseContext {
    /// A context that segments by the rules of Unicode for grapheme
    /// clusters.
    pub fn new() -> ParseContext {
        ParseContext { segmenter: segmenter_new() }
    }

    /// The grapheme clusters of `input`, in their order. They cover the
    /// bytes of the text in UTF-8 one after the other.
    pub fn segment_str(&self, input: &Vec<char>) -> (clusters: Vec<Cluster>)
        ensures
            clusters@ == clusters_of(input@),
            clusters_cover(clusters@, utf8_len(input@)),
    {
        let breaks = segmenter_breaks(&self.segmenter, input);
        let ghost named = grapheme_breaks(input@);
        let mut clusters: Vec<Cluster> = Vec::new();
        let mut i: usize = 1;
        while i < breaks.len()
            invariant
                1 <= i <= breaks.len(),
                named == breaks@.map_values(|b: usize| b as int),
                clusters@.len() == i - 1,
                forall|k: int|
                    0 <= k < i - 1 ==> #[trigger] clusters@[k] == (Cluster {
                        start: breaks@[k],
                        end: breaks@[k + 1],
                    }),
            decreases breaks.len() - i,
        {
            clusters.push(Cluster { start: breaks[i - 1], end: breaks[i] });
            i += 1;
        }
        proof {
            assert(clusters@ =~= clusters_between(named));
        }
        clusters
    }
}

/// What goes to the shaping engine for one character: its code point and the
/// index of its cluster within the line.
#[derive(Debug, Clone, Copy, PartialEq, Eq, Structural)]
pub struct ShapeInput {
    pub code_point: u32,
    pub cluster: u32,
}

/// What comes from the shaping engine: a glyph and the index of the cluster
/// that it was shaped from.
#[derive(Debug, Clone, Copy, PartialEq, Eq, Structural)]
pub struct ShapedGlyph {
    pub cluster: u32,
    pub glyph: Glyph,
}

/// The glyphs of `shaped` that were shaped from cluster `cluster`, in their
/// order.
pub open spec fn glyphs_of(shaped: Seq<ShapedGlyph>, cluster: int) -> Seq<Glyph>
    decreases shaped.len(),
{
    if shaped.len() == 0 {
        Seq::empty()
    } else {
        let before = glyphs_of(shaped.drop_last(), cluster);
        if shaped.last().cluster == cluster {
            before.push(shaped.last().glyph)
        } else {
            before
        }
    }
}

/// What goes to the shaping engine for a cluster with the characters `chars`
/// and the index `cluster`.
pub open spec fn cluster_input(chars: Seq<char>, cluster: u32) -> Seq<ShapeInput> {
    chars.map_values(|c: char| ShapeInput { code_point: c as u32, cluster })
}

/// What goes to the shaping engine for the first `n` of the clusters
/// `clusters` of `text`: the characters of each cluster with the index of
/// the cluster, one cluster after the other.
pub open spec fn line_input(text: Seq<char>, clusters: Seq<Cluster>, n: int) -> Seq<ShapeInput>
    decreases n,
{
    if n <= 0 {
        Seq::empty()
    } else {
        line_input(text, clusters, n - 1) + cluster_input(
            chars_between(text, clusters[n - 1].start as int, clusters[n - 1].end as int),
            (n - 1) as u32,
        )
    }
}

/// The clusters of a line as they go to the shaping engine, and what comes
/// back sorted by cluster.
pub struct ShapeContext {
    input: Vec<ShapeInput>,
    cluster_count: u32,
}

/// What a [`ShapeContext`] holds, as mathematical values.
pub struct ShapeContextView {
    pub input: Seq<ShapeInput>,
    pub cluster_count: u32,
}

impl View for ShapeContext {
    type V = ShapeContextView;

    closed spec fn view(&self) -> ShapeContextView {
        ShapeContextView { input: self.input@, cluster_count: self.cluster_count }
    }
}

impl ShapeContext {
    /// A context without clusters.
    pub fn new() -> (context: ShapeContext)
        ensures
            context@ == (ShapeContextView { input: Seq::empty(), cluster_count: 0 }),
    {
        ShapeContext { input: Vec::new(), cluster_count: 0 }
    }

    /// Adds the characters of the next cluster. Its index is the number of
    /// clusters added before it.
    pub fn add_cluster(&mut self, cluster: &Vec<char>)
        requires
            old(self)@.cluster_count < u32::MAX,
        ensures
            final(self)@ == (ShapeContextView {
                input: old(self)@.input + cluster_input(cluster@, old(self)@.cluster_count),
                cluster_count: (old(self)@.cluster_count + 1) as u32,
            }),
    {
        let mut i: usize = 0;
        while i < cluster.len()
            invariant
                i <= cluster.len(),
                self.cluster_count == old(self).cluster_count,
                self.input@ == old(self).input@ + cluster_input(
                    cluster@.take(i as int),
                    self.cluster_count,
                ),
            decreases cluster.len() - i,
        {
            self.input.push(ShapeInput { code_point: cluster[i] as u32, cluster: self.cluster_count });
            proof {
                assert(cluster@.take(i + 1) =~= cluster@.take(i as int).push(cluster@[i as int]));
                assert(cluster_input(cluster@.take(i + 1), self.cluster_count) =~= cluster_input(
                    cluster@.take(i as int),
                    self.cluster_count,
                ).push(ShapeInput { code_point: cluster@[i as int] as u32, cluster: self.cluster_count }));
            }
            i += 1;
        }
        assert(cluster@.take(cluster.len() as int) =~= cluster@);
        self.cluster_count += 1;
    }

    /// Drops the clusters and adds the clusters `clusters` of `text`, in
    /// their order.
    pub fn add_line(&mut self, text: &Vec<char>, clusters: &Vec<Cluster>)
        requires
            clusters@.len() <= u32::MAX,
        ensures
            final(self)@ == (ShapeContextView {
                input: line_input(text@, clusters@, clusters@.len() as int),
                cluster_count: clusters@.len() as u32,
            }),
    {
        self.reset();
        let mut i: usize = 0;
        while i < clusters.len()
            invariant
                i <= clusters.len(),
                clusters@.len() <= u32::MAX,
                self@ == (ShapeContextView {
                    input: line_input(text@, clusters@, i as int),
                    cluster_count: i as u32,
                }),
            decreases clusters.len() - i,
        {
            let chars = cluster_text(text, &clusters[i]);
            self.add_cluster(&chars);
            i += 1;
        }
    }

    /// What goes to the shaping engine.
    pub fn input(&self) -> (input: &Vec<ShapeInput>)
        ensures
            input@ == self@.input,
    {
        &self.input
    }

    /// The number of clusters.
    pub fn cluster_count(&self) -> (count: u32)
        ensures
            count == self@.cluster_count,
    {
        self.cluster_count
    }

    /// Whether every glyph of `shaped` names one of the clusters.
    pub open spec fn spec_in_range(&self, shaped: Seq<ShapedGlyph>) -> bool {
        forall|i: int| 0 <= i < shaped.len() ==> (#[trigger] shaped[i]).cluster < self@.cluster_count
    }

    /// Tells whether every glyph of `shaped` names one of the clusters.
    pub fn in_range(&self, shaped: &Vec<ShapedGlyph>) -> (all: bool)
        ensures
            all == self.spec_in_range(shaped@),
    {
        let mut i: usize = 0;
        while i < shaped.len()
            invariant
                i <= shaped.len(),
                forall|k: int| 0 <= k < i ==> (#[trigger] shaped@[k]).cluster < self@.cluster_count,
            decreases shaped.len() - i,
        {
            if shaped[i].cluster >= self.cluster_count {
                return false;
            }
            i += 1;
        }
        true
    }

    /// Sorts what the shaping engine made of the clusters by cluster: for
    /// each cluster its glyphs, in their order.
    pub fn shape(&self, shaped: &Vec<ShapedGlyph>) -> (glyphs: Vec<Vec<Glyph>>)
        requires
            self.spec_in_range(shaped@),
        ensures
            glyphs@.len() == self@.cluster_count,
            forall|k: int| 0 <= k < glyphs@.len() ==> (#[trigger] glyphs@[k])@ == glyphs_of(shaped@, k),
    {
        let mut glyphs: Vec<Vec<Glyph>> = Vec::new();
        let mut k: u32 = 0;
        while k < self.cluster_count
            invariant
                k <= self.cluster_count,
                glyphs@.len() == k,
                forall|n: int| 0 <= n < k ==> (#[trigger] glyphs@[n])@ == Seq::<Glyph>::empty(),
            decreases self.cluster_count - k,
        {
            glyphs.push(Vec::new());
            k += 1;
        }
        let mut i: usize = 0;
        while i < shaped.len()
            invariant
                i <= shaped.len(),
                self.spec_in_range(shaped@),
                glyphs@.len() == self@.cluster_count,
                forall|n: int|
                    0 <= n < glyphs@.len() ==> (#[trigger] glyphs@[n])@ == glyphs_of(
                        shaped@.take(i as int),
                        n,
                    ),
            decreases shaped.len() - i,
        {
            let item = shaped[i];
            proof {
                assert(shaped@.take(i + 1).drop_last() =~= shaped@.take(i as int));
                assert(shaped@[i as int].cluster < self@.cluster_count);
            }
            glyphs[item.cluster as usize].push(item.glyph);
            i += 1;
        }
        assert(shaped@.take(shaped.len() as int) =~= shaped@);
        glyphs
    }

    /// Drops the clusters.
    pub fn reset(&mut self)
        ensures
            final(self)@ == (ShapeContextView { input: Seq::empty(), cluster_count: 0 }),
    {
        self.input.clear();
        self.cluster_count = 0;
    }
}

} // verus!
