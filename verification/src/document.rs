//! The text buffer and its parse pass: a font for each cluster, and the runs
//! of each line.

use crate::fonts::{
    clusters_cover, clusters_of, glyphs_of, line_input, Cluster, FontMetrics, Glyph, ParseContext,
    ShapeContext, ShapeInput, ShapedGlyph,
};
use crate::layout::{lines_with_run, Layout, LineView, RunView};
use ropey::Rope;
use vstd::prelude::*;

verus! {

/// How many glyphs of `glyphs` the font has, that is how many have an id other
/// than zero.
pub open spec fn complete_count(glyphs: Seq<Glyph>) -> nat
    decreases glyphs.len(),
{
    if glyphs.len() == 0 {
        0
    } else {
        complete_count(glyphs.drop_last()) + if glyphs.last().id != 0 {
            1nat
        } else {
            0nat
        }
    }
}

/// The denominator of a cluster's completeness: its number of glyphs, and one
/// for a cluster without glyphs, whose completeness is thereby zero.
pub open spec fn completeness_denominator(glyphs: Seq<Glyph>) -> nat {
    if glyphs.len() == 0 {
        1
    } else {
        glyphs.len()
    }
}

/// Whether the completeness of `a`, the share of its glyphs that the font
/// has, is below that of `b`.
pub open spec fn less_complete(a: Seq<Glyph>, b: Seq<Glyph>) -> bool {
    complete_count(a) * completeness_denominator(b) < complete_count(b) * completeness_denominator(
        a,
    )
}

/// Whether `a` and `b` are equally complete.
pub open spec fn equally_complete(a: Seq<Glyph>, b: Seq<Glyph>) -> bool {
    complete_count(a) * completeness_denominator(b) == complete_count(b) * completeness_denominator(
        a,
    )
}

/// Whether the shaped cluster `a` is preferred to `b`: it is more complete,
/// or as complete with fewer glyphs.
pub open spec fn outranks(a: Seq<Glyph>, b: Seq<Glyph>) -> bool {
    less_complete(b, a) || (equally_complete(a, b) && a.len() < b.len())
}

/// Whether font `f` is the choice among `candidates`, one shaped cluster for
/// each font: no candidate is preferred to it, and it is preferred to every
/// candidate before it.
pub open spec fn is_selected(candidates: Seq<Seq<Glyph>>, f: int) -> bool {
    &&& 0 <= f < candidates.len()
    &&& forall|g: int| 0 <= g < candidates.len() ==> !outranks(#[trigger] candidates[g], candidates[f])
    &&& forall|g: int| 0 <= g < f ==> outranks(candidates[f], #[trigger] candidates[g])
}

/// The font chosen among `candidates`.
pub open spec fn selected(candidates: Seq<Seq<Glyph>>) -> int {
    choose|f: int| is_selected(candidates, f)
}

/// A completeness is never above one.
pub proof fn lemma_complete_count_bound(glyphs: Seq<Glyph>)
    ensures
        complete_count(glyphs) <= glyphs.len(),
    decreases glyphs.len(),
{
    if glyphs.len() > 0 {
        lemma_complete_count_bound(glyphs.drop_last());
    }
}

/// The preference is a strict order in which being unranked is transitive:
/// what outranks `b` also outranks everything that does not outrank `b`.
pub proof fn lemma_outranks_chain(a: Seq<Glyph>, b: Seq<Glyph>, c: Seq<Glyph>)
    ensures
        !outranks(a, a),
        outranks(a, b) ==> !outranks(b, a),
        outranks(a, b) && !outranks(c, b) ==> outranks(a, c),
        outranks(a, b) && outranks(b, c) ==> outranks(a, c),
        !outranks(a, b) && !outranks(b, c) ==> !outranks(a, c),
{
    let (ca, da, na) = (complete_count(a) as int, completeness_denominator(a) as int, a.len() as int);
    let (cb, db, nb) = (complete_count(b) as int, completeness_denominator(b) as int, b.len() as int);
    let (cc, dc, nc) = (complete_count(c) as int, completeness_denominator(c) as int, c.len() as int);
    assert(da > 0 && db > 0 && dc > 0);
    // The three products are compared through a common denominator.
    assert(ca * db < cb * da && cb * dc <= cc * db ==> ca * dc < cc * da) by (nonlinear_arith)
        requires
            da > 0,
            db > 0,
            dc > 0,
            ca >= 0,
            cb >= 0,
            cc >= 0,
    ;
    assert(ca * db <= cb * da && cb * dc < cc * db ==> ca * dc < cc * da) by (nonlinear_arith)
        requires
            da > 0,
            db > 0,
            dc > 0,
            ca >= 0,
            cb >= 0,
            cc >= 0,
    ;
    assert(ca * db <= cb * da && cb * dc <= cc * db ==> ca * dc <= cc * da) by (nonlinear_arith)
        requires
            da > 0,
            db > 0,
            dc > 0,
            ca >= 0,
            cb >= 0,
            cc >= 0,
    ;
    assert(cc * db < cb * dc && cb * da <= ca * db ==> cc * da < ca * dc) by (nonlinear_arith)
        requires
            da > 0,
            db > 0,
            dc > 0,
            ca >= 0,
            cb >= 0,
            cc >= 0,
    ;
    assert(cc * db <= cb * dc && cb * da < ca * db ==> cc * da < ca * dc) by (nonlinear_arith)
        requires
            da > 0,
            db > 0,
            dc > 0,
            ca >= 0,
            cb >= 0,
            cc >= 0,
    ;
    assert(cc * db <= cb * dc && cb * da <= ca * db ==> cc * da <= ca * dc) by (nonlinear_arith)
        requires
            da > 0,
            db > 0,
            dc > 0,
            ca >= 0,
            cb >= 0,
            cc >= 0,
    ;
}

/// Among given candidates at most one font is the choice.
pub proof fn lemma_selected_unique(candidates: Seq<Seq<Glyph>>, f: int, g: int)
    requires
        is_selected(candidates, f),
        is_selected(candidates, g),
    ensures
        f == g,
{
    if f < g {
        assert(outranks(candidates[g], candidates[f]));
        assert(!outranks(candidates[g], candidates[f]));
    } else if g < f {
        assert(outranks(candidates[f], candidates[g]));
        assert(!outranks(candidates[f], candidates[g]));
    }
}

/// Counts the glyphs with an id other than zero.
pub fn count_complete(glyphs: &Vec<Glyph>) -> (count: usize)
    ensures
        count == complete_count(glyphs@),
{
    let mut count: usize = 0;
    let mut i: usize = 0;
    while i < glyphs.len()
        invariant
            i <= glyphs.len(),
            count == complete_count(glyphs@.take(i as int)),
            count <= i,
        decreases glyphs.len() - i,
    {
        proof {
            assert(glyphs@.take(i as int + 1).drop_last() =~= glyphs@.take(i as int));
        }
        if glyphs[i].id != 0 {
            count += 1;
        }
        i += 1;
    }
    assert(glyphs@.take(glyphs.len() as int) =~= glyphs@);
    count
}

/// Tells whether the shaped cluster `a` is preferred to `b`.
pub fn prefer(a: &Vec<Glyph>, b: &Vec<Glyph>) -> (r: bool)
    ensures
        r == outranks(a@, b@),
{
    let ca = count_complete(a) as u128;
    let cb = count_complete(b) as u128;
    let da = if a.len() == 0 { 1u128 } else { a.len() as u128 };
    let db = if b.len() == 0 { 1u128 } else { b.len() as u128 };
    proof {
        lemma_complete_count_bound(a@);
        lemma_complete_count_bound(b@);
        assert(ca * db <= 0xffff_ffff_ffff_ffff * 0xffff_ffff_ffff_ffff) by (nonlinear_arith)
            requires
                ca <= 0xffff_ffff_ffff_ffff,
                db <= 0xffff_ffff_ffff_ffff,
        ;
        assert(cb * da <= 0xffff_ffff_ffff_ffff * 0xffff_ffff_ffff_ffff) by (nonlinear_arith)
            requires
                cb <= 0xffff_ffff_ffff_ffff,
                da <= 0xffff_ffff_ffff_ffff,
        ;
    }
    let left = ca * db;
    let right = cb * da;
    right < left || (left == right && a.len() < b.len())
}

/// The glyphs in `shapes` by font and cluster, as mathematical values.
pub open spec fn table(shapes: Seq<Vec<Vec<Glyph>>>) -> Seq<Seq<Seq<Glyph>>> {
    shapes.map_values(|font: Vec<Vec<Glyph>>| font@.map_values(|cluster: Vec<Glyph>| cluster@))
}

/// The shaped clusters that the fonts offer for cluster `cluster`, one for
/// each font, in the order of the fonts.
pub open spec fn candidates(shapes: Seq<Seq<Seq<Glyph>>>, cluster: int) -> Seq<Seq<Glyph>> {
    Seq::new(shapes.len(), |f: int| shapes[f][cluster])
}

/// Picks the font for cluster `cluster`: the most complete one, among equally
/// complete ones that with the fewest glyphs, and among those the first.
/// Where no font has a glyph for the cluster, this is the first of the fonts
/// with the fewest glyphs, and its "no glyph" entries stand for the cluster.
pub fn select_font(shapes: &Vec<Vec<Vec<Glyph>>>, cluster: usize) -> (font: usize)
    requires
        shapes.len() > 0,
        forall|f: int| 0 <= f < shapes.len() ==> cluster < (#[trigger] shapes[f]).len(),
    ensures
        is_selected(candidates(table(shapes@), cluster as int), font as int),
        font == selected(candidates(table(shapes@), cluster as int)),
{
    let ghost all = candidates(table(shapes@), cluster as int);
    let mut best: usize = 0;
    let mut f: usize = 1;
    proof {
        lemma_outranks_chain(all[0], all[0], all[0]);
    }
    while f < shapes.len()
        invariant
            1 <= f <= shapes.len(),
            best < f,
            all == candidates(table(shapes@), cluster as int),
            forall|g: int| 0 <= g < shapes.len() ==> cluster < (#[trigger] shapes[g]).len(),
            forall|g: int| 0 <= g < shapes.len() ==> #[trigger] all[g] == shapes[g]@[cluster as int]@,
            forall|g: int| 0 <= g < f ==> !outranks(#[trigger] all[g], all[best as int]),
            forall|g: int| 0 <= g < best ==> outranks(all[best as int], #[trigger] all[g]),
        decreases shapes.len() - f,
    {
        let better = prefer(&shapes[f][cluster], &shapes[best][cluster]);
        proof {
            assert forall|g: int| 0 <= g <= f implies (if better {
                !outranks(#[trigger] all[g], all[f as int])
            } else {
                !outranks(all[g], all[best as int])
            }) by {
                lemma_outranks_chain(all[f as int], all[best as int], all[g]);
                lemma_outranks_chain(all[g], all[f as int], all[best as int]);
                lemma_outranks_chain(all[f as int], all[f as int], all[f as int]);
            }
            assert forall|g: int| 0 <= g < f && better implies outranks(
                all[f as int],
                #[trigger] all[g],
            ) by {
                lemma_outranks_chain(all[f as int], all[best as int], all[g]);
            }
        }
        if better {
            best = f;
        }
        f += 1;
    }
    proof {
        assert(is_selected(all, best as int));
        let other = selected(all);
        lemma_selected_unique(all, best as int, other);
    }
    best
}

/// Consecutive clusters of a line on one font: the font, the bytes
/// `start..end` and the glyphs.
pub struct Span {
    pub font_index: usize,
    pub start: usize,
    pub end: usize,
    pub glyphs: Seq<Glyph>,
}

/// Each cluster of a line as a span of its own: the font chosen for it, its
/// bytes and the glyphs that this font shaped it to.
pub open spec fn picks(clusters: Seq<Cluster>, shapes: Seq<Seq<Seq<Glyph>>>) -> Seq<Span> {
    Seq::new(
        clusters.len(),
        |i: int|
            {
                let font = selected(candidates(shapes, i));
                Span {
                    font_index: font as usize,
                    start: clusters[i].start,
                    end: clusters[i].end,
                    glyphs: shapes[font][i],
                }
            },
    )
}

/// The run that is being built when the first `n` clusters have been seen:
/// none before the first cluster, then the clusters since the font last
/// changed.
pub open spec fn open_span(picks: Seq<Span>, n: int) -> Option<Span>
    recommends
        0 <= n <= picks.len(),
    decreases n,
{
    if n <= 0 {
        None
    } else {
        let pick = picks[n - 1];
        match open_span(picks, n - 1) {
            Some(open) if open.font_index == pick.font_index => Some(
                Span {
                    font_index: open.font_index,
                    start: open.start,
                    end: pick.end,
                    glyphs: open.glyphs + pick.glyphs,
                },
            ),
            _ => Some(pick),
        }
    }
}

/// The runs that are complete when the first `n` clusters have been seen. A
/// run is complete once a cluster on another font follows it, and is kept if
/// it has a glyph.
pub open spec fn closed_spans(picks: Seq<Span>, n: int) -> Seq<Span>
    recommends
        0 <= n <= picks.len(),
    decreases n,
{
    if n <= 0 {
        Seq::empty()
    } else {
        let before = closed_spans(picks, n - 1);
        match open_span(picks, n - 1) {
            Some(open) if open.font_index != picks[n - 1].font_index && open.glyphs.len() > 0 => {
                before.push(open)
            },
            _ => before,
        }
    }
}

/// The runs of a line whose clusters are `picks`: the complete runs, and the
/// last one if it has a glyph.
pub open spec fn line_spans(picks: Seq<Span>) -> Seq<Span> {
    let closed = closed_spans(picks, picks.len() as int);
    match open_span(picks, picks.len() as int) {
        Some(open) if open.glyphs.len() > 0 => closed.push(open),
        _ => closed,
    }
}

/// The lines `lines` after each of `spans` was given to line `line_no` as a
/// run of size `size` with the metrics of its font.
pub open spec fn lines_with_spans(
    lines: Seq<LineView>,
    line_no: int,
    spans: Seq<Span>,
    size: u32,
    fonts: Seq<FontMetrics>,
) -> Seq<LineView>
    decreases spans.len(),
{
    if spans.len() == 0 {
        lines
    } else {
        let span = spans.last();
        lines_with_run(
            lines_with_spans(lines, line_no, spans.drop_last(), size, fonts),
            line_no,
            RunView {
                font_index: span.font_index,
                start: span.start,
                end: span.end,
                glyphs: span.glyphs,
                size,
                metrics: fonts[span.font_index as int],
            },
        )
    }
}

/// Whether each cluster begins where the one before it ends, and none ends
/// before it begins.
pub open spec fn contiguous(picks: Seq<Span>) -> bool {
    &&& forall|i: int| 0 <= i < picks.len() ==> (#[trigger] picks[i]).start <= picks[i].end
    &&& forall|i: int| 0 <= i < picks.len() - 1 ==> (#[trigger] picks[i]).end == picks[i + 1].start
}

/// Whether cluster `i` is the last of its group, a group being consecutive
/// clusters on one font that no neighbour on that font extends.
pub open spec fn ends_group(picks: Seq<Span>, i: int) -> bool {
    i == picks.len() - 1 || picks[i + 1].font_index != picks[i].font_index
}

/// The number of glyphs of cluster `i` and of the clusters of its group
/// before it.
pub open spec fn group_glyphs(picks: Seq<Span>, i: int) -> nat
    decreases i,
{
    if i < 0 {
        0
    } else if i > 0 && picks[i - 1].font_index == picks[i].font_index {
        group_glyphs(picks, i - 1) + picks[i].glyphs.len()
    } else {
        picks[i].glyphs.len()
    }
}

/// Whether every group of clusters has a glyph. A group without one leaves no
/// run, and its bytes are then in no run.
pub open spec fn no_empty_group(picks: Seq<Span>) -> bool {
    forall|i: int| 0 <= i < picks.len() && #[trigger] ends_group(picks, i) ==> group_glyphs(picks, i) > 0
}

/// Whether `runs` follow one another without gap or overlap from byte `start`
/// to byte `end`.
pub open spec fn partitions(runs: Seq<Span>, start: int, end: int) -> bool {
    &&& runs.len() > 0
    &&& runs[0].start == start
    &&& runs.last().end == end
    &&& forall|k: int| 0 <= k < runs.len() ==> (#[trigger] runs[k]).start <= runs[k].end
    &&& forall|k: int| 0 <= k < runs.len() - 1 ==> (#[trigger] runs[k]).end == runs[k + 1].start
}

/// What holds of the run being built and of the complete runs after the
/// first `n` clusters, as long as no group so far was without a glyph.
proof fn lemma_spans_prefix(picks: Seq<Span>, n: int)
    requires
        1 <= n <= picks.len(),
        contiguous(picks),
        forall|i: int|
            0 <= i < n - 1 && picks[i + 1].font_index != picks[i].font_index ==> #[trigger] group_glyphs(
                picks,
                i,
            ) > 0,
    ensures
        open_span(picks, n) matches Some(open) && {
            let closed = closed_spans(picks, n);
            &&& open.font_index == picks[n - 1].font_index
            &&& open.end == picks[n - 1].end
            &&& open.start <= picks[n - 1].start
            &&& open.glyphs.len() == group_glyphs(picks, n - 1)
            &&& closed.len() == 0 ==> open.start == picks[0].start
            &&& closed.len() > 0 ==> partitions(closed, picks[0].start as int, open.start as int)
        },
    decreases n,
{
    if n == 1 {
        assert(open_span(picks, 0) is None);
        assert(open_span(picks, 1) == Some(picks[0]));
        assert(closed_spans(picks, 0).len() == 0);
        assert(closed_spans(picks, 1).len() == 0);
    } else {
        lemma_spans_prefix(picks, n - 1);
        let before = open_span(picks, n - 1)->0;
        let closed_before = closed_spans(picks, n - 1);
        let closed = closed_spans(picks, n);
        let pick = picks[n - 1];
        let open = open_span(picks, n)->0;
        assert(picks[n - 2].end == pick.start);
        assert(picks[n - 2].start <= picks[n - 2].end);
        if before.font_index != pick.font_index {
            assert(group_glyphs(picks, n - 2) > 0);
            assert(open == pick);
            assert(closed == closed_before.push(before));
            assert(closed.last() == before);
            assert(closed[0].start == picks[0].start) by {
                if closed_before.len() > 0 {
                    assert(closed[0] == closed_before[0]);
                }
            }
            assert forall|k: int| 0 <= k < closed.len() implies (#[trigger] closed[k]).start
                <= closed[k].end by {
                if k < closed_before.len() {
                    assert(closed[k] == closed_before[k]);
                }
            }
            assert forall|k: int| 0 <= k < closed.len() - 1 implies (#[trigger] closed[k]).end
                == closed[k + 1].start by {
                assert(closed[k] == closed_before[k]);
                if k < closed_before.len() - 1 {
                    assert(closed[k + 1] == closed_before[k + 1]);
                }
            }
        } else {
            assert(closed == closed_before);
            assert(open.start == before.start);
            assert(open.glyphs.len() == before.glyphs.len() + pick.glyphs.len());
        }
    }
}

/// The runs of a line partition its bytes: where the clusters follow one
/// another from the first byte of the line's segmented text to its last, and
/// every group of clusters has a glyph, the runs follow one another over the
/// same bytes, without gap or overlap.
pub proof fn lemma_runs_partition(picks: Seq<Span>)
    requires
        picks.len() > 0,
        contiguous(picks),
        no_empty_group(picks),
    ensures
        partitions(line_spans(picks), picks[0].start as int, picks.last().end as int),
{
    let n = picks.len() as int;
    assert forall|i: int|
        0 <= i < n - 1 && picks[i + 1].font_index != picks[i].font_index implies #[trigger] group_glyphs(
        picks,
        i,
    ) > 0 by {
        assert(ends_group(picks, i));
    }
    lemma_spans_prefix(picks, n);
    assert(ends_group(picks, n - 1));
    let open = open_span(picks, n)->0;
    let closed = closed_spans(picks, n);
    let runs = line_spans(picks);
    assert(runs == closed.push(open));
    assert forall|k: int| 0 <= k < runs.len() - 1 implies (#[trigger] runs[k]).end == runs[k
        + 1].start by {
        if k < closed.len() - 1 {
            assert(runs[k] == closed[k]);
            assert(runs[k + 1] == closed[k + 1]);
        }
    }
}

/// The glyphs of `spans`, one span after the other.
pub open spec fn glyphs_in(spans: Seq<Span>) -> Seq<Glyph>
    decreases spans.len(),
{
    if spans.len() == 0 {
        Seq::empty()
    } else {
        glyphs_in(spans.drop_last()) + spans.last().glyphs
    }
}

/// The glyphs of the complete runs and of the run being built, after the
/// first `n` clusters, are the glyphs of those clusters.
proof fn lemma_glyphs_prefix(picks: Seq<Span>, n: int)
    requires
        0 <= n <= picks.len(),
    ensures
        glyphs_in(closed_spans(picks, n)) + (match open_span(picks, n) {
            Some(open) => open.glyphs,
            None => Seq::empty(),
        }) == glyphs_in(picks.take(n)),
    decreases n,
{
    if n > 0 {
        lemma_glyphs_prefix(picks, n - 1);
        let closed = closed_spans(picks, n - 1);
        let pick = picks[n - 1];
        assert(picks.take(n).drop_last() =~= picks.take(n - 1));
        assert(picks.take(n).last() == pick);
        match open_span(picks, n - 1) {
            Some(open) => {
                if open.font_index == pick.font_index {
                    assert(glyphs_in(closed) + (open.glyphs + pick.glyphs) =~= (glyphs_in(closed)
                        + open.glyphs) + pick.glyphs);
                } else if open.glyphs.len() > 0 {
                    assert(closed.push(open).drop_last() =~= closed);
                } else {
                    assert(glyphs_in(closed) + open.glyphs =~= glyphs_in(closed));
                }
            },
            None => {
                assert(glyphs_in(closed) + Seq::<Glyph>::empty() =~= glyphs_in(closed));
            },
        }
    } else {
        assert(picks.take(0) =~= Seq::<Span>::empty());
        assert(glyphs_in(Seq::<Span>::empty()) + Seq::<Glyph>::empty() =~= Seq::<Glyph>::empty());
    }
}

/// No glyph is lost: the glyphs of the runs of a line, one run after the
/// other, are the glyphs of its clusters, one cluster after the other.
pub proof fn lemma_runs_keep_glyphs(picks: Seq<Span>)
    ensures
        glyphs_in(line_spans(picks)) == glyphs_in(picks),
{
    let n = picks.len() as int;
    lemma_glyphs_prefix(picks, n);
    assert(picks.take(n) =~= picks);
    let closed = closed_spans(picks, n);
    match open_span(picks, n) {
        Some(open) => {
            if open.glyphs.len() > 0 {
                assert(closed.push(open).drop_last() =~= closed);
            } else {
                assert(glyphs_in(closed) + open.glyphs =~= glyphs_in(closed));
            }
        },
        None => {
            assert(glyphs_in(closed) + Seq::<Glyph>::empty() =~= glyphs_in(closed));
        },
    }
}

/// The runs of a line of text partition it: where the clusters of the line
/// cover its `len` bytes and every group of clusters has a glyph, the runs
/// follow one another from byte 0 to byte `len`, without gap or overlap.
pub proof fn lemma_line_partition(clusters: Seq<Cluster>, shapes: Seq<Seq<Seq<Glyph>>>, len: int)
    requires
        clusters.len() > 0,
        clusters_cover(clusters, len),
        no_empty_group(picks(clusters, shapes)),
    ensures
        partitions(line_spans(picks(clusters, shapes)), 0, len),
{
    let all = picks(clusters, shapes);
    assert forall|i: int| 0 <= i < all.len() implies (#[trigger] all[i]).start <= all[i].end by {
        assert(clusters[i].start < clusters[i].end);
    }
    assert forall|i: int| 0 <= i < all.len() - 1 implies (#[trigger] all[i]).end == all[i
        + 1].start by {
        assert(clusters[i].end == clusters[i + 1].start);
    }
    lemma_runs_partition(all);
}

/// A font that has every glyph of a cluster is preferred to one that lacks a
/// glyph, and of two fonts that have every glyph the one with fewer glyphs
/// is preferred.
pub proof fn lemma_complete_preferred(a: Seq<Glyph>, b: Seq<Glyph>)
    requires
        a.len() > 0,
        complete_count(a) == a.len(),
    ensures
        b.len() > 0 && complete_count(b) < b.len() ==> outranks(a, b),
        complete_count(b) == b.len() && a.len() < b.len() ==> outranks(a, b),
{
    lemma_complete_count_bound(b);
    let (ca, da) = (complete_count(a) as int, completeness_denominator(a) as int);
    let (cb, db) = (complete_count(b) as int, completeness_denominator(b) as int);
    assert(ca == da);
    if b.len() > 0 && cb < db {
        assert(cb * da < ca * db) by (nonlinear_arith)
            requires
                ca == da,
                0 <= cb < db,
                da > 0,
        ;
    }
    if cb == b.len() && a.len() < b.len() {
        assert(ca * db == cb * da) by (nonlinear_arith)
            requires
                ca == da,
                cb == db,
        ;
    }
}

/// Appends copies of `more` to `glyphs`.
fn append_glyphs(glyphs: &mut Vec<Glyph>, more: &Vec<Glyph>)
    ensures
        final(glyphs)@ == old(glyphs)@ + more@,
{
    let mut i: usize = 0;
    while i < more.len()
        invariant
            i <= more.len(),
            glyphs@ == old(glyphs)@ + more@.take(i as int),
        decreases more.len() - i,
    {
        glyphs.push(more[i]);
        proof {
            assert(more@.take(i as int + 1) =~= more@.take(i as int).push(more@[i as int]));
        }
        i += 1;
    }
    assert(more@.take(more.len() as int) =~= more@);
}

/// Gives line `line_no` of `layout` the runs of one line of text. `clusters`
/// are the line's clusters and `shapes` holds, for each font and each
/// cluster, the glyphs that the font shaped the cluster to. Each cluster goes
/// to the font that [`select_font`] picks; a run ends where the font changes,
/// and a run without any glyph is not kept.
pub fn layout_line(
    layout: &mut Layout,
    line_no: usize,
    clusters: &Vec<Cluster>,
    shapes: &Vec<Vec<Vec<Glyph>>>,
    size: u32,
    fonts: &Vec<FontMetrics>,
)
    requires
        line_no < usize::MAX,
        shapes.len() > 0,
        fonts.len() == shapes.len(),
        forall|f: int| 0 <= f < shapes.len() ==> (#[trigger] shapes[f]).len() == clusters.len(),
    ensures
        final(layout)@ == lines_with_spans(
            old(layout)@,
            line_no as int,
            line_spans(picks(clusters@, table(shapes@))),
            size,
            fonts@,
        ),
{
    let ghost all = picks(clusters@, table(shapes@));
    let ghost before = layout@;
    let mut open: Option<(usize, usize, usize)> = None;
    let mut glyphs: Vec<Glyph> = Vec::new();
    let mut i: usize = 0;
    while i < clusters.len()
        invariant
            i <= clusters.len(),
            line_no < usize::MAX,
            shapes.len() > 0,
            fonts.len() == shapes.len(),
            forall|f: int| 0 <= f < shapes.len() ==> (#[trigger] shapes[f]).len() == clusters.len(),
            all == picks(clusters@, table(shapes@)),
            layout@ == lines_with_spans(before, line_no as int, closed_spans(all, i as int), size, fonts@),
            match open {
                None => open_span(all, i as int) is None && glyphs@.len() == 0,
                Some((font, start, end)) => open_span(all, i as int) == Some(
                    Span { font_index: font, start, end, glyphs: glyphs@ },
                ) && font < fonts.len(),
            },
        decreases clusters.len() - i,
    {
        let font = select_font(shapes, i);
        let cluster = clusters[i];
        proof {
            assert(all[i as int].font_index == font);
            assert(all[i as int].glyphs == shapes[font as int]@[i as int]@);
        }
        let ghost closed = closed_spans(all, i as int);
        match open {
            Some((prev_font, start, _)) if prev_font == font => {
                open = Some((prev_font, start, cluster.end));
            },
            Some((prev_font, start, end)) => {
                if glyphs.len() > 0 {
                    let ghost span = Span { font_index: prev_font, start, end, glyphs: glyphs@ };
                    layout.push_run(line_no, prev_font, start..end, glyphs, size, fonts[prev_font]);
                    glyphs = Vec::new();
                    proof {
                        assert(closed.push(span).drop_last() =~= closed);
                    }
                }
                open = Some((font, cluster.start, cluster.end));
            },
            None => {
                open = Some((font, cluster.start, cluster.end));
            },
        }
        let ghost kept = glyphs@;
        append_glyphs(&mut glyphs, &shapes[font][i]);
        proof {
            assert(kept.len() == 0 ==> glyphs@ =~= shapes[font as int]@[i as int]@);
        }
        i += 1;
    }
    match open {
        Some((font, start, end)) => {
            if glyphs.len() > 0 {
                let ghost closed = closed_spans(all, i as int);
                let ghost span = Span { font_index: font, start, end, glyphs: glyphs@ };
                layout.push_run(line_no, font, start..end, glyphs, size, fonts[font]);
                proof {
                    assert(closed.push(span).drop_last() =~= closed);
                }
            }
        },
        None => {},
    }
}

#[verifier::external_type_specification]
#[verifier::external_body]
pub struct ExRope(Rope);

/// The lines of the text that a rope holds, each with the line break that
/// ends it. A text has at least one line, and a text that ends with a line
/// break has an empty line behind it.
pub uninterp spec fn rope_lines(rope: Rope) -> Seq<Seq<char>>;

/// The lines of `text` as ropey splits it.
pub uninterp spec fn text_lines(text: Seq<char>) -> Seq<Seq<char>>;

/// `Rope::from_str` of ropey: a rope that holds `text`.
#[verifier::external_body]
fn rope_from_str(text: &str) -> (rope: Rope)
    ensures
        rope_lines(rope) == text_lines(text@),
{
    Rope::from_str(text)
}

/// `Rope::len_lines` of ropey: the number of lines, which is at least one.
#[verifier::external_body]
fn rope_len_lines(rope: &Rope) -> (count: usize)
    ensures
        count == rope_lines(*rope).len(),
        count >= 1,
{
    rope.len_lines()
}

/// `Rope::line` of ropey, with the characters of the line in a vector.
#[verifier::external_body]
fn rope_line(rope: &Rope, line: usize) -> (chars: Vec<char>)
    requires
        line < rope_lines(*rope).len(),
    ensures
        chars@ == rope_lines(*rope)[line as int],
{
    rope.line(line).chars().collect()
}

/// The characters of a line that are shaped: all but carriage returns and
/// line feeds.
pub open spec fn visible_chars(line: Seq<char>) -> Seq<char> {
    line.filter(|c: char| c != '\r' && c != '\n')
}

/// Whether a line ends with a line feed.
pub open spec fn ends_with_line_feed(line: Seq<char>) -> bool {
    line.len() > 0 && line.last() == '\n'
}

/// Splits a line into the characters that are shaped, and whether the line
/// ends with a line feed.
pub fn split_line(line: &Vec<char>) -> (parts: (Vec<char>, bool))
    ensures
        parts.0@ == visible_chars(line@),
        parts.1 == ends_with_line_feed(line@),
{
    let mut visible: Vec<char> = Vec::new();
    let mut i: usize = 0;
    while i < line.len()
        invariant
            i <= line.len(),
            visible@ == visible_chars(line@.take(i as int)),
        decreases line.len() - i,
    {
        proof {
            assert(line@.take(i + 1).drop_last() =~= line@.take(i as int));
            reveal(Seq::filter);
        }
        let c = line[i];
        if c != '\r' && c != '\n' {
            visible.push(c);
        }
        i += 1;
    }
    assert(line@.take(line.len() as int) =~= line@);
    let has_linebreak = line.len() > 0 && line[line.len() - 1] == '\n';
    (visible, has_linebreak)
}

/// Why a parse pass ended early.
#[derive(Debug, Clone, Copy, PartialEq, Eq, Structural)]
pub enum ParseError {
    /// The shaping engine, shaping line `line` for font `font`, returned a
    /// glyph for a cluster that the line does not have.
    ClusterOutOfRange { line: usize, font: usize },
    /// The text is too large at line `line`: the line has more clusters
    /// than the shaping buffer can count, or the layout more lines than a
    /// line number.
    TooLarge { line: usize },
}

/// A text and the layout of its lines.
pub struct Document {
    rope: Rope,
    pub layout: Layout,
    is_dirty: bool,
}

impl Document {
    /// The lines of the text, each with the line break that ends it.
    pub closed spec fn lines(&self) -> Seq<Seq<char>> {
        rope_lines(self.rope)
    }

    /// Whether the text was not parsed since it was set.
    pub closed spec fn spec_is_dirty(&self) -> bool {
        self.is_dirty
    }

    /// The lines of the layout.
    pub closed spec fn spec_layout(&self) -> Seq<LineView> {
        self.layout@
    }

    /// The layout of the text.
    pub fn layout(&self) -> (layout: &Layout)
        ensures
            layout@ == self.spec_layout(),
    {
        &self.layout
    }

    /// Sets the metrics of every line of the layout from its runs, as
    /// [`Layout::finish`] does.
    pub fn finish(&mut self)
        ensures
            final(self).lines() == old(self).lines(),
            final(self).spec_is_dirty() == old(self).spec_is_dirty(),
            final(self).spec_layout() == old(self).spec_layout().map_values(
                |l: LineView| l.finished(),
            ),
    {
        self.layout.finish();
    }

    /// A document of `text`, without layout and due for a parse pass.
    pub fn from_str(text: &str) -> (document: Document)
        ensures
            document.lines() == text_lines(text@),
            document.spec_layout() == Seq::<LineView>::empty(),
            document.spec_is_dirty(),
    {
        Document { rope: rope_from_str(text), layout: Layout::new(), is_dirty: true }
    }

    /// Whether the text was not parsed since it was set.
    #[verifier::when_used_as_spec(spec_is_dirty)]
    pub fn is_dirty(&self) -> (dirty: bool)
        ensures
            dirty == self.spec_is_dirty(),
    {
        self.is_dirty
    }

    /// The number of lines of the text, which is at least one.
    pub fn line_count(&self) -> (count: usize)
        ensures
            count == self.lines().len(),
            count >= 1,
    {
        rope_len_lines(&self.rope)
    }

    /// The characters of line `line`, with the line break that ends it.
    pub fn line(&self, line: usize) -> (chars: Vec<char>)
        requires
            line < self.lines().len(),
        ensures
            chars@ == self.lines()[line as int],
    {
        rope_line(&self.rope, line)
    }

    /// Lays the text out anew, if it was not parsed since it was set: the
    /// runs of the layout are dropped, and line by line the text is
    /// segmented into clusters, the clusters are shaped for every font by
    /// `shape`, and the runs that [`layout_line`] makes of them are added.
    /// The runs of the first line of the text go to line 1 of the layout, and
    /// those of each line after a line feed to the next line.
    ///
    /// `shape` is called with the index of a font and with the characters of
    /// a line's clusters; it returns the glyphs that the font makes of them.
    /// A glyph for a cluster that the line does not have ends the pass with
    /// an error, and the document stays due for a parse pass.
    #[verifier::loop_isolation(false)]
    pub fn parse<F: Fn(usize, &Vec<ShapeInput>) -> Vec<ShapedGlyph>>(
        &mut self,
        segmenter: &ParseContext,
        fonts: &Vec<FontMetrics>,
        size: u32,
        shape: F,
    ) -> (result: Result<(), ParseError>)
        requires
            fonts.len() > 0,
            forall|font: usize, input: &Vec<ShapeInput>| call_requires(shape, (font, input)),
        ensures
            final(self).lines() == old(self).lines(),
            final(self).spec_layout().len() >= old(self).spec_layout().len(),
            !old(self).spec_is_dirty() ==> result is Ok && final(self).spec_layout() == old(
                self,
            ).spec_layout(),
            final(self).spec_is_dirty() == (result is Err),
            old(self).spec_is_dirty() && result is Ok ==> exists|shaped: Seq<Seq<Seq<ShapedGlyph>>>|
                {
                    &&& shaped_lines(shape, old(self).lines(), shaped, fonts@.len() as int)
                    &&& final(self).spec_layout() == parsed(
                        old(self).lines(),
                        shaped,
                        old(self).lines().len() as int,
                        old(self).spec_layout().map_values(|l: LineView| l.cleared()),
                        size,
                        fonts@,
                    ).0
                },
            match result {
                Err(ParseError::ClusterOutOfRange { line, font }) => {
                    &&& line < old(self).lines().len()
                    &&& font < fonts@.len()
                    &&& exists|glyphs: Seq<ShapedGlyph>|
                        {
                            &&& shaped_by(
                                shape,
                                font,
                                text_input(old(self).lines()[line as int]),
                                glyphs,
                            )
                            &&& !in_range(
                                glyphs,
                                text_clusters(old(self).lines()[line as int]).len() as int,
                            )
                        }
                },
                Err(ParseError::TooLarge { line }) => {
                    &&& line < old(self).lines().len()
                    &&& text_clusters(old(self).lines()[line as int]).len() > u32::MAX || line + 1
                        == usize::MAX
                },
                Ok(_) => true,
            },
    {
        if !self.is_dirty {
            return Ok(());
        }
        self.layout.reset();
        let ghost texts = rope_lines(self.rope);
        let ghost start = self.layout@;
        let ghost mut shaped: Seq<Seq<Seq<ShapedGlyph>>> = Seq::empty();
        let lines = rope_len_lines(&self.rope);
        let mut context = ShapeContext::new();
        let mut line_no: usize = 1;
        let mut line: usize = 0;
        while line < lines
            invariant
                line <= lines,
                lines == texts.len(),
                self.rope == old(self).rope,
                self.is_dirty,
                1 <= line_no <= line + 1,
                shaped.len() == line,
                shaped_lines(shape, texts.take(line as int), shaped, fonts@.len() as int),
                (self.layout@, line_no as int) == parsed(texts, shaped, line as int, start, size, fonts@),
                self.layout@.len() >= old(self).layout@.len(),
            decreases lines - line,
        {
            let chars = rope_line(&self.rope, line);
            let (visible, has_linebreak) = split_line(&chars);
            let clusters = segmenter.segment_str(&visible);
            if clusters.len() > u32::MAX as usize || line_no == usize::MAX {
                return Err(ParseError::TooLarge { line });
            }
            context.add_line(&visible, &clusters);
            let (shapes, Ghost(glyphs)) = match shape_line(&context, fonts.len(), &shape) {
                Ok(shapes) => shapes,
                Err(font) => {
                    proof {
                        let glyphs = choose|glyphs: Seq<ShapedGlyph>|
                            shaped_by(shape, font, context@.input, glyphs) && !in_range(
                                glyphs,
                                context@.cluster_count as int,
                            );
                        assert(shaped_by(shape, font, text_input(texts[line as int]), glyphs));
                        assert(!in_range(glyphs, text_clusters(texts[line as int]).len() as int));
                    }
                    return Err(ParseError::ClusterOutOfRange { line, font });
                },
            };
            let ghost before = self.layout@;
            layout_line(&mut self.layout, line_no, &clusters, &shapes, size, fonts);
            proof {
                lemma_lines_with_spans_len(
                    before,
                    line_no as int,
                    line_spans(picks(clusters@, table(shapes@))),
                    size,
                    fonts@,
                );
                let longer = shaped.push(glyphs);
                lemma_parsed_prefix(texts, shaped, longer, line as int, start, size, fonts@);
                assert(texts.take(line + 1)[line as int] == texts[line as int]);
                assert forall|n: int| 0 <= n < line + 1 implies shaped_line(
                    shape,
                    #[trigger] texts.take(line + 1)[n],
                    longer[n],
                    fonts@.len() as int,
                ) by {
                    if n < line {
                        assert(texts.take(line as int)[n] == texts[n]);
                        assert(longer[n] == shaped[n]);
                    }
                }
                shaped = longer;
            }
            if has_linebreak {
                line_no += 1;
            }
            line += 1;
        }
        self.is_dirty = false;
        proof {
            assert(texts.take(lines as int) =~= texts);
            assert(shaped_lines(shape, old(self).lines(), shaped, fonts@.len() as int));
            assert(start == old(self).spec_layout().map_values(|l: LineView| l.cleared()));
            assert(self.spec_layout() == parsed(
                old(self).lines(),
                shaped,
                old(self).lines().len() as int,
                old(self).spec_layout().map_values(|l: LineView| l.cleared()),
                size,
                fonts@,
            ).0);
        }
        Ok(())
    }
}

/// The clusters of a line of text: those of its characters that are shaped.
pub open spec fn text_clusters(line: Seq<char>) -> Seq<Cluster> {
    clusters_of(visible_chars(line))
}

/// What goes to the shaping engine for a line of text.
pub open spec fn text_input(line: Seq<char>) -> Seq<ShapeInput> {
    line_input(visible_chars(line), text_clusters(line), text_clusters(line).len() as int)
}

/// Whether every glyph of `glyphs` names one of `clusters` clusters.
pub open spec fn in_range(glyphs: Seq<ShapedGlyph>, clusters: int) -> bool {
    forall|i: int| 0 <= i < glyphs.len() ==> (#[trigger] glyphs[i]).cluster < clusters
}

/// Whether `glyphs` is something that `shape` returns for font `font` and
/// the input `input`.
pub open spec fn shaped_by<F: Fn(usize, &Vec<ShapeInput>) -> Vec<ShapedGlyph>>(
    shape: F,
    font: usize,
    input: Seq<ShapeInput>,
    glyphs: Seq<ShapedGlyph>,
) -> bool {
    exists|given: Vec<ShapeInput>, returned: Vec<ShapedGlyph>|
        given@ == input && returned@ == glyphs && call_ensures(shape, (font, &given), returned)
}

/// Whether `shaped` holds, for each of `fonts` fonts, glyphs that `shape`
/// returns for the line of text `line`, all of them for clusters of the
/// line.
pub open spec fn shaped_line<F: Fn(usize, &Vec<ShapeInput>) -> Vec<ShapedGlyph>>(
    shape: F,
    line: Seq<char>,
    shaped: Seq<Seq<ShapedGlyph>>,
    fonts: int,
) -> bool {
    &&& shaped.len() == fonts
    &&& forall|f: int|
        0 <= f < fonts ==> {
            &&& shaped_by(shape, f as usize, text_input(line), #[trigger] shaped[f])
            &&& in_range(shaped[f], text_clusters(line).len() as int)
        }
}

/// Whether `shaped` holds such glyphs for each line of `texts`.
pub open spec fn shaped_lines<F: Fn(usize, &Vec<ShapeInput>) -> Vec<ShapedGlyph>>(
    shape: F,
    texts: Seq<Seq<char>>,
    shaped: Seq<Seq<Seq<ShapedGlyph>>>,
    fonts: int,
) -> bool {
    &&& shaped.len() == texts.len()
    &&& forall|n: int| 0 <= n < texts.len() ==> shaped_line(shape, #[trigger] texts[n], shaped[n], fonts)
}

/// The glyphs that the fonts made of a line with `clusters` clusters, by
/// font and cluster.
pub open spec fn line_table(shaped: Seq<Seq<ShapedGlyph>>, clusters: int) -> Seq<Seq<Seq<Glyph>>> {
    Seq::new(
        shaped.len(),
        |f: int| Seq::new(clusters as nat, |k: int| glyphs_of(shaped[f], k)),
    )
}

/// The layout after the first `n` lines of `texts` were laid out, and the
/// line of the layout that is next: the runs of each line of text go to the
/// line of the layout that is next, which is line 1 at first and moves on
/// after each line of text that ends with a line feed.
pub open spec fn parsed(
    texts: Seq<Seq<char>>,
    shaped: Seq<Seq<Seq<ShapedGlyph>>>,
    n: int,
    layout: Seq<LineView>,
    size: u32,
    fonts: Seq<FontMetrics>,
) -> (Seq<LineView>, int)
    decreases n,
{
    if n <= 0 {
        (layout, 1)
    } else {
        let (lines, line_no) = parsed(texts, shaped, n - 1, layout, size, fonts);
        let clusters = text_clusters(texts[n - 1]);
        (
            lines_with_spans(
                lines,
                line_no,
                line_spans(picks(clusters, line_table(shaped[n - 1], clusters.len() as int))),
                size,
                fonts,
            ),
            if ends_with_line_feed(texts[n - 1]) {
                line_no + 1
            } else {
                line_no
            },
        )
    }
}

/// The layout of the first `n` lines depends on the glyphs of those lines
/// only.
proof fn lemma_parsed_prefix(
    texts: Seq<Seq<char>>,
    shaped: Seq<Seq<Seq<ShapedGlyph>>>,
    longer: Seq<Seq<Seq<ShapedGlyph>>>,
    n: int,
    layout: Seq<LineView>,
    size: u32,
    fonts: Seq<FontMetrics>,
)
    requires
        0 <= n <= shaped.len() <= longer.len(),
        forall|k: int| 0 <= k < shaped.len() ==> longer[k] == #[trigger] shaped[k],
    ensures
        parsed(texts, longer, n, layout, size, fonts) == parsed(texts, shaped, n, layout, size, fonts),
    decreases n,
{
    if n > 0 {
        lemma_parsed_prefix(texts, shaped, longer, n - 1, layout, size, fonts);
    }
}

/// Has every font shape the clusters of `context`, and sorts the glyphs by
/// cluster. The result is the glyphs by font and cluster, or else the font
/// for which `shape` returned a glyph for a cluster that there is not.
fn shape_line<F: Fn(usize, &Vec<ShapeInput>) -> Vec<ShapedGlyph>>(
    context: &ShapeContext,
    fonts: usize,
    shape: &F,
) -> (result: Result<(Vec<Vec<Vec<Glyph>>>, Ghost<Seq<Seq<ShapedGlyph>>>), usize>)
    requires
        forall|font: usize, input: &Vec<ShapeInput>| call_requires(*shape, (font, input)),
    ensures
        match result {
            Ok((shapes, glyphs)) => {
                &&& shapes@.len() == fonts
                &&& glyphs@.len() == fonts
                &&& forall|f: int|
                    0 <= f < fonts ==> {
                        &&& shaped_by(*shape, f as usize, context@.input, #[trigger] glyphs@[f])
                        &&& in_range(glyphs@[f], context@.cluster_count as int)
                    }
                &&& forall|f: int| 0 <= f < fonts ==> (#[trigger] shapes@[f])@.len() == context@.cluster_count
                &&& table(shapes@) == line_table(glyphs@, context@.cluster_count as int)
            },
            Err(font) => {
                &&& font < fonts
                &&& exists|glyphs: Seq<ShapedGlyph>|
                    shaped_by(*shape, font, context@.input, glyphs) && !in_range(
                        glyphs,
                        context@.cluster_count as int,
                    )
            },
        },
{
    let ghost count = context@.cluster_count as int;
    let ghost mut glyphs: Seq<Seq<ShapedGlyph>> = Seq::empty();
    let mut shapes: Vec<Vec<Vec<Glyph>>> = Vec::new();
    let mut font: usize = 0;
    while font < fonts
        invariant
            font <= fonts,
            count == context@.cluster_count,
            shapes@.len() == font,
            glyphs.len() == font,
            forall|font: usize, input: &Vec<ShapeInput>| call_requires(*shape, (font, input)),
            forall|f: int|
                0 <= f < font ==> {
                    &&& shaped_by(*shape, f as usize, context@.input, #[trigger] glyphs[f])
                    &&& in_range(glyphs[f], count)
                },
            forall|f: int| 0 <= f < font ==> (#[trigger] shapes@[f])@.len() == count,
            forall|f: int, k: int|
                0 <= f < font && 0 <= k < count ==> (#[trigger] shapes@[f]@[k])@ == glyphs_of(
                    glyphs[f],
                    k,
                ),
        decreases fonts - font,
    {
        let input = context.input();
        let shaped = shape(font, input);
        proof {
            assert(shaped_by(*shape, font, context@.input, shaped@)) by {
                assert(call_ensures(*shape, (font, input), shaped));
            }
        }
        if !context.in_range(&shaped) {
            proof {
                assert(!in_range(shaped@, count));
            }
            return Err(font);
        }
        proof {
            assert(in_range(shaped@, count));
        }
        let sorted = context.shape(&shaped);
        shapes.push(sorted);
        proof {
            glyphs = glyphs.push(shaped@);
        }
        font += 1;
    }
    proof {
        assert(table(shapes@) =~~= line_table(glyphs, count));
    }
    Ok((shapes, Ghost(glyphs)))
}

/// Giving runs to a line takes no line away.
pub proof fn lemma_lines_with_spans_len(
    lines: Seq<LineView>,
    line_no: int,
    spans: Seq<Span>,
    size: u32,
    fonts: Seq<FontMetrics>,
)
    requires
        0 <= line_no,
    ensures
        lines_with_spans(lines, line_no, spans, size, fonts).len() >= lines.len(),
        spans.len() > 0 ==> lines_with_spans(lines, line_no, spans, size, fonts).len() > line_no,
    decreases spans.len(),
{
    if spans.len() > 0 {
        lemma_lines_with_spans_len(lines, line_no, spans.drop_last(), size, fonts);
    }
}

} // verus!
