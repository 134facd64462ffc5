//! Lines of runs and their vertical metrics.

use crate::fonts::{FontMetrics, Glyph};
use std::ops::Range;
use vstd::prelude::*;

verus! {

/// Sub-pixel units in one pixel. Positions, sizes and font metrics are fixed
/// point numbers with six fractional bits.
pub const UNITS_PER_PIXEL: i32 = 64;

/// Contiguous clusters of one line that are drawn with one font.
#[derive(Debug)]
pub struct Run {
    pub font_index: usize,
    pub byte_range: Range<usize>,
    pub glyphs: Vec<Glyph>,
    /// Font size in sub-pixel units.
    pub size: u32,
    pub metrics: FontMetrics,
}

/// What a [`Run`] holds, as mathematical values.
pub struct RunView {
    pub font_index: usize,
    pub start: usize,
    pub end: usize,
    pub glyphs: Seq<Glyph>,
    pub size: u32,
    pub metrics: FontMetrics,
}

impl View for Run {
    type V = RunView;

    open spec fn view(&self) -> RunView {
        RunView {
            font_index: self.font_index,
            start: self.byte_range.start,
            end: self.byte_range.end,
            glyphs: self.glyphs@,
            size: self.size,
            metrics: self.metrics,
        }
    }
}

/// The runs of one line with the line's metrics in whole pixels.
#[derive(Debug)]
pub struct Line {
    pub runs: Vec<Run>,
    pub ascent: i32,
    pub descent: i32,
    pub leading: i32,
    /// Distance from the top of the line to its baseline.
    pub above: i32,
    pub below: i32,
}

/// What a [`Line`] holds, as mathematical values.
pub struct LineView {
    pub runs: Seq<RunView>,
    pub ascent: int,
    pub descent: int,
    pub leading: int,
    pub above: int,
    pub below: int,
}

impl View for Line {
    type V = LineView;

    open spec fn view(&self) -> LineView {
        LineView {
            runs: self.runs@.map_values(|r: Run| r@),
            ascent: self.ascent as int,
            descent: self.descent as int,
            leading: self.leading as int,
            above: self.above as int,
            below: self.below as int,
        }
    }
}

/// The largest ascent among `runs`, and at least zero.
pub open spec fn max_ascent(runs: Seq<RunView>) -> int
    decreases runs.len(),
{
    if runs.len() == 0 {
        0
    } else {
        let rest = max_ascent(runs.drop_last());
        if runs.last().metrics.ascent > rest {
            runs.last().metrics.ascent as int
        } else {
            rest
        }
    }
}

/// The largest descent among `runs`, and at least zero.
pub open spec fn max_descent(runs: Seq<RunView>) -> int
    decreases runs.len(),
{
    if runs.len() == 0 {
        0
    } else {
        let rest = max_descent(runs.drop_last());
        if runs.last().metrics.descent > rest {
            runs.last().metrics.descent as int
        } else {
            rest
        }
    }
}

/// The largest leading among `runs`, and at least zero.
pub open spec fn max_leading(runs: Seq<RunView>) -> int
    decreases runs.len(),
{
    if runs.len() == 0 {
        0
    } else {
        let rest = max_leading(runs.drop_last());
        if runs.last().metrics.leading > rest {
            runs.last().metrics.leading as int
        } else {
            rest
        }
    }
}

/// A length of `units >= 0` sub-pixel units in pixels, halves rounded up.
pub open spec fn round_to_pixels(units: int) -> int {
    (units + 32) / 64
}

/// A length of `units >= 0` sub-pixel units as the nearest even number of
/// pixels, an odd number of pixels rounded up.
pub open spec fn round_to_even_pixels(units: int) -> int {
    2 * ((units + 64) / 128)
}

impl LineView {
    /// A line without runs and with all metrics zero.
    pub open spec fn empty() -> LineView {
        LineView { runs: Seq::empty(), ascent: 0, descent: 0, leading: 0, above: 0, below: 0 }
    }

    /// The line with `run` behind its runs.
    pub open spec fn with_run(self, run: RunView) -> LineView {
        LineView { runs: self.runs.push(run), ..self }
    }

    /// The line without its runs; the metrics stay.
    pub open spec fn cleared(self) -> LineView {
        LineView { runs: Seq::empty(), ..self }
    }

    /// The line with its metrics taken from its runs.
    pub open spec fn finished(self) -> LineView {
        let ascent = round_to_pixels(max_ascent(self.runs));
        let descent = round_to_pixels(max_descent(self.runs));
        let leading = round_to_even_pixels(max_leading(self.runs));
        LineView {
            runs: self.runs,
            ascent,
            descent,
            leading,
            above: ascent + leading / 2,
            below: descent + leading / 2,
        }
    }
}

/// The lines `lines` after a run was given to line `line_no`: lines are added
/// up to that index where they were missing.
pub open spec fn lines_with_run(lines: Seq<LineView>, line_no: int, run: RunView) -> Seq<LineView>
    recommends
        0 <= line_no,
{
    let padded = if lines.len() <= line_no {
        lines + Seq::new((line_no + 1 - lines.len()) as nat, |i: int| LineView::empty())
    } else {
        lines
    };
    padded.update(line_no, padded[line_no].with_run(run))
}

impl Line {
    /// A line without runs and with all metrics zero.
    pub fn new() -> (line: Line)
        ensures
            line@ == LineView::empty(),
    {
        let line = Line { runs: Vec::new(), ascent: 0, descent: 0, leading: 0, above: 0, below: 0 };
        assert(line@.runs =~= Seq::empty());
        line
    }

    fn reset(&mut self)
        ensures
            final(self)@ == old(self)@.cleared(),
    {
        self.runs.clear();
        assert(self@.runs =~= Seq::empty());
    }

    /// Sets the metrics of the line from its runs.
    fn finish(&mut self)
        ensures
            final(self)@ == old(self)@.finished(),
    {
        let mut ascent: i32 = 0;
        let mut descent: i32 = 0;
        let mut leading: i32 = 0;
        let ghost runs = self@.runs;
        let n = self.runs.len();
        let mut i: usize = 0;
        while i < n
            invariant
                i <= n,
                n == self.runs.len(),
                runs == self@.runs,
                ascent == max_ascent(runs.take(i as int)),
                descent == max_descent(runs.take(i as int)),
                leading == max_leading(runs.take(i as int)),
            decreases n - i,
        {
            let m = self.runs[i].metrics;
            proof {
                assert(runs.take(i as int + 1).drop_last() =~= runs.take(i as int));
                assert(runs.take(i as int + 1).last() == runs[i as int]);
                assert(runs[i as int] == self.runs[i as int]@);
            }
            if m.ascent > ascent {
                ascent = m.ascent;
            }
            if m.descent > descent {
                descent = m.descent;
            }
            if m.leading > leading {
                leading = m.leading;
            }
            i += 1;
        }
        assert(runs.take(n as int) =~= runs);
        proof {
            lemma_max_metrics_not_negative(runs);
        }
        let ascent_px = ascent / 64 + if ascent % 64 >= 32 { 1i32 } else { 0i32 };
        let descent_px = descent / 64 + if descent % 64 >= 32 { 1i32 } else { 0i32 };
        let half_leading = leading / 128 + if leading % 128 >= 64 { 1i32 } else { 0i32 };
        assert(ascent_px == round_to_pixels(ascent as int));
        assert(descent_px == round_to_pixels(descent as int));
        assert(2 * half_leading == round_to_even_pixels(leading as int));
        self.ascent = ascent_px;
        self.descent = descent_px;
        self.leading = 2 * half_leading;
        self.above = ascent_px + half_leading;
        self.below = descent_px + half_leading;
        assert(self@.runs == runs);
    }
}

/// The largest metrics of a line are never negative.
pub proof fn lemma_max_metrics_not_negative(runs: Seq<RunView>)
    ensures
        0 <= max_ascent(runs) <= i32::MAX,
        0 <= max_descent(runs) <= i32::MAX,
        0 <= max_leading(runs) <= i32::MAX,
    decreases runs.len(),
{
    if runs.len() > 0 {
        lemma_max_metrics_not_negative(runs.drop_last());
    }
}

/// The lines of a text with their runs.
pub struct Layout {
    pub lines: Vec<Line>,
}

impl View for Layout {
    type V = Seq<LineView>;

    open spec fn view(&self) -> Seq<LineView> {
        self.lines@.map_values(|l: Line| l@)
    }
}

impl Layout {
    /// A layout without lines.
    pub fn new() -> (layout: Layout)
        ensures
            layout@ == Seq::<LineView>::empty(),
    {
        let layout = Layout { lines: Vec::new() };
        assert(layout@ =~= Seq::empty());
        layout
    }

    /// Drops the runs of every line. The lines stay, with their metrics, so
    /// their storage serves the next parse.
    pub fn reset(&mut self)
        ensures
            final(self)@ == old(self)@.map_values(|l: LineView| l.cleared()),
    {
        let n = self.lines.len();
        let mut i: usize = 0;
        while i < n
            invariant
                i <= n,
                n == self.lines.len(),
                self.lines@.len() == old(self).lines@.len(),
                forall|k: int| 0 <= k < i ==> (#[trigger] self.lines@[k])@ == old(self).lines@[k]@.cleared(),
                forall|k: int| i <= k < n ==> #[trigger] self.lines@[k] == old(self).lines@[k],
            decreases n - i,
        {
            self.lines[i].reset();
            i += 1;
        }
        assert(self@ =~= old(self)@.map_values(|l: LineView| l.cleared()));
    }

    /// Appends a run to line `line_no`, adding empty lines up to that index
    /// where the layout has fewer.
    pub fn push_run(
        &mut self,
        line_no: usize,
        font_index: usize,
        doc_byte_range: Range<usize>,
        glyphs: Vec<Glyph>,
        size: u32,
        metrics: FontMetrics,
    )
        requires
            line_no < usize::MAX,
        ensures
            final(self)@ == lines_with_run(
                old(self)@,
                line_no as int,
                RunView {
                    font_index,
                    start: doc_byte_range.start,
                    end: doc_byte_range.end,
                    glyphs: glyphs@,
                    size,
                    metrics,
                },
            ),
    {
        let ghost before = self@;
        while self.lines.len() <= line_no
            invariant
                line_no < usize::MAX,
                before.len() <= self.lines@.len(),
                self.lines@.len() <= before.len() || self.lines@.len() <= line_no + 1,
                forall|k: int| 0 <= k < before.len() ==> (#[trigger] self.lines@[k])@ == before[k],
                forall|k: int|
                    before.len() <= k < self.lines@.len() ==> (#[trigger] self.lines@[k])@
                        == LineView::empty(),
            decreases line_no + 1 - self.lines.len(),
        {
            self.lines.push(Line::new());
        }
        let ghost padded = self@;
        let run = Run { font_index, byte_range: doc_byte_range, glyphs, size, metrics };
        let ghost old_runs = self.lines[line_no as int]@.runs;
        self.lines[line_no].runs.push(run);
        proof {
            assert(self.lines[line_no as int]@.runs =~= old_runs.push(run@));
            assert(self@ =~= padded.update(line_no as int, padded[line_no as int].with_run(run@)));
            let expect = if before.len() <= line_no {
                before + Seq::new((line_no + 1 - before.len()) as nat, |i: int| LineView::empty())
            } else {
                before
            };
            assert(padded =~= expect);
        }
    }

    /// Sets the metrics of every line from its runs: the largest ascent and
    /// descent rounded to pixels, the largest leading rounded to an even
    /// number of pixels, and half the leading added above and below.
    pub fn finish(&mut self)
        ensures
            final(self)@ == old(self)@.map_values(|l: LineView| l.finished()),
    {
        let n = self.lines.len();
        let mut i: usize = 0;
        while i < n
            invariant
                i <= n,
                n == self.lines.len(),
                self.lines@.len() == old(self).lines@.len(),
                forall|k: int| 0 <= k < i ==> (#[trigger] self.lines@[k])@ == old(self).lines@[k]@.finished(),
                forall|k: int| i <= k < n ==> #[trigger] self.lines@[k] == old(self).lines@[k],
            decreases n - i,
        {
            self.lines[i].finish();
            i += 1;
        }
        assert(self@ =~= old(self)@.map_values(|l: LineView| l.finished()));
    }
}

} // verus!
