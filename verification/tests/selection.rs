use glyph_pipeline::document::{count_complete, layout_line, prefer, select_font};
use glyph_pipeline::fonts::{Cluster, FontMetrics, Glyph};
use glyph_pipeline::layout::Layout;

fn glyph(id: u32) -> Glyph {
    Glyph { id, x_offset: 0, y_offset: 0, x_advance: 10, y_advance: 0 }
}

fn glyphs(ids: &[u32]) -> Vec<Glyph> {
    ids.iter().map(|id| glyph(*id)).collect()
}

fn metrics(n: i32) -> FontMetrics {
    FontMetrics { ascent: n, descent: n, leading: n }
}

#[test]
fn counts_the_glyphs_that_the_font_has() {
    assert_eq!(count_complete(&glyphs(&[])), 0);
    assert_eq!(count_complete(&glyphs(&[0, 0])), 0);
    assert_eq!(count_complete(&glyphs(&[3, 0, 9, 1])), 3);
}

#[test]
fn the_more_complete_font_is_selected() {
    // Font 0 has both glyphs, font 1 one of two.
    let shapes = vec![vec![glyphs(&[5, 6])], vec![glyphs(&[5, 0])]];
    assert_eq!(select_font(&shapes, 0), 0);
    let shapes = vec![vec![glyphs(&[5, 0])], vec![glyphs(&[5, 6])]];
    assert_eq!(select_font(&shapes, 0), 1);
}

#[test]
fn among_complete_fonts_the_one_with_fewer_glyphs_is_selected() {
    let shapes = vec![vec![glyphs(&[5, 6])], vec![glyphs(&[9])]];
    assert_eq!(select_font(&shapes, 0), 1);
}

#[test]
fn among_equal_fonts_the_first_is_selected() {
    let shapes = vec![vec![glyphs(&[5])], vec![glyphs(&[9])], vec![glyphs(&[7])]];
    assert_eq!(select_font(&shapes, 0), 0);
    let shapes = vec![vec![glyphs(&[0])], vec![glyphs(&[9])], vec![glyphs(&[7])]];
    assert_eq!(select_font(&shapes, 0), 1);
}

#[test]
fn completeness_is_a_ratio() {
    // 2 of 3 is less than 3 of 4, and 1 of 2 equals 2 of 4.
    assert!(prefer(&glyphs(&[1, 1, 1, 0]), &glyphs(&[1, 1, 0])));
    assert!(!prefer(&glyphs(&[1, 1, 0]), &glyphs(&[1, 1, 1, 0])));
    assert!(prefer(&glyphs(&[1, 0]), &glyphs(&[1, 1, 0, 0])));
    assert!(!prefer(&glyphs(&[1, 1, 0, 0]), &glyphs(&[1, 0])));
    assert!(!prefer(&glyphs(&[1, 0]), &glyphs(&[0, 1])));
}

#[test]
fn a_cluster_without_glyphs_counts_as_incomplete() {
    // Nothing of nothing is a completeness of zero: one glyph of one wins.
    assert!(prefer(&glyphs(&[4]), &glyphs(&[])));
    assert!(!prefer(&glyphs(&[]), &glyphs(&[4])));
    // Against a missing glyph the completeness is equal, and none is fewer.
    assert!(prefer(&glyphs(&[]), &glyphs(&[0])));
    let shapes = vec![vec![glyphs(&[0])], vec![glyphs(&[])]];
    assert_eq!(select_font(&shapes, 0), 1);
}

#[test]
fn each_cluster_is_selected_by_itself() {
    let shapes = vec![
        vec![glyphs(&[1]), glyphs(&[0]), glyphs(&[3])],
        vec![glyphs(&[0]), glyphs(&[8]), glyphs(&[0])],
    ];
    assert_eq!(select_font(&shapes, 0), 0);
    assert_eq!(select_font(&shapes, 1), 1);
    assert_eq!(select_font(&shapes, 2), 0);
}

#[test]
fn runs_break_where_the_font_changes() {
    let clusters = vec![
        Cluster { start: 0, end: 1 },
        Cluster { start: 1, end: 2 },
        Cluster { start: 2, end: 6 },
    ];
    let shapes = vec![
        vec![glyphs(&[36]), glyphs(&[37]), glyphs(&[0])],
        vec![glyphs(&[0]), glyphs(&[0]), glyphs(&[900])],
    ];
    let fonts = vec![metrics(1), metrics(2)];
    let mut layout = Layout::new();
    layout_line(&mut layout, 1, &clusters, &shapes, 2048, &fonts);
    assert_eq!(layout.lines.len(), 2);
    assert!(layout.lines[0].runs.is_empty());
    let runs = &layout.lines[1].runs;
    assert_eq!(runs.len(), 2);
    assert_eq!((runs[0].font_index, runs[0].byte_range.clone()), (0, 0..2));
    assert_eq!(runs[0].glyphs, glyphs(&[36, 37]));
    assert_eq!(runs[0].metrics, metrics(1));
    assert_eq!(runs[0].size, 2048);
    assert_eq!((runs[1].font_index, runs[1].byte_range.clone()), (1, 2..6));
    assert_eq!(runs[1].glyphs, glyphs(&[900]));
    assert_eq!(runs[1].metrics, metrics(2));
}

#[test]
fn runs_partition_the_line() {
    let clusters: Vec<Cluster> = (0..7).map(|i| Cluster { start: 3 * i, end: 3 * i + 3 }).collect();
    let pattern = [0usize, 0, 1, 2, 2, 2, 0];
    let shapes: Vec<Vec<Vec<Glyph>>> = (0..3)
        .map(|font| {
            pattern.iter().map(|chosen| if *chosen == font { glyphs(&[9]) } else { glyphs(&[0]) }).collect()
        })
        .collect();
    let fonts = vec![metrics(0), metrics(1), metrics(2)];
    let mut layout = Layout::new();
    layout_line(&mut layout, 0, &clusters, &shapes, 64, &fonts);
    let runs = &layout.lines[0].runs;
    let ranges: Vec<_> = runs.iter().map(|run| (run.font_index, run.byte_range.clone())).collect();
    assert_eq!(ranges, vec![(0, 0..6), (1, 6..9), (2, 9..18), (0, 18..21)]);
    assert_eq!(runs.first().map(|run| run.byte_range.start), Some(0));
    assert_eq!(runs.last().map(|run| run.byte_range.end), Some(21));
    for pair in runs.windows(2) {
        assert_eq!(pair[0].byte_range.end, pair[1].byte_range.start);
        assert_ne!(pair[0].font_index, pair[1].font_index);
    }
}

#[test]
fn a_line_without_clusters_has_no_runs() {
    let clusters: Vec<Cluster> = Vec::new();
    let shapes: Vec<Vec<Vec<Glyph>>> = vec![Vec::new(), Vec::new()];
    let fonts = vec![metrics(0), metrics(1)];
    let mut layout = Layout::new();
    layout_line(&mut layout, 2, &clusters, &shapes, 64, &fonts);
    assert!(layout.lines.is_empty());
}

#[test]
fn a_run_without_glyphs_is_not_kept() {
    // No font makes a glyph of the middle cluster, and font 1, with the
    // fewest glyphs, is selected for it: its run has no glyph and is dropped.
    let clusters = vec![
        Cluster { start: 0, end: 1 },
        Cluster { start: 1, end: 4 },
        Cluster { start: 4, end: 5 },
    ];
    let shapes = vec![
        vec![glyphs(&[36]), glyphs(&[0]), glyphs(&[38])],
        vec![glyphs(&[0]), glyphs(&[]), glyphs(&[0])],
    ];
    let fonts = vec![metrics(1), metrics(2)];
    let mut layout = Layout::new();
    layout_line(&mut layout, 0, &clusters, &shapes, 64, &fonts);
    let ranges: Vec<_> =
        layout.lines[0].runs.iter().map(|run| (run.font_index, run.byte_range.clone())).collect();
    assert_eq!(ranges, vec![(0, 0..1), (0, 4..5)]);
}

#[test]
fn clusters_without_glyphs_extend_a_run() {
    let clusters = vec![
        Cluster { start: 0, end: 1 },
        Cluster { start: 1, end: 2 },
        Cluster { start: 2, end: 3 },
    ];
    let shapes = vec![vec![glyphs(&[]), glyphs(&[7]), glyphs(&[])]];
    let fonts = vec![metrics(1)];
    let mut layout = Layout::new();
    layout_line(&mut layout, 0, &clusters, &shapes, 64, &fonts);
    let runs = &layout.lines[0].runs;
    assert_eq!(runs.len(), 1);
    assert_eq!(runs[0].byte_range, 0..3);
    assert_eq!(runs[0].glyphs, glyphs(&[7]));
}
