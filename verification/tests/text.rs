use glyph_pipeline::document::{split_line, Document, ParseError};
use glyph_pipeline::fonts::{
    char_width, cluster_text, Cluster, FontMetrics, Glyph, ParseContext, ShapeContext, ShapeInput,
    ShapedGlyph,
};

fn chars(text: &str) -> Vec<char> {
    text.chars().collect()
}

fn shaped(cluster: u32, id: u32) -> ShapedGlyph {
    ShapedGlyph { cluster, glyph: Glyph { id, x_offset: 0, y_offset: 0, x_advance: 64, y_advance: 0 } }
}

fn ranges(clusters: &[Cluster]) -> Vec<(usize, usize)> {
    clusters.iter().map(|cluster| (cluster.start, cluster.end)).collect()
}

/// A shaper that knows the letters of ASCII only.
fn ascii_font(input: &Vec<ShapeInput>) -> Vec<ShapedGlyph> {
    input
        .iter()
        .map(|item| shaped(item.cluster, if item.code_point < 128 { item.code_point } else { 0 }))
        .collect()
}

/// A shaper that knows everything but ASCII, and makes one glyph of each
/// cluster.
fn emoji_font(input: &Vec<ShapeInput>) -> Vec<ShapedGlyph> {
    let mut glyphs: Vec<ShapedGlyph> = Vec::new();
    for item in input {
        if glyphs.last().map(|glyph| glyph.cluster) != Some(item.cluster) {
            glyphs.push(shaped(item.cluster, if item.code_point < 128 { 0 } else { 1000 }));
        }
    }
    glyphs
}

#[test]
fn utf8_widths() {
    assert_eq!(char_width('a'), 1);
    assert_eq!(char_width('\u{7f}'), 1);
    assert_eq!(char_width('\u{80}'), 2);
    assert_eq!(char_width('é'), 2);
    assert_eq!(char_width('\u{7ff}'), 2);
    assert_eq!(char_width('\u{800}'), 3);
    assert_eq!(char_width('म'), 3);
    assert_eq!(char_width('\u{ffff}'), 3);
    assert_eq!(char_width('\u{10000}'), 4);
    assert_eq!(char_width('🦆'), 4);
    for c in ['a', 'é', 'म', '🦆', '\u{10ffff}'] {
        assert_eq!(char_width(c), c.len_utf8());
    }
}

#[test]
fn segments_by_grapheme_cluster() {
    let context = ParseContext::new();
    let clusters = context.segment_str(&chars("Hello 🗺"));
    assert_eq!(ranges(&clusters), vec![(0, 1), (1, 2), (2, 3), (3, 4), (4, 5), (5, 6), (6, 10)]);
}

#[test]
fn marks_stay_with_their_letter() {
    let context = ParseContext::new();
    let text = "मांजर";
    let clusters = context.segment_str(&chars(text));
    let parts: Vec<&str> = clusters.iter().map(|cluster| &text[cluster.start..cluster.end]).collect();
    assert_eq!(parts, vec!["मां", "ज", "र"]);
    let text = "y\u{306}es";
    let clusters = context.segment_str(&chars(text));
    assert_eq!(ranges(&clusters), vec![(0, 3), (3, 4), (4, 5)]);
}

#[test]
fn an_empty_text_has_no_cluster() {
    let context = ParseContext::new();
    assert!(context.segment_str(&Vec::new()).is_empty());
}

#[test]
fn clusters_cover_the_text() {
    let context = ParseContext::new();
    for text in ["a", "AB🦆", "🧙🏻\u{200d}♂\u{fe0f}⭐", "e\u{301}\u{327}x", "\u{1f1e9}\u{1f1ea}\u{1f1eb}\u{1f1f7}"] {
        let clusters = context.segment_str(&chars(text));
        assert_eq!(clusters.first().map(|cluster| cluster.start), Some(0));
        assert_eq!(clusters.last().map(|cluster| cluster.end), Some(text.len()));
        for cluster in &clusters {
            assert!(cluster.start < cluster.end);
        }
        for pair in clusters.windows(2) {
            assert_eq!(pair[0].end, pair[1].start);
        }
    }
}

#[test]
fn a_cluster_has_the_characters_that_begin_in_it() {
    let text = chars("aé🦆म");
    assert_eq!(cluster_text(&text, &Cluster { start: 0, end: 1 }), chars("a"));
    assert_eq!(cluster_text(&text, &Cluster { start: 1, end: 3 }), chars("é"));
    assert_eq!(cluster_text(&text, &Cluster { start: 3, end: 7 }), chars("🦆"));
    assert_eq!(cluster_text(&text, &Cluster { start: 1, end: 10 }), chars("é🦆म"));
    assert_eq!(cluster_text(&text, &Cluster { start: 0, end: 0 }), chars(""));
    // A character belongs to the range that holds its first byte.
    assert_eq!(cluster_text(&text, &Cluster { start: 2, end: 4 }), chars("🦆"));
    assert_eq!(cluster_text(&text, &Cluster { start: 10, end: 99 }), chars(""));
}

#[test]
fn the_shaping_buffer_numbers_the_clusters() {
    let mut context = ShapeContext::new();
    context.add_cluster(&chars("a"));
    context.add_cluster(&chars("e\u{301}"));
    context.add_cluster(&chars(""));
    context.add_cluster(&chars("🦆"));
    assert_eq!(context.cluster_count(), 4);
    assert_eq!(
        context.input(),
        &vec![
            ShapeInput { code_point: 0x61, cluster: 0 },
            ShapeInput { code_point: 0x65, cluster: 1 },
            ShapeInput { code_point: 0x301, cluster: 1 },
            ShapeInput { code_point: 0x1f986, cluster: 3 },
        ]
    );
    context.reset();
    assert_eq!(context.cluster_count(), 0);
    assert!(context.input().is_empty());
}

#[test]
fn shaped_glyphs_are_sorted_by_cluster() {
    let mut context = ShapeContext::new();
    for cluster in ["a", "b", "c"] {
        context.add_cluster(&chars(cluster));
    }
    let engine = vec![shaped(2, 30), shaped(0, 10), shaped(2, 31), shaped(0, 11)];
    assert!(context.in_range(&engine));
    let glyphs = context.shape(&engine);
    let ids: Vec<Vec<u32>> =
        glyphs.iter().map(|cluster| cluster.iter().map(|glyph| glyph.id).collect()).collect();
    assert_eq!(ids, vec![vec![10, 11], vec![], vec![30, 31]]);
    assert!(!context.in_range(&vec![shaped(0, 1), shaped(3, 1)]));
    assert!(context.in_range(&Vec::new()));
    assert_eq!(context.shape(&Vec::new()).len(), 3);
}

#[test]
fn a_line_is_split_from_its_line_break() {
    assert_eq!(split_line(&chars("Hello\n")), (chars("Hello"), true));
    assert_eq!(split_line(&chars("Hello\r\n")), (chars("Hello"), true));
    assert_eq!(split_line(&chars("Hello")), (chars("Hello"), false));
    assert_eq!(split_line(&chars("a\rb\r")), (chars("ab"), false));
    assert_eq!(split_line(&chars("")), (chars(""), false));
    assert_eq!(split_line(&chars("\n")), (chars(""), true));
}

#[test]
fn a_document_has_the_lines_of_its_text() {
    let document = Document::from_str("Hello\nworld\n");
    assert!(document.is_dirty());
    assert_eq!(document.line_count(), 3);
    assert_eq!(document.line(0), chars("Hello\n"));
    assert_eq!(document.line(1), chars("world\n"));
    assert_eq!(document.line(2), chars(""));
    assert!(document.layout().lines.is_empty());
    let document = Document::from_str("");
    assert_eq!(document.line_count(), 1);
    assert_eq!(document.line(0), chars(""));
    let document = Document::from_str("one\r\ntwo");
    assert_eq!(document.line_count(), 2);
    assert_eq!(document.line(0), chars("one\r\n"));
    assert_eq!(document.line(1), chars("two"));
}

#[test]
fn letters_and_emoji_get_a_run_each() {
    let mut document = Document::from_str("AB🦆");
    let fonts = vec![
        FontMetrics { ascent: 640, descent: 128, leading: 0 },
        FontMetrics { ascent: 768, descent: 192, leading: 64 },
    ];
    let result = document.parse(&ParseContext::new(), &fonts, 32 * 64, |font, input| {
        if font == 0 {
            ascii_font(input)
        } else {
            emoji_font(input)
        }
    });
    assert_eq!(result, Ok(()));
    assert!(!document.is_dirty());
    let lines = &document.layout().lines;
    assert_eq!(lines.len(), 2);
    assert!(lines[0].runs.is_empty());
    let runs = &lines[1].runs;
    assert_eq!(runs.len(), 2);
    assert_eq!((runs[0].font_index, runs[0].byte_range.clone()), (0, 0..2));
    assert_eq!(runs[0].glyphs.iter().map(|glyph| glyph.id).collect::<Vec<_>>(), vec![0x41, 0x42]);
    assert_eq!(runs[0].metrics, fonts[0]);
    assert_eq!((runs[1].font_index, runs[1].byte_range.clone()), (1, 2..6));
    assert_eq!(runs[1].glyphs.iter().map(|glyph| glyph.id).collect::<Vec<_>>(), vec![1000]);
    assert_eq!(runs[1].metrics, fonts[1]);
    assert_eq!(runs[1].size, 32 * 64);
}

#[test]
fn each_line_of_text_gets_a_line_of_the_layout() {
    let mut document = Document::from_str("ab\n\n🦆c\r\nd");
    let fonts = vec![FontMetrics { ascent: 1, descent: 1, leading: 1 }; 2];
    let result = document.parse(&ParseContext::new(), &fonts, 64, |font, input| {
        if font == 0 {
            ascii_font(input)
        } else {
            emoji_font(input)
        }
    });
    assert_eq!(result, Ok(()));
    let spans: Vec<Vec<(usize, std::ops::Range<usize>)>> = document
        .layout()
        .lines
        .iter()
        .map(|line| line.runs.iter().map(|run| (run.font_index, run.byte_range.clone())).collect())
        .collect();
    assert_eq!(
        spans,
        vec![vec![], vec![(0, 0..2)], vec![], vec![(1, 0..4), (0, 4..5)], vec![(0, 0..1)]]
    );
}

#[test]
fn a_parsed_document_is_not_parsed_again() {
    let mut document = Document::from_str("abc");
    let fonts = vec![FontMetrics { ascent: 1, descent: 1, leading: 1 }];
    let mut calls = 0;
    let counter = std::cell::Cell::new(0);
    let result = document.parse(&ParseContext::new(), &fonts, 64, |_font, input| {
        counter.set(counter.get() + 1);
        ascii_font(input)
    });
    calls += counter.get();
    assert_eq!((result, calls), (Ok(()), 1));
    document.finish();
    assert_eq!(document.layout().lines[1].ascent, 0);
    let result = document.parse(&ParseContext::new(), &fonts, 64, |_font, input| {
        counter.set(counter.get() + 1);
        ascii_font(input)
    });
    assert_eq!((result, counter.get()), (Ok(()), 1));
    assert_eq!(document.layout().lines[1].runs.len(), 1);
}

#[test]
fn a_glyph_for_a_missing_cluster_ends_the_parse() {
    let mut document = Document::from_str("ab\ncd");
    let fonts = vec![FontMetrics { ascent: 1, descent: 1, leading: 1 }; 2];
    let result = document.parse(&ParseContext::new(), &fonts, 64, |font, input| {
        let mut glyphs = ascii_font(input);
        if font == 1 && input[0].code_point == 0x63 {
            glyphs.push(shaped(2, 5));
        }
        glyphs
    });
    assert_eq!(result, Err(ParseError::ClusterOutOfRange { line: 1, font: 1 }));
    assert!(document.is_dirty());
}

#[test]
fn a_line_goes_to_the_shaping_buffer_cluster_by_cluster() {
    let text = chars("ae\u{301}🦆");
    let clusters = ParseContext::new().segment_str(&text);
    let mut context = ShapeContext::new();
    context.add_cluster(&chars("left over"));
    context.add_line(&text, &clusters);
    assert_eq!(context.cluster_count(), 3);
    assert_eq!(
        context.input(),
        &vec![
            ShapeInput { code_point: 0x61, cluster: 0 },
            ShapeInput { code_point: 0x65, cluster: 1 },
            ShapeInput { code_point: 0x301, cluster: 1 },
            ShapeInput { code_point: 0x1f986, cluster: 2 },
        ]
    );
}
