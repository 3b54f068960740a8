use mdiff_core::wrap::{
    compute_split_visual_row_metrics, compute_unified_visual_row_metrics, format_gutter_with_marker,
    format_lineno, wrap_lines_for_display_with_scroll, wrap_pair, wrap_single_line,
    wrap_split_lines_synchronized_with_scroll, StyledLine, StyledSpan,
};

fn span(text: &str, style: u64) -> StyledSpan {
    StyledSpan {
        text: text.chars().collect(),
        style,
    }
}

fn line(gutter: &str, content: &str) -> StyledLine {
    StyledLine {
        spans: vec![span(gutter, 0), span(content, 1)],
    }
}

fn content_of(l: &StyledLine) -> String {
    l.spans
        .iter()
        .skip(1)
        .flat_map(|s| s.text.iter().copied())
        .collect()
}

#[test]
fn wrap_math_five_rows() {
    // A 203-character row at an effective content width of 50 wraps to
    // exactly five visual rows; rows two to five carry the continuation
    // gutter, row one the original gutter.
    let content: String = "x".repeat(203);
    let l = line("   1 :", &content);
    // Width 56 leaves 50 columns once the 6-wide gutter is reserved.
    let rows = wrap_single_line(l, 56, 6, true);
    assert_eq!(rows.len(), 5);
    assert_eq!(rows[0].spans[0].text.iter().collect::<String>(), "   1 :");
    for r in rows.iter().skip(1) {
        assert_eq!(r.spans[0].text.iter().collect::<String>(), "     \u{21aa}");
    }
    assert_eq!(content_of(&rows[0]).len(), 50);
    assert_eq!(content_of(&rows[4]).len(), 3);
    let rejoined: String = rows.iter().map(|r| content_of(r)).collect();
    assert_eq!(rejoined, content);
}

#[test]
fn short_row_is_never_split() {
    let l = line("   1 :", "short");
    let rows = wrap_single_line(l.clone(), 56, 6, true);
    assert_eq!(rows.len(), 1);
    assert_eq!(rows[0], l);
}

#[test]
fn style_runs_survive_wrapping() {
    // Two styles across the wrap boundary: each character keeps its own.
    let l = StyledLine {
        spans: vec![span("g:", 9), span("aaaa", 1), span("bbbb", 2)],
    };
    let rows = wrap_single_line(l, 6, 2, true);
    assert_eq!(rows.len(), 2);
    // First row: gutter + "aaaa" in style 1.
    assert_eq!(rows[0].spans[1].text.iter().collect::<String>(), "aaaa");
    assert_eq!(rows[0].spans[1].style, 1);
    // Second row: continuation gutter + "bbbb" in style 2.
    assert_eq!(rows[1].spans[1].text.iter().collect::<String>(), "bbbb");
    assert_eq!(rows[1].spans[1].style, 2);
}

#[test]
fn height_symmetry_of_wrap_pair() {
    // One side wraps to four rows, the other to one: both sides come
    // back with four rows, the shorter side blank-padded.
    let left = line("   1 :", &"y".repeat(16));
    let right = line("   1 :", "ok");
    let (lw, rw) = wrap_pair(left, right, 10, 6, true);
    assert_eq!(lw.len(), rw.len());
    assert_eq!(lw.len(), 4);
    assert!(rw[1].spans.is_empty());
    assert!(rw[2].spans.is_empty());
    assert!(rw[3].spans.is_empty());
}

#[test]
fn sync_scroll_window_lengths() {
    let left = vec![
        line("   1 :", &"a".repeat(12)),
        line("   2 :", "b"),
        line("   3 :", "c"),
    ];
    let right = vec![
        line("   1 :", "x"),
        line("   2 :", &"y".repeat(12)),
        line("   3 :", "z"),
    ];
    // Width 10, gutter 6: 12 characters of content make 3 visual rows.
    // Total visual height: 3 + 3 + 1 = 7.
    let (lw, rw) =
        wrap_split_lines_synchronized_with_scroll(left.clone(), right.clone(), 10, 6, true, 2, 4);
    assert_eq!(lw.len(), rw.len());
    assert_eq!(lw.len(), 4);
    // A window past the end returns what is left, never padding.
    let (lw, rw) = wrap_split_lines_synchronized_with_scroll(left, right, 10, 6, true, 5, 10);
    assert_eq!(lw.len(), rw.len());
    assert_eq!(lw.len(), 2);
}

#[test]
fn unified_scroll_window_lengths() {
    let lines = vec![
        line("    1     1  ", &"a".repeat(9)),
        line("    2     2  ", "b"),
    ];
    // Width 16, gutter 13: 3 columns of content; first row has height 3.
    let out = wrap_lines_for_display_with_scroll(lines.clone(), 16, 13, true, 0, 10);
    assert_eq!(out.len(), 4);
    let out = wrap_lines_for_display_with_scroll(lines, 16, 13, true, 1, 2);
    assert_eq!(out.len(), 2);
}

#[test]
fn scroll_window_returns_the_straddling_tail() {
    let lines = vec![line("g:", "abcdefgh"), line("h:", "zz")];
    // Width 6, gutter 2: four content columns, so the first row wraps to
    // "abcd" and "efgh". A scroll of one starts inside that row: the
    // window opens with its tail chunk, then the next logical row.
    let out = wrap_lines_for_display_with_scroll(lines.clone(), 6, 2, true, 1, 3);
    assert_eq!(out.len(), 2);
    assert_eq!(content_of(&out[0]), "efgh");
    assert_eq!(out[0].spans[0].text.iter().collect::<String>(), " \u{21aa}");
    assert_eq!(content_of(&out[1]), "zz");

    let (lw, rw) = wrap_split_lines_synchronized_with_scroll(
        lines.clone(),
        vec![line("g:", "k"), line("h:", "y")],
        6,
        2,
        true,
        1,
        3,
    );
    assert_eq!(lw.len(), rw.len());
    assert_eq!(lw.len(), 2);
    assert_eq!(content_of(&lw[0]), "efgh");
    // The right side of the straddled row is blank padding at that offset.
    assert!(rw[0].spans.is_empty());
    assert_eq!(content_of(&lw[1]), "zz");
    assert_eq!(content_of(&rw[1]), "y");
}

#[test]
fn split_metrics_use_max_wrap_height() {
    // A header row and one paired row whose left side holds 200
    // characters: the pair's height is the taller side's wrap count.
    let long_line = "x".repeat(200);
    let left = vec![line("  ... ", "@@ -1,1 +1,1 @@"), line("   1 :", &long_line)];
    let right = vec![line("  ... ", "@@ -1,1 +1,1 @@"), line("   1 :", "ok")];
    let metrics = compute_split_visual_row_metrics(&left, &right, 12, 12, 6);
    assert_eq!(metrics.row_offsets.len(), 2);
    assert_eq!(metrics.row_heights.len(), 2);
    assert!(metrics.row_heights[1] > 1, "paired row should wrap");
    assert_eq!(
        metrics.total_rows,
        metrics.row_heights.iter().sum::<usize>()
    );
}

#[test]
fn unified_metrics_account_for_wrapping() {
    let long_line = "x".repeat(200);
    let lines = vec![
        line("  ... ", "@@ -1,1 +1,1 @@"),
        line("    1     1  ", &long_line),
    ];
    let metrics = compute_unified_visual_row_metrics(&lines, 16, 13);
    assert_eq!(metrics.row_offsets.len(), 2);
    assert_eq!(metrics.row_heights.len(), 2);
    assert!(metrics.row_heights[1] > 1, "content row should wrap");
    assert_eq!(
        metrics.total_rows,
        metrics.row_heights.iter().sum::<usize>()
    );
}

#[test]
fn format_lineno_right_aligns() {
    assert_eq!(format_lineno(Some(42), 5), "   42");
    assert_eq!(format_lineno(Some(123456), 5), "123456");
    assert_eq!(format_lineno(None, 5), "     ");
}

#[test]
fn format_gutter_marker_cell() {
    assert_eq!(format_gutter_with_marker("   42", true), "   42\u{2502}");
    assert_eq!(format_gutter_with_marker("   42", false), "   42 ");
}
