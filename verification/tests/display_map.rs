use std::collections::HashMap;

use mdiff_core::diff::{DiffLine, DiffLineOrigin, DiffViewMode, FileDelta, FileStatus, Hunk};
use mdiff_core::content::{reconstruct_content, ContentSide};
use mdiff_core::display_map::{
    build_display_map, build_split_display_map, build_unified_display_map, filter_hunk_lines,
    split_pane_cells, FilteredItem, PaneCellKind,
};

fn ctx_line(old: u32, new: u32) -> DiffLine {
    DiffLine {
        origin: DiffLineOrigin::Context,
        old_lineno: Some(old),
        new_lineno: Some(new),
        content: format!("ctx {old}"),
    }
}

fn add_line(new: u32) -> DiffLine {
    DiffLine {
        origin: DiffLineOrigin::Addition,
        old_lineno: None,
        new_lineno: Some(new),
        content: format!("add {new}"),
    }
}

fn del_line(old: u32) -> DiffLine {
    DiffLine {
        origin: DiffLineOrigin::Deletion,
        old_lineno: Some(old),
        new_lineno: None,
        content: format!("del {old}"),
    }
}

fn delta_of(lines: Vec<DiffLine>) -> FileDelta {
    FileDelta {
        path: "src/lib.rs".to_string(),
        old_path: None,
        status: FileStatus::Modified,
        hunks: vec![Hunk {
            header: "@@ -1,10 +1,10 @@".to_string(),
            old_start: 1,
            old_lines: 10,
            new_start: 1,
            new_lines: 10,
            lines,
        }],
        additions: 0,
        deletions: 0,
        binary: false,
    }
}

/// A two-sided run of ten context lines between two changes.
fn two_sided_gap_lines() -> Vec<DiffLine> {
    let mut lines = vec![del_line(1)];
    for i in 0..10u32 {
        lines.push(ctx_line(2 + i, 2 + i));
    }
    lines.push(add_line(12));
    lines
}

#[test]
fn conservation_on_two_sided_gap() {
    let lines = two_sided_gap_lines();
    let expansions: HashMap<usize, usize> = HashMap::new();
    let (items, next_id) = filter_hunk_lines(&lines, 3, &expansions, 0);
    // One two-sided run consumes two ids.
    assert_eq!(next_id, 2);
    let visible = items
        .iter()
        .filter(|i| matches!(i, FilteredItem::Line { .. }))
        .count();
    let hidden: Vec<usize> = items
        .iter()
        .filter_map(|i| match i {
            FilteredItem::CollapsedIndicator { hidden_count, .. } => Some(*hidden_count),
            _ => None,
        })
        .collect();
    // visible = 2 changes + 3 context at the top + 3 at the bottom.
    assert_eq!(visible, 8);
    assert_eq!(hidden, vec![4, 4]);
    // Conservation over the context run: shown context + hidden == 10.
    assert_eq!((visible - 2) + hidden[0], 10);
}

#[test]
fn no_indicator_shows_whole_run() {
    let mut lines = vec![del_line(1)];
    for i in 0..5u32 {
        lines.push(ctx_line(2 + i, 2 + i));
    }
    lines.push(add_line(7));
    let expansions: HashMap<usize, usize> = HashMap::new();
    let (items, next_id) = filter_hunk_lines(&lines, 3, &expansions, 0);
    // Baseline 3 + 3 covers the run of 5: no gap, no id.
    assert_eq!(next_id, 0);
    assert_eq!(items.len(), 7);
    assert!(items
        .iter()
        .all(|i| matches!(i, FilteredItem::Line { .. })));
}

#[test]
fn gap_closure_by_expansion() {
    // A two-sided gap with ten context lines and a window of three hides
    // four lines; expanding the top side by four reopens all of them.
    let lines = two_sided_gap_lines();
    let no_expansions: HashMap<usize, usize> = HashMap::new();
    let (items, _) = filter_hunk_lines(&lines, 3, &no_expansions, 0);
    let hidden: Vec<usize> = items
        .iter()
        .filter_map(|i| match i {
            FilteredItem::CollapsedIndicator { hidden_count, .. } => Some(*hidden_count),
            _ => None,
        })
        .collect();
    assert_eq!(hidden, vec![4, 4]);

    let mut expansions: HashMap<usize, usize> = HashMap::new();
    expansions.insert(0, 4);
    let (items, next_id) = filter_hunk_lines(&lines, 3, &expansions, 0);
    assert_eq!(next_id, 2);
    assert_eq!(items.len(), 12);
    assert!(items
        .iter()
        .all(|i| matches!(i, FilteredItem::Line { .. })));
}

#[test]
fn determinism_of_display_map() {
    let delta = delta_of(two_sided_gap_lines());
    let mut expansions: HashMap<usize, usize> = HashMap::new();
    expansions.insert(1, 2);
    let a = build_display_map(&delta, DiffViewMode::Split, 3, &expansions);
    let b = build_display_map(&delta, DiffViewMode::Split, 3, &expansions);
    assert_eq!(a, b);
    let c = build_display_map(&delta, DiffViewMode::Unified, 3, &expansions);
    let d = build_display_map(&delta, DiffViewMode::Unified, 3, &expansions);
    assert_eq!(c, d);
}

#[test]
fn pairing_three_deletions_one_addition() {
    // A change block of three deletions and one addition pairs into
    // exactly three split rows; the first has both sides, the last two
    // only the left.
    let lines = vec![del_line(1), del_line(2), del_line(3), add_line(1)];
    let delta = delta_of(lines);
    let expansions: HashMap<usize, usize> = HashMap::new();
    let rows = build_split_display_map(&delta, 3, &expansions);
    // Header row plus three paired rows.
    assert_eq!(rows.len(), 4);
    assert!(rows[0].is_header);
    assert_eq!(rows[1].old_lineno, Some(1));
    assert_eq!(rows[1].new_lineno, Some(1));
    assert_eq!(rows[2].old_lineno, Some(2));
    assert_eq!(rows[2].new_lineno, None);
    assert_eq!(rows[3].old_lineno, Some(3));
    assert_eq!(rows[3].new_lineno, None);

    let (left, right) = split_pane_cells(&rows);
    assert_eq!(left.len(), right.len());
    assert_eq!(left[1].kind, PaneCellKind::Content);
    assert_eq!(right[1].kind, PaneCellKind::Content);
    assert_eq!(left[2].kind, PaneCellKind::Content);
    assert_eq!(right[2].kind, PaneCellKind::Blank);
    assert_eq!(right[3].kind, PaneCellKind::Blank);
}

#[test]
fn reconstruct_places_lines_by_number() {
    let lines = vec![ctx_line(2, 2), del_line(3), add_line(3), ctx_line(4, 4)];
    let delta = delta_of(lines);
    let (new_side, max_new) = reconstruct_content(&delta, ContentSide::New);
    assert_eq!(max_new, 4);
    assert_eq!(new_side, "\n\nctx 2\nadd 3\nctx 4");
    let (old_side, max_old) = reconstruct_content(&delta, ContentSide::Old);
    assert_eq!(max_old, 4);
    assert_eq!(old_side, "\n\nctx 2\ndel 3\nctx 4");
    let empty = delta_of(vec![add_line(1)]);
    let (none, max) = reconstruct_content(&empty, ContentSide::Old);
    assert_eq!(none, "");
    assert_eq!(max, 0);
}

#[test]
fn unified_map_keeps_all_fields() {
    let lines = vec![ctx_line(1, 1), del_line(2), add_line(2)];
    let delta = delta_of(lines);
    let expansions: HashMap<usize, usize> = HashMap::new();
    let rows = build_unified_display_map(&delta, 3, &expansions);
    assert_eq!(rows.len(), 4);
    assert!(rows[0].is_header);
    assert_eq!(rows[1].origin, Some(DiffLineOrigin::Context));
    assert_eq!(rows[1].old_lineno, Some(1));
    assert_eq!(rows[1].new_lineno, Some(1));
    assert_eq!(rows[2].origin, Some(DiffLineOrigin::Deletion));
    assert_eq!(rows[3].origin, Some(DiffLineOrigin::Addition));
    assert_eq!(rows[3].line_index, Some(2));
}

#[test]
fn one_sided_gap_at_hunk_start() {
    // A run that opens the hunk gets a single upward indicator.
    let mut lines = Vec::new();
    for i in 0..10u32 {
        lines.push(ctx_line(1 + i, 1 + i));
    }
    lines.push(add_line(11));
    let expansions: HashMap<usize, usize> = HashMap::new();
    let (items, next_id) = filter_hunk_lines(&lines, 3, &expansions, 0);
    assert_eq!(next_id, 1);
    let indicators: Vec<(usize, usize)> = items
        .iter()
        .filter_map(|i| match i {
            FilteredItem::CollapsedIndicator {
                hidden_count,
                gap_id,
                ..
            } => Some((*hidden_count, *gap_id)),
            _ => None,
        })
        .collect();
    assert_eq!(indicators, vec![(7, 0)]);
}

#[test]
fn gap_ids_advance_even_when_expanded_open() {
    // The id counter advances per run whether or not an indicator shows,
    // so later gaps keep their ids when an earlier one is expanded open.
    let mut lines = two_sided_gap_lines();
    // Append a second two-sided run.
    for i in 0..10u32 {
        lines.push(ctx_line(20 + i, 20 + i));
    }
    lines.push(del_line(40));
    let mut expansions: HashMap<usize, usize> = HashMap::new();
    expansions.insert(0, 10);
    let (items, next_id) = filter_hunk_lines(&lines, 3, &expansions, 0);
    assert_eq!(next_id, 4);
    let ids: Vec<usize> = items
        .iter()
        .filter_map(|i| match i {
            FilteredItem::CollapsedIndicator { gap_id, .. } => Some(*gap_id),
            _ => None,
        })
        .collect();
    // The first run is fully open; the second still uses ids 2 and 3.
    assert_eq!(ids, vec![2, 3]);
}
