use std::collections::HashMap;

use mdiff_core::annotations::{
    cursor_to_anchor, selection_to_anchor, Annotation, AnnotationState, LineAnchor,
};
use mdiff_core::diff::{DiffLine, DiffLineOrigin, FileDelta, FileStatus, Hunk};
use mdiff_core::display_map::build_split_display_map;

fn anchor(path: &str, old: Option<(u32, u32)>, new: Option<(u32, u32)>) -> LineAnchor {
    LineAnchor {
        file_path: path.to_string(),
        old_range: old,
        new_range: new,
    }
}

fn annotation(path: &str, old: Option<(u32, u32)>, new: Option<(u32, u32)>, c: &str) -> Annotation {
    Annotation {
        anchor: anchor(path, old, new),
        comment: c.to_string(),
        created_at: "2024-01-01T00:00:00".to_string(),
    }
}

#[test]
fn covers_is_a_disjunction() {
    let a = anchor("a.rs", Some((5, 7)), Some((20, 22)));
    assert!(a.covers(None, Some(21)));
    assert!(a.covers(Some(6), None));
    assert!(a.covers(Some(6), Some(100)));
    assert!(a.covers(Some(100), Some(21)));
    assert!(!a.covers(Some(100), Some(100)));
    assert!(!a.covers(None, None));
}

#[test]
fn anchor_survives_window_change_and_expansion() {
    // An annotation on new-file lines 20 to 22 still covers new line 21
    // after the context window changes from 3 to 10 and after unrelated
    // gaps are expanded: anchors live in file-line space, not row space.
    let a = anchor("a.rs", None, Some((20, 22)));
    assert!(a.covers(None, Some(21)));

    let mut lines = vec![DiffLine {
        origin: DiffLineOrigin::Deletion,
        old_lineno: Some(1),
        new_lineno: None,
        content: "gone".to_string(),
    }];
    for i in 0..30u32 {
        lines.push(DiffLine {
            origin: DiffLineOrigin::Context,
            old_lineno: Some(2 + i),
            new_lineno: Some(1 + i),
            content: format!("ctx {i}"),
        });
    }
    lines.push(DiffLine {
        origin: DiffLineOrigin::Addition,
        old_lineno: None,
        new_lineno: Some(31),
        content: "fresh".to_string(),
    });
    let delta = FileDelta {
        path: "a.rs".to_string(),
        old_path: None,
        status: FileStatus::Modified,
        hunks: vec![Hunk {
            header: "@@".to_string(),
            old_start: 1,
            old_lines: 31,
            new_start: 1,
            new_lines: 31,
            lines,
        }],
        additions: 1,
        deletions: 1,
        binary: false,
    };

    let no_exp: HashMap<usize, usize> = HashMap::new();
    let narrow = build_split_display_map(&delta, 3, &no_exp);
    assert!(a.covers(None, Some(21)));

    let mut exp: HashMap<usize, usize> = HashMap::new();
    exp.insert(0, 9);
    let wide = build_split_display_map(&delta, 10, &exp);
    assert!(a.covers(None, Some(21)));
    // The layouts themselves did change.
    assert_ne!(narrow.len(), wide.len());
}

#[test]
fn add_and_count_and_sorted_order() {
    let mut state = AnnotationState::new();
    state.add(annotation("b.rs", None, Some((10, 10)), "second file"));
    state.add(annotation("a.rs", None, Some((30, 30)), "late line"));
    state.add(annotation("a.rs", None, Some((5, 6)), "early line"));
    assert_eq!(state.count(), 3);
    let all = state.all_sorted();
    assert_eq!(all[0].anchor.file_path, "a.rs");
    assert_eq!(all[0].anchor.sort_line(), 5);
    assert_eq!(all[1].anchor.file_path, "a.rs");
    assert_eq!(all[1].anchor.sort_line(), 30);
    assert_eq!(all[2].anchor.file_path, "b.rs");
}

#[test]
fn has_annotation_and_overlapping() {
    let mut state = AnnotationState::new();
    state.add(annotation("a.rs", None, Some((5, 8)), "one"));
    state.add(annotation("a.rs", None, Some((7, 9)), "two"));
    assert!(state.has_annotation_at("a.rs", None, Some(7)));
    assert!(!state.has_annotation_at("a.rs", None, Some(12)));
    assert!(!state.has_annotation_at("b.rs", None, Some(7)));
    let over = state.annotations_overlapping("a.rs", None, Some(7));
    assert_eq!(over.len(), 2);
    let over = state.annotations_overlapping("a.rs", None, Some(5));
    assert_eq!(over.len(), 1);
    assert_eq!(over[0].comment, "one");
}

#[test]
fn overlapping_anchors_are_both_retained() {
    let mut state = AnnotationState::new();
    state.add(annotation("a.rs", None, Some((5, 5)), "first"));
    state.add(annotation("a.rs", None, Some((5, 5)), "second"));
    assert_eq!(state.count(), 2);
    let both = state.annotations_overlapping("a.rs", None, Some(5));
    assert_eq!(both.len(), 2);
    assert_eq!(both[0].comment, "first");
    assert_eq!(both[1].comment, "second");
}

#[test]
fn delete_at_overlapping_range() {
    let mut state = AnnotationState::new();
    state.add(annotation("a.rs", None, Some((5, 8)), "one"));
    state.add(annotation("a.rs", None, Some((20, 22)), "two"));
    state.delete_at("a.rs", None, Some((8, 10)));
    assert_eq!(state.count(), 1);
    assert!(!state.has_annotation_at("a.rs", None, Some(6)));
    assert!(state.has_annotation_at("a.rs", None, Some(21)));
}

#[test]
fn delete_annotation_needs_exact_match() {
    let mut state = AnnotationState::new();
    state.add(annotation("a.rs", None, Some((5, 5)), "keep"));
    state.add(annotation("a.rs", None, Some((5, 5)), "drop"));
    state.delete_annotation("a.rs", None, Some((5, 5)), "drop");
    assert_eq!(state.count(), 1);
    let left = state.all_sorted();
    assert_eq!(left[0].comment, "keep");
    // A non-matching comment deletes nothing.
    state.delete_annotation("a.rs", None, Some((5, 5)), "absent");
    assert_eq!(state.count(), 1);
}

#[test]
fn update_comment_keeps_anchor() {
    let mut state = AnnotationState::new();
    state.add(annotation("a.rs", Some((3, 4)), None, "old words"));
    state.update_comment("a.rs", Some((3, 4)), None, "old words", "new words");
    let all = state.all_sorted();
    assert_eq!(all.len(), 1);
    assert_eq!(all[0].comment, "new words");
    assert_eq!(all[0].anchor.old_range, Some((3, 4)));
    assert_eq!(all[0].anchor.new_range, None);
}

#[test]
fn next_after_walks_forward() {
    let mut state = AnnotationState::new();
    state.add(annotation("a.rs", None, Some((5, 5)), "one"));
    state.add(annotation("a.rs", None, Some((30, 30)), "two"));
    state.add(annotation("b.rs", None, Some((2, 2)), "three"));
    let next = state.next_after("a.rs", 5).unwrap();
    assert_eq!(next, ("a.rs".to_string(), 30));
    let next = state.next_after("a.rs", 30).unwrap();
    assert_eq!(next, ("b.rs".to_string(), 2));
}

#[test]
fn navigation_wraps_around() {
    // `next_after` on the last annotation in file/line order comes back
    // with the first annotation, not with nothing.
    let mut state = AnnotationState::new();
    state.add(annotation("a.rs", None, Some((5, 5)), "first"));
    state.add(annotation("b.rs", None, Some((2, 2)), "last"));
    let next = state.next_after("b.rs", 2).unwrap();
    assert_eq!(next, ("a.rs".to_string(), 5));
    let prev = state.prev_before("a.rs", 5).unwrap();
    assert_eq!(prev, ("b.rs".to_string(), 2));
    assert!(AnnotationState::new().next_after("a.rs", 1).is_none());
}

#[test]
fn selection_and_cursor_become_anchors() {
    let lines = vec![
        DiffLine {
            origin: DiffLineOrigin::Deletion,
            old_lineno: Some(10),
            new_lineno: None,
            content: "gone".to_string(),
        },
        DiffLine {
            origin: DiffLineOrigin::Addition,
            old_lineno: None,
            new_lineno: Some(10),
            content: "fresh".to_string(),
        },
        DiffLine {
            origin: DiffLineOrigin::Context,
            old_lineno: Some(11),
            new_lineno: Some(11),
            content: "same".to_string(),
        },
    ];
    let delta = FileDelta {
        path: "a.rs".to_string(),
        old_path: None,
        status: FileStatus::Modified,
        hunks: vec![Hunk {
            header: "@@".to_string(),
            old_start: 10,
            old_lines: 2,
            new_start: 10,
            new_lines: 2,
            lines,
        }],
        additions: 1,
        deletions: 1,
        binary: false,
    };
    let rows = build_split_display_map(&delta, 3, &HashMap::new());
    // Rows: header, paired deletion/addition, context.
    let a = selection_to_anchor("a.rs", &rows, 1, 2).unwrap();
    assert_eq!(a.file_path, "a.rs");
    assert_eq!(a.old_range, Some((10, 11)));
    assert_eq!(a.new_range, Some((10, 11)));
    // A selection of only the header row carries no line numbers.
    assert!(selection_to_anchor("a.rs", &rows, 0, 0).is_none());

    let c = cursor_to_anchor("a.rs", &rows, 2).unwrap();
    assert_eq!(c.old_range, Some((11, 11)));
    assert_eq!(c.new_range, Some((11, 11)));
    assert!(cursor_to_anchor("a.rs", &rows, 99).is_none());
}

#[test]
fn sort_line_prefers_new_side() {
    assert_eq!(anchor("a", Some((7, 9)), Some((20, 22))).sort_line(), 20);
    assert_eq!(anchor("a", Some((7, 9)), None).sort_line(), 7);
    assert_eq!(anchor("a", None, None).sort_line(), 0);
}
