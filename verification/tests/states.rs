use mdiff_core::agent_select::AgentSelectorState;
use mdiff_core::config::{build_agents_index, config_path, known_agents};
use mdiff_core::diff::{DiffOptions, DiffViewMode, FileDelta, FileStatus};
use mdiff_core::menu::{binding_width, AnnotationMenuItem};
use mdiff_core::navigator::{fuzzy_match, NavigatorState};
use mdiff_core::review::{compute_diff_hashes, FileReviewStatus, ReviewState};
use mdiff_core::selection::SelectionState;
use mdiff_core::session::{abbreviate_path, session_file, sanitize_target_label};
use mdiff_core::themes::{next_theme, prev_theme};
use mdiff_core::worktrees::{AgentType, WorktreeInfo, WorktreeState};

fn plain_delta(path: &str, adds: usize, dels: usize) -> FileDelta {
    FileDelta {
        path: path.to_string(),
        old_path: None,
        status: FileStatus::Modified,
        hunks: Vec::new(),
        additions: adds,
        deletions: dels,
        binary: false,
    }
}

#[test]
fn fuzzy_match_is_an_ordered_subsequence() {
    assert!(fuzzy_match("src/display_map.rs", "sdm"));
    assert!(fuzzy_match("src/display_map.rs", ""));
    assert!(!fuzzy_match("src/display_map.rs", "zz"));
    assert!(!fuzzy_match("abc", "acb"));
}

#[test]
fn navigator_builds_entries_and_filters() {
    let mut nav = NavigatorState::new();
    nav.update_from_deltas(&vec![
        plain_delta("src/main.rs", 12, 3),
        plain_delta("README.md", 1, 0),
    ]);
    assert_eq!(nav.entries.len(), 2);
    assert_eq!(nav.entries[0].display, "src/main.rs [M] +12 -3");
    assert_eq!(nav.filtered_indices, vec![0, 1]);

    // Case-insensitive fuzzy filtering over paths.
    nav.start_search();
    nav.search_push('R');
    nav.search_push('E');
    assert_eq!(nav.filtered_indices, vec![1]);
    assert_eq!(nav.selected_delta_index(), Some(1));
    nav.search_pop();
    nav.search_pop();
    assert_eq!(nav.filtered_indices, vec![0, 1]);
}

#[test]
fn search_edits_happen_at_the_cursor() {
    let mut nav = NavigatorState::new();
    nav.update_from_deltas(&vec![plain_delta("abc.rs", 0, 0)]);
    nav.start_search();
    nav.search_push('a');
    nav.search_push('c');
    // Move the cursor between the two characters: the next insert and
    // delete act there, not at the end.
    nav.search_query.move_left();
    nav.search_push('b');
    assert_eq!(nav.search_query.text(), "abc");
    assert_eq!(nav.search_query.cursor_char_index(), 2);
    nav.search_pop();
    assert_eq!(nav.search_query.text(), "ac");
}

#[test]
fn navigator_confirm_and_cancel_search() {
    let mut nav = NavigatorState::new();
    nav.update_from_deltas(&vec![
        plain_delta("aa.rs", 0, 0),
        plain_delta("bb.rs", 0, 0),
        plain_delta("cc.rs", 0, 0),
    ]);
    nav.select_down();
    nav.select_down();
    nav.start_search();
    nav.search_push('b');
    assert_eq!(nav.selected_delta_index(), Some(1));
    nav.confirm_search();
    assert!(!nav.search_active);
    assert_eq!(nav.filtered_indices, vec![0, 1, 2]);
    assert_eq!(nav.selected_delta_index(), Some(1));

    nav.start_search();
    nav.search_push('c');
    nav.cancel_search();
    assert_eq!(nav.selected_delta_index(), Some(1));
}

#[test]
fn review_status_follows_refresh() {
    let mut review = ReviewState::new();
    let d1 = plain_delta("a.rs", 0, 0);
    let d2 = plain_delta("b.rs", 0, 0);
    review.on_diff_refresh(compute_diff_hashes(&vec![d1, d2]));
    assert_eq!(review.status("a.rs"), FileReviewStatus::Unreviewed);

    review.mark_reviewed("a.rs");
    assert_eq!(review.status("a.rs"), FileReviewStatus::Reviewed);

    // Same content on refresh: stays reviewed. A new file shows as New.
    let d1 = plain_delta("a.rs", 0, 0);
    let d3 = plain_delta("c.rs", 0, 0);
    review.on_diff_refresh(compute_diff_hashes(&vec![d1, d3]));
    assert_eq!(review.status("a.rs"), FileReviewStatus::Reviewed);
    assert_eq!(review.status("c.rs"), FileReviewStatus::New);
    // The file that disappeared is no longer tracked.
    assert_eq!(review.status("b.rs"), FileReviewStatus::Unreviewed);

    review.toggle_reviewed("a.rs");
    assert_eq!(review.status("a.rs"), FileReviewStatus::Unreviewed);
    review.reset();
    assert_eq!(review.status("c.rs"), FileReviewStatus::Unreviewed);
}

#[test]
fn review_detects_changed_content() {
    let mut review = ReviewState::new();
    let mut d = plain_delta("a.rs", 0, 0);
    d.hunks.push(mdiff_core::diff::Hunk {
        header: "@@ -1 +1 @@".to_string(),
        old_start: 1,
        old_lines: 1,
        new_start: 1,
        new_lines: 1,
        lines: vec![mdiff_core::diff::DiffLine {
            origin: mdiff_core::diff::DiffLineOrigin::Addition,
            old_lineno: None,
            new_lineno: Some(1),
            content: "v1".to_string(),
        }],
    });
    review.on_diff_refresh(compute_diff_hashes(&vec![d.clone()]));
    review.mark_reviewed("a.rs");

    d.hunks[0].lines[0].content = "v2".to_string();
    review.on_diff_refresh(compute_diff_hashes(&vec![d]));
    assert_eq!(review.status("a.rs"), FileReviewStatus::ChangedSinceReview);
}

#[test]
fn selection_range_is_ordered() {
    let mut sel = SelectionState::new();
    sel.active = true;
    sel.anchor = 9;
    sel.cursor = 4;
    assert_eq!(sel.range(), (4, 9));
    assert!(sel.contains(4) && sel.contains(7) && sel.contains(9));
    assert!(!sel.contains(3) && !sel.contains(10));
    sel.cursor = 12;
    assert_eq!(sel.range(), (9, 12));
    sel.active = false;
    assert!(!sel.contains(10));
}

#[test]
fn worktree_selection_clamps() {
    let mut wt = WorktreeState::new();
    assert!(wt.selected_worktree().is_none());
    wt.worktrees.push(WorktreeInfo {
        name: "main".to_string(),
        path: "/repo".to_string(),
        head_ref: Some("main".to_string()),
        is_main: true,
        is_dirty: false,
        agent: None,
    });
    wt.worktrees.push(WorktreeInfo {
        name: "wt1".to_string(),
        path: "/repo-wt1".to_string(),
        head_ref: None,
        is_main: false,
        is_dirty: true,
        agent: None,
    });
    wt.select_down();
    wt.select_down();
    assert_eq!(wt.selected, 1);
    assert_eq!(wt.selected_worktree().unwrap().name, "wt1");
    wt.select_up();
    wt.select_up();
    assert_eq!(wt.selected, 0);
    assert_eq!(AgentType::Cursor.label(), "Cursor");
    assert_eq!(AgentType::Other.label(), "AI");
}

#[test]
fn agent_selector_filter_and_models() {
    let mut sel = AgentSelectorState::new();
    sel.populate(&known_agents());
    assert_eq!(sel.filtered_indices, vec![0, 1, 2]);
    // The first agent lists no models: the default (empty) name comes back.
    assert_eq!(sel.selected_model_name().unwrap(), "");

    // Filtering is case-insensitive substring search over names.
    sel.filter = "GEM".to_string();
    sel.refilter();
    assert_eq!(sel.filtered_indices, vec![2]);
    assert_eq!(
        sel.selected_agent_config().unwrap().name,
        "gemini".to_string()
    );
    assert_eq!(sel.selected_model_name().unwrap(), "gemini-3-flash-preview");
    sel.cycle_model();
    assert_eq!(sel.selected_model_name().unwrap(), "gemini-3-pro-preview");

    // The last-used model is restored when selection moves.
    sel.filter = String::new();
    sel.refilter();
    sel.last_models
        .push(("codex".to_string(), "unknown".to_string()));
    sel.last_models
        .push(("opencode".to_string(), "openai/o3".to_string()));
    sel.select_up();
    sel.select_down();
    assert_eq!(sel.selected_model_name().unwrap(), "openai/o3");
}

#[test]
fn agents_index_and_config_path() {
    let agents = known_agents();
    let index = build_agents_index(&agents);
    assert_eq!(index.len(), 3);
    assert_eq!(index[0], ("codex".to_string(), 0));
    assert_eq!(index[2], ("gemini".to_string(), 2));
    assert_eq!(
        config_path(Some("/home/me")),
        "/home/me/.config/mdiff/config.toml"
    );
    assert_eq!(config_path(None), "./.config/mdiff/config.toml");
}

#[test]
fn theme_cycle_wraps_both_ways() {
    assert_eq!(next_theme("one-dark"), "github-dark");
    assert_eq!(next_theme("solarized-dark"), "one-dark");
    assert_eq!(prev_theme("one-dark"), "solarized-dark");
    assert_eq!(prev_theme("dracula"), "github-dark");
    // Unknown names count as the first theme.
    assert_eq!(next_theme("no-such-theme"), "github-dark");
}

#[test]
fn session_paths_are_sanitized() {
    assert_eq!(sanitize_target_label("feature/x y:z"), "feature_x_y_z");
    assert_eq!(
        session_file("/repo", "origin/main"),
        "/repo/.mdiff/session_origin_main.json"
    );
}

#[test]
fn abbreviate_path_uses_home() {
    assert_eq!(
        abbreviate_path("/home/me/work/repo", Some("/home/me")),
        "~/work/repo"
    );
    assert_eq!(abbreviate_path("/home/me", Some("/home/me")), "~/");
    assert_eq!(
        abbreviate_path("/home/metoo/x", Some("/home/me")),
        "/home/metoo/x"
    );
    assert_eq!(abbreviate_path("/tmp/x", None), "/tmp/x");
}

#[test]
fn menu_item_range_text() {
    let single = AnnotationMenuItem {
        file_path: "a.rs".to_string(),
        old_range: None,
        new_range: Some((7, 7)),
        comment: String::new(),
    };
    assert_eq!(single.range_text(), "Line 7");
    assert_eq!(single.sort_line(), 7);
    let span = AnnotationMenuItem {
        file_path: "a.rs".to_string(),
        old_range: None,
        new_range: Some((7, 9)),
        comment: String::new(),
    };
    assert_eq!(span.range_text(), "Lines 7-9");
    let removed = AnnotationMenuItem {
        file_path: "a.rs".to_string(),
        old_range: Some((3, 5)),
        new_range: None,
        comment: String::new(),
    };
    assert_eq!(removed.range_text(), "Removed lines 3-5 (old)");
    let unknown = AnnotationMenuItem {
        file_path: "a.rs".to_string(),
        old_range: None,
        new_range: None,
        comment: String::new(),
    };
    assert_eq!(unknown.range_text(), "Line ?");
}

#[test]
fn binding_width_counts_brackets() {
    assert_eq!(binding_width("q", "quit"), 7);
}

#[test]
fn diff_options_pick_view_mode() {
    assert_eq!(DiffOptions::new(false, true).view_mode, DiffViewMode::Unified);
    assert_eq!(DiffOptions::new(true, false).view_mode, DiffViewMode::Split);
    assert!(DiffOptions::new(true, false).ignore_whitespace);
}
