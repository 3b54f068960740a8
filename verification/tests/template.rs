use mdiff_core::annotations::LineAnchor;
use mdiff_core::context::extract_context;
use mdiff_core::diff::{DiffLine, DiffLineOrigin, FileDelta, FileStatus, Hunk};
use mdiff_core::template::{build_agent_command, render_template, replace_all_str, TemplateContext};

#[test]
fn agent_command_escapes_quotes() {
    let cmd = build_agent_command(
        "runner -m {model} '{rendered_prompt}'",
        "fast-model",
        "don't break",
    );
    assert_eq!(cmd, "runner -m fast-model 'don'\\''t break'");
}

#[test]
fn replace_all_is_leftmost_nonoverlapping() {
    assert_eq!(replace_all_str("aaa", "aa", "b"), "ba");
    assert_eq!(replace_all_str("x{v}y{v}", "{v}", "1"), "x1y1");
    assert_eq!(replace_all_str("none here", "{v}", "1"), "none here");
    assert_eq!(replace_all_str("abc", "", "zz"), "abc");
}

#[test]
fn render_substitutes_every_placeholder() {
    let ctx = TemplateContext {
        filename: "src/a.rs".to_string(),
        line_start: 4,
        line_end: 6,
        diff_content: "+new".to_string(),
        context: " old".to_string(),
        comments: "tighten this".to_string(),
        hunk_header: "@@ -1 +1 @@".to_string(),
    };
    let out = render_template(
        "{filename}:{line_start}-{line_end}\n{hunk_header}\n{diff_content}\n{context}\n> {comments}",
        &ctx,
    );
    assert_eq!(
        out,
        "src/a.rs:4-6\n@@ -1 +1 @@\n+new\n old\n> tighten this"
    );
}

fn sample_delta() -> FileDelta {
    let mut lines = Vec::new();
    for i in 1..=10u32 {
        lines.push(DiffLine {
            origin: DiffLineOrigin::Context,
            old_lineno: Some(i),
            new_lineno: Some(i),
            content: format!("line {i}  "),
        });
    }
    lines.push(DiffLine {
        origin: DiffLineOrigin::Addition,
        old_lineno: None,
        new_lineno: Some(11),
        content: "added".to_string(),
    });
    FileDelta {
        path: "src/a.rs".to_string(),
        old_path: None,
        status: FileStatus::Modified,
        hunks: vec![Hunk {
            header: "@@ -1,10 +1,11 @@".to_string(),
            old_start: 1,
            old_lines: 10,
            new_start: 1,
            new_lines: 11,
            lines,
        }],
        additions: 1,
        deletions: 0,
        binary: false,
    }
}

#[test]
fn extract_context_collects_range_padding_and_header() {
    let delta = sample_delta();
    let anchor = LineAnchor {
        file_path: "src/a.rs".to_string(),
        old_range: None,
        new_range: Some((5, 6)),
    };
    let ctx = extract_context(&delta, &anchor, "why this?", 2);
    assert_eq!(ctx.filename, "src/a.rs");
    assert_eq!(ctx.line_start, 5);
    assert_eq!(ctx.line_end, 6);
    // Trailing whitespace of line content is trimmed, prefixes added.
    assert_eq!(ctx.diff_content, " line 5\n line 6");
    assert_eq!(ctx.context, " line 3\n line 4\n line 7\n line 8");
    assert_eq!(ctx.comments, "why this?");
    assert_eq!(ctx.hunk_header, "@@ -1,10 +1,11 @@");
}

#[test]
fn extract_context_outside_any_hunk() {
    let delta = sample_delta();
    let anchor = LineAnchor {
        file_path: "src/a.rs".to_string(),
        old_range: None,
        new_range: Some((100, 101)),
    };
    let ctx = extract_context(&delta, &anchor, "", 1);
    assert_eq!(ctx.diff_content, "");
    assert_eq!(ctx.hunk_header, "");
}
