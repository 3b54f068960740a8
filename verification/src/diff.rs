//! Value types describing one computed diff: origin-tagged lines grouped
//! into hunks, grouped into per-file deltas. A delta is an immutable input
//! snapshot for one layout pass.

use vstd::prelude::*;

verus! {

/// Kind of change a single diff line carries.
#[derive(Clone, Copy, Debug, PartialEq, Eq, Structural)]
pub enum DiffLineOrigin {
    Context,
    Addition,
    Deletion,
}

/// Per-file change status, as reported by the diff collaborator.
#[derive(Clone, Copy, Debug, PartialEq, Eq, Structural)]
pub enum FileStatus {
    Added,
    Deleted,
    Modified,
    Renamed,
    Untracked,
}

/// What `FileStatus::label` returns for each status.
pub open spec fn status_label_spec(s: FileStatus) -> Seq<char> {
    match s {
        FileStatus::Added => "A"@,
        FileStatus::Deleted => "D"@,
        FileStatus::Modified => "M"@,
        FileStatus::Renamed => "R"@,
        FileStatus::Untracked => "?"@,
    }
}

impl FileStatus {
    /// One-character marker shown next to a file name.
    pub fn label(&self) -> (r: &'static str)
        ensures
            r@ == status_label_spec(*self),
    {
        match self {
            FileStatus::Added => "A",
            FileStatus::Deleted => "D",
            FileStatus::Modified => "M",
            FileStatus::Renamed => "R",
            FileStatus::Untracked => "?",
        }
    }
}

/// One line of a hunk. For `Context` both line numbers are present; for
/// `Addition` only the new one; for `Deletion` only the old one.
#[derive(Clone, Debug)]
pub struct DiffLine {
    pub origin: DiffLineOrigin,
    pub old_lineno: Option<u32>,
    pub new_lineno: Option<u32>,
    pub content: String,
}

/// A contiguous block of the diff, with its header text.
#[derive(Clone, Debug)]
pub struct Hunk {
    pub header: String,
    pub old_start: u32,
    pub old_lines: u32,
    pub new_start: u32,
    pub new_lines: u32,
    pub lines: Vec<DiffLine>,
}

/// All hunks of one file, plus file-level metadata.
#[derive(Clone, Debug)]
pub struct FileDelta {
    pub path: String,
    pub old_path: Option<String>,
    pub status: FileStatus,
    pub hunks: Vec<Hunk>,
    pub additions: usize,
    pub deletions: usize,
    pub binary: bool,
}

/// How the diff is laid out on screen.
#[derive(Clone, Copy, Debug, PartialEq, Eq, Structural)]
pub enum DiffViewMode {
    Split,
    Unified,
}

/// Options of one diff computation that the layout also reads.
#[derive(Clone, Copy, Debug)]
pub struct DiffOptions {
    pub ignore_whitespace: bool,
    pub view_mode: DiffViewMode,
}

impl DiffOptions {
    pub fn new(ignore_whitespace: bool, unified: bool) -> (r: DiffOptions)
        ensures
            r.ignore_whitespace == ignore_whitespace,
            r.view_mode == (if unified {
                DiffViewMode::Unified
            } else {
                DiffViewMode::Split
            }),
    {
        DiffOptions {
            ignore_whitespace,
            view_mode: if unified {
                DiffViewMode::Unified
            } else {
                DiffViewMode::Split
            },
        }
    }
}

} // verus!
