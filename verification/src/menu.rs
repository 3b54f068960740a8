//! Owned snapshots of annotations for the annotation menu, and the small
//! enums naming the active view and focused panel.

use vstd::prelude::*;
use vstd::string::StringSliceAdditionalSpecFns;

use crate::strutil::dec_digits;
use crate::strutil::u32_to_string;

verus! {

/// Which top-level view is active.
#[derive(Clone, Copy, Debug, PartialEq, Eq, Structural)]
pub enum ActiveView {
    DiffExplorer,
    WorktreeBrowser,
    AgentOutputs,
}

/// Which panel has keyboard focus.
#[derive(Clone, Copy, Debug, PartialEq, Eq, Structural)]
pub enum FocusPanel {
    Navigator,
    DiffView,
}

/// Width one key binding occupies in the hint bar: `[key]desc`.
pub fn binding_width(key: &str, desc: &str) -> (r: usize)
    requires
        key.spec_bytes().len() + desc.spec_bytes().len() + 2 <= usize::MAX,
    ensures
        r == key.spec_bytes().len() + desc.spec_bytes().len() + 2,
{
    key.len() + desc.len() + 2
}

/// Snapshot of an annotation for the annotation menu, owned so the menu
/// can outlive a borrow of the store.
#[derive(Debug)]
pub struct AnnotationMenuItem {
    pub file_path: String,
    pub old_range: Option<(u32, u32)>,
    pub new_range: Option<(u32, u32)>,
    pub comment: String,
}

/// Context for editing an existing annotation.
#[derive(Debug)]
pub struct EditingAnnotation {
    pub file_path: String,
    pub old_range: Option<(u32, u32)>,
    pub new_range: Option<(u32, u32)>,
    pub old_comment: String,
}

/// What `AnnotationMenuItem::range_text` renders for given ranges.
pub open spec fn range_text_spec(
    old_range: Option<(u32, u32)>,
    new_range: Option<(u32, u32)>,
) -> Seq<char> {
    match (old_range, new_range) {
        (_, Some(r)) => if r.0 == r.1 {
            "Line "@ + dec_digits(r.0 as nat)
        } else {
            "Lines "@ + dec_digits(r.0 as nat) + "-"@ + dec_digits(r.1 as nat)
        },
        (Some(r), None) => if r.0 == r.1 {
            "Removed line "@ + dec_digits(r.0 as nat) + " (old)"@
        } else {
            "Removed lines "@ + dec_digits(r.0 as nat) + "-"@ + dec_digits(r.1 as nat) + " (old)"@
        },
        (None, None) => "Line ?"@,
    }
}

impl AnnotationMenuItem {
    /// Representative line for display, preferring the new side.
    pub fn sort_line(&self) -> (r: u32)
        ensures
            r == match self.new_range {
                Some(nr) => nr.0,
                None => match self.old_range {
                    Some(or) => or.0,
                    None => 0u32,
                },
            },
    {
        match self.new_range {
            Some((s, _)) => s,
            None => match self.old_range {
                Some((s, _)) => s,
                None => 0,
            },
        }
    }

    /// A human-readable description of the anchored range.
    pub fn range_text(&self) -> (r: String)
        ensures
            r@ == range_text_spec(self.old_range, self.new_range),
    {
        match (self.old_range, self.new_range) {
            (_, Some((s, e))) => {
                if s == e {
                    let mut r = String::from_str("Line ");
                    r.append(u32_to_string(s).as_str());
                    r
                } else {
                    let mut r = String::from_str("Lines ");
                    r.append(u32_to_string(s).as_str());
                    r.append("-");
                    r.append(u32_to_string(e).as_str());
                    r
                }
            },
            (Some((s, e)), None) => {
                if s == e {
                    let mut r = String::from_str("Removed line ");
                    r.append(u32_to_string(s).as_str());
                    r.append(" (old)");
                    r
                } else {
                    let mut r = String::from_str("Removed lines ");
                    r.append(u32_to_string(s).as_str());
                    r.append("-");
                    r.append(u32_to_string(e).as_str());
                    r.append(" (old)");
                    r
                }
            },
            (None, None) => String::from_str("Line ?"),
        }
    }
}

} // verus!
