//! Visual line selection over display rows.

use vstd::prelude::*;

verus! {

/// State for visual line selection in the diff view. `anchor` is where
/// the selection started, `cursor` where it currently is; both are
/// display-row indices.
#[derive(Debug)]
pub struct SelectionState {
    pub active: bool,
    pub anchor: usize,
    pub cursor: usize,
}

impl SelectionState {
    /// An inactive selection at the origin.
    pub fn new() -> (r: SelectionState)
        ensures
            !r.active,
            r.anchor == 0,
            r.cursor == 0,
    {
        SelectionState { active: false, anchor: 0, cursor: 0 }
    }

    /// Whether a display row falls inside the active selection.
    pub fn contains(&self, display_row: usize) -> (r: bool)
        ensures
            r == (self.active && (if self.anchor <= self.cursor {
                self.anchor <= display_row <= self.cursor
            } else {
                self.cursor <= display_row <= self.anchor
            })),
    {
        if !self.active {
            return false;
        }
        let (start, end) = self.range();
        start <= display_row && display_row <= end
    }

    /// The selected display-row range, inclusive at both ends: the lower
    /// of anchor and cursor first.
    pub fn range(&self) -> (r: (usize, usize))
        ensures
            r.0 == (if self.anchor <= self.cursor {
                self.anchor
            } else {
                self.cursor
            }),
            r.1 == (if self.anchor <= self.cursor {
                self.cursor
            } else {
                self.anchor
            }),
            r.0 <= r.1,
    {
        if self.anchor <= self.cursor {
            (self.anchor, self.cursor)
        } else {
            (self.cursor, self.anchor)
        }
    }
}

} // verus!
