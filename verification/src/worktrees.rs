//! Worktree data and the selection state of the worktree browser. The
//! directory scanning that fills these values in lives outside the
//! library; here they are plain values.

use vstd::prelude::*;

verus! {

/// Which coding agent appears to operate in a worktree.
#[derive(Clone, Copy, Debug, PartialEq, Eq, Structural)]
pub enum AgentType {
    Cursor,
    Aider,
    Copilot,
    Other,
}

/// What `AgentType::label` returns for each agent.
pub open spec fn agent_label_spec(a: AgentType) -> Seq<char> {
    match a {
        AgentType::Cursor => "Cursor"@,
        AgentType::Aider => "Aider"@,
        AgentType::Copilot => "Copilot"@,
        AgentType::Other => "AI"@,
    }
}

impl AgentType {
    /// Short display label for the agent.
    pub fn label(&self) -> (r: &'static str)
        ensures
            r@ == agent_label_spec(*self),
    {
        match self {
            AgentType::Cursor => "Cursor",
            AgentType::Aider => "Aider",
            AgentType::Copilot => "Copilot",
            AgentType::Other => "AI",
        }
    }
}

/// An agent detected in a worktree.
#[derive(Clone, Copy, Debug)]
pub struct AgentInfo {
    pub agent_type: AgentType,
}

/// One worktree of the repository under review.
#[derive(Debug)]
pub struct WorktreeInfo {
    pub name: String,
    pub path: String,
    pub head_ref: Option<String>,
    pub is_main: bool,
    pub is_dirty: bool,
    pub agent: Option<AgentInfo>,
}

/// Selection state of the worktree browser.
#[derive(Debug)]
pub struct WorktreeState {
    pub selected: usize,
    pub worktrees: Vec<WorktreeInfo>,
    pub loading: bool,
}

impl WorktreeState {
    pub fn new() -> (r: WorktreeState)
        ensures
            r.selected == 0,
            r.worktrees@.len() == 0,
            !r.loading,
    {
        WorktreeState { selected: 0, worktrees: Vec::new(), loading: false }
    }

    /// Move the selection up one entry, stopping at the top.
    pub fn select_up(&mut self)
        ensures
            final(self).selected == (if old(self).selected > 0 {
                old(self).selected - 1
            } else {
                0int
            }),
            final(self).worktrees@ == old(self).worktrees@,
            final(self).loading == old(self).loading,
    {
        if self.selected > 0 {
            self.selected = self.selected - 1;
        }
    }

    /// Move the selection down one entry, clamping to the last entry.
    pub fn select_down(&mut self)
        ensures
            final(self).worktrees@ == old(self).worktrees@,
            final(self).loading == old(self).loading,
            old(self).worktrees@.len() == 0 ==> final(self).selected == old(self).selected,
            old(self).worktrees@.len() > 0 ==> final(self).selected as int == (if old(
                self,
            ).selected + 1 <= old(self).worktrees@.len() - 1 {
                old(self).selected + 1
            } else {
                old(self).worktrees@.len() - 1
            }),
    {
        if self.worktrees.len() > 0 {
            let max = self.worktrees.len() - 1;
            if self.selected >= max {
                self.selected = max;
            } else {
                self.selected = self.selected + 1;
            }
        }
    }

    /// The selected worktree, when the selection is in range.
    pub fn selected_worktree(&self) -> (r: Option<&WorktreeInfo>)
        ensures
            self.selected < self.worktrees@.len() ==> (r matches Some(w) && *w
                == self.worktrees@[self.selected as int]),
            self.selected >= self.worktrees@.len() ==> r is None,
    {
        if self.selected < self.worktrees.len() {
            Some(&self.worktrees[self.selected])
        } else {
            None
        }
    }
}

} // verus!
