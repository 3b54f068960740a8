//! View-model core of a terminal diff-review tool.
//!
//! The library keeps a stable, addressable view over a computed diff:
//! context runs are collapsed behind expandable indicators, deletion and
//! addition blocks are paired for a dual-pane layout, logical rows are
//! wrapped to fixed-width visual rows with both panes kept in lock step,
//! and user annotations are anchored to file line numbers so they survive
//! every rebuild of the layout.

pub mod agent_select;
pub mod annotations;
pub mod config;
pub mod content;
pub mod context;
pub mod diff;
pub mod language;
pub mod menu;
pub mod navigator;
pub mod review;
pub mod selection;
pub mod session;
pub mod worktrees;
pub mod display_map;
pub mod strutil;
pub mod template;
pub mod text_buffer;
pub mod themes;
pub mod wrap;
