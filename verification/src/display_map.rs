//! The display-row layout engine: collapsing long context runs behind
//! expandable indicators (the gap filter) and mapping a file delta to the
//! ordered, addressable row sequence of the split or unified view.
//!
//! The layout is a pure function of `(delta, view mode, context window,
//! gap expansions)`; gap ids are assigned by traversal position so that a
//! rebuild with the same structure reuses the same ids.

use std::collections::HashMap;
use vstd::prelude::*;

use crate::diff::{DiffLine, DiffLineOrigin, DiffViewMode, FileDelta, Hunk};

verus! {

broadcast use vstd::std_specs::hash::group_hash_axioms;

/// Direction a collapsed indicator expands toward when activated.
#[derive(Clone, Copy, Debug, PartialEq, Eq, Structural)]
pub enum ExpandDirection {
    /// Reveals lines below (after the previous change).
    Down,
    /// Reveals lines above (before the next change).
    Up,
}

/// A filtered item from a hunk: either a visible line, referred to by its
/// index in the hunk, or a collapsed indicator.
#[derive(Clone, Copy, Debug, PartialEq, Eq, Structural)]
pub enum FilteredItem {
    Line { hunk_line_index: usize },
    CollapsedIndicator { hidden_count: usize, gap_id: usize, direction: ExpandDirection },
}

pub open spec fn is_context(l: DiffLine) -> bool {
    l.origin == DiffLineOrigin::Context
}

/// Length of the maximal run of context lines starting at `i`.
pub open spec fn run_len(lines: Seq<DiffLine>, i: int) -> nat
    decreases lines.len() - i,
{
    if i < 0 || i >= lines.len() || !is_context(lines[i]) {
        0
    } else {
        1 + run_len(lines, i + 1)
    }
}

pub proof fn lemma_run_len(lines: Seq<DiffLine>, i: int)
    requires
        0 <= i <= lines.len(),
    ensures
        i + run_len(lines, i) <= lines.len(),
        forall|k: int| i <= k < i + run_len(lines, i) ==> is_context(#[trigger] lines[k]),
        i + run_len(lines, i) == lines.len() || !is_context(lines[i + run_len(lines, i)]),
    decreases lines.len() - i,
{
    if i < lines.len() && is_context(lines[i]) {
        lemma_run_len(lines, i + 1);
    }
}

/// A run of context lines with these end conditions has exactly this length.
pub proof fn lemma_run_len_exact(lines: Seq<DiffLine>, i: int, j: int)
    requires
        0 <= i <= j <= lines.len(),
        forall|k: int| i <= k < j ==> is_context(#[trigger] lines[k]),
        j == lines.len() || !is_context(lines[j]),
    ensures
        run_len(lines, i) == j - i,
    decreases j - i,
{
    if i < j {
        lemma_run_len_exact(lines, i + 1, j);
    }
}

/// The extra lines the expansion map reveals for a given gap id.
pub open spec fn extra_of(exp: Map<usize, usize>, id: int) -> int {
    if 0 <= id <= usize::MAX && exp.contains_key(id as usize) {
        exp[id as usize] as int
    } else {
        0
    }
}

/// `count` pass-through line items starting at hunk line `start`.
pub open spec fn line_items(start: int, count: int) -> Seq<FilteredItem> {
    Seq::new(count as nat, |k: int| FilteredItem::Line { hunk_line_index: (start + k) as usize })
}

/// How many lines of the run `[i, j)` are shown at the top and at the
/// bottom, as governed by the context window and the expansion map, and
/// the indicator direction of a one-sided run.
pub open spec fn run_show(
    lines: Seq<DiffLine>,
    n: nat,
    exp: Map<usize, usize>,
    g: int,
    i: int,
    j: int,
) -> (int, int) {
    let base_top: int = if i > 0 { n as int } else { 0 };
    let base_bottom: int = if j < lines.len() { n as int } else { 0 };
    if i > 0 && j < lines.len() {
        (base_top + extra_of(exp, g), base_bottom + extra_of(exp, g + 1))
    } else if i == 0 {
        (base_top, base_bottom + extra_of(exp, g))
    } else {
        (base_top + extra_of(exp, g), base_bottom)
    }
}

/// Gap ids a run consumes: none when the window already covers it, two
/// when it is flanked by changes on both sides, one otherwise.
pub open spec fn run_id_cost(lines: Seq<DiffLine>, n: nat, i: int, j: int) -> int {
    let base_top: int = if i > 0 { n as int } else { 0 };
    let base_bottom: int = if j < lines.len() { n as int } else { 0 };
    if base_top + base_bottom >= j - i {
        0
    } else if i > 0 && j < lines.len() {
        2
    } else {
        1
    }
}

/// The items one maximal context run `[i, j)` contributes.
pub open spec fn run_items(
    lines: Seq<DiffLine>,
    n: nat,
    exp: Map<usize, usize>,
    g: int,
    i: int,
    j: int,
) -> Seq<FilteredItem> {
    let total = j - i;
    let base_top: int = if i > 0 { n as int } else { 0 };
    let base_bottom: int = if j < lines.len() { n as int } else { 0 };
    if base_top + base_bottom >= total {
        line_items(i, total)
    } else {
        let (show_top, show_bottom) = run_show(lines, n, exp, g, i, j);
        if show_top + show_bottom >= total {
            line_items(i, total)
        } else {
            let hidden = total - show_top - show_bottom;
            let indicators: Seq<FilteredItem> = if i > 0 && j < lines.len() {
                seq![
                    FilteredItem::CollapsedIndicator {
                        hidden_count: hidden as usize,
                        gap_id: g as usize,
                        direction: ExpandDirection::Down,
                    },
                    FilteredItem::CollapsedIndicator {
                        hidden_count: hidden as usize,
                        gap_id: (g + 1) as usize,
                        direction: ExpandDirection::Up,
                    },
                ]
            } else {
                seq![
                    FilteredItem::CollapsedIndicator {
                        hidden_count: hidden as usize,
                        gap_id: g as usize,
                        direction: if i == 0 {
                            ExpandDirection::Up
                        } else {
                            ExpandDirection::Down
                        },
                    },
                ]
            };
            line_items(i, show_top) + indicators + line_items(j - show_bottom, show_bottom)
        }
    }
}

/// The filtered items of `lines` from position `i` on, with `g` the next
/// gap id to hand out.
pub open spec fn filter_items(
    lines: Seq<DiffLine>,
    n: nat,
    exp: Map<usize, usize>,
    g: int,
    i: int,
) -> Seq<FilteredItem>
    decreases lines.len() - i,
{
    if i < 0 || i >= lines.len() {
        Seq::empty()
    } else if !is_context(lines[i]) {
        seq![FilteredItem::Line { hunk_line_index: i as usize }] + filter_items(
            lines,
            n,
            exp,
            g,
            i + 1,
        )
    } else {
        let j0 = i + run_len(lines, i);
        let j = if j0 <= lines.len() {
            j0
        } else {
            lines.len() as int
        };
        run_items(lines, n, exp, g, i, j) + filter_items(
            lines,
            n,
            exp,
            g + run_id_cost(lines, n, i, j),
            j,
        )
    }
}

/// Gap ids consumed by `lines` from position `i` on.
pub open spec fn id_cost_from(lines: Seq<DiffLine>, n: nat, i: int) -> int
    decreases lines.len() - i,
{
    if i < 0 || i >= lines.len() {
        0
    } else if !is_context(lines[i]) {
        id_cost_from(lines, n, i + 1)
    } else {
        let j0 = i + run_len(lines, i);
        let j = if j0 <= lines.len() {
            j0
        } else {
            lines.len() as int
        };
        run_id_cost(lines, n, i, j) + id_cost_from(lines, n, j)
    }
}

pub proof fn lemma_id_cost_bound(lines: Seq<DiffLine>, n: nat, i: int)
    requires
        0 <= i <= lines.len(),
    ensures
        0 <= id_cost_from(lines, n, i) <= 2 * (lines.len() - i),
    decreases lines.len() - i,
{
    if i < lines.len() {
        if !is_context(lines[i]) {
            lemma_id_cost_bound(lines, n, i + 1);
        } else {
            lemma_run_len(lines, i);
            let j = i + run_len(lines, i);
            assert(run_len(lines, i) >= 1);
            lemma_id_cost_bound(lines, n, j);
        }
    }
}

/// Append pass-through items for hunk lines `[start, end)`.
fn push_line_items(items: &mut Vec<FilteredItem>, start: usize, end: usize)
    requires
        start <= end,
    ensures
        final(items)@ == old(items)@ + line_items(start as int, end - start),
{
    let mut k = start;
    while k < end
        invariant
            start <= k <= end,
            items@ == old(items)@ + line_items(start as int, k - start),
        decreases end - k,
    {
        items.push(FilteredItem::Line { hunk_line_index: k });
        k = k + 1;
        proof {
            assert(items@ =~= old(items)@ + line_items(start as int, k - start));
        }
    }
}

/// Extra expansion recorded for `id`, zero when absent.
fn expansion_for(gap_expansions: &HashMap<usize, usize>, id: usize) -> (r: usize)
    ensures
        r as int == extra_of(gap_expansions@, id as int),
{
    match gap_expansions.get(&id) {
        Some(v) => *v,
        None => 0,
    }
}

/// Emit the items of one maximal context run `[run_start, run_end)` and
/// return the next free gap id.
#[verifier::rlimit(100)]
fn emit_context_run(
    items: &mut Vec<FilteredItem>,
    lines: &Vec<DiffLine>,
    display_context: usize,
    gap_expansions: &HashMap<usize, usize>,
    gap_id: usize,
    run_start: usize,
    run_end: usize,
) -> (next_id: usize)
    requires
        run_start <= run_end <= lines@.len(),
        gap_id + 2 <= usize::MAX,
    ensures
        final(items)@ == old(items)@ + run_items(
            lines@,
            display_context as nat,
            gap_expansions@,
            gap_id as int,
            run_start as int,
            run_end as int,
        ),
        next_id as int == gap_id + run_id_cost(
            lines@,
            display_context as nat,
            run_start as int,
            run_end as int,
        ),
{
    let ghost n: nat = display_context as nat;
    let ghost exp: Map<usize, usize> = gap_expansions@;
    let ghost g: int = gap_id as int;
    let ghost items0 = items@;
    let ghost ri = run_items(lines@, n, exp, g, run_start as int, run_end as int);
    let total = run_end - run_start;

    let has_change_before = run_start > 0;
    let has_change_after = run_end < lines.len();

    let show_after_prev: usize = if has_change_before {
        display_context
    } else {
        0
    };
    let show_before_next: usize = if has_change_after {
        display_context
    } else {
        0
    };
    let baseline_total = show_after_prev.saturating_add(show_before_next);
    let ghost base_top: int = if run_start > 0 {
        n as int
    } else {
        0
    };
    let ghost base_bottom: int = if (run_end as int) < lines@.len() {
        n as int
    } else {
        0
    };
    proof {
        assert(show_after_prev as int == base_top);
        assert(show_before_next as int == base_bottom);
        assert((baseline_total >= total) == (base_top + base_bottom >= total as int));
    }

    if baseline_total >= total {
        // The window already shows the whole run: no gap, no id.
        push_line_items(items, run_start, run_end);
        proof {
            assert(ri =~= line_items(run_start as int, total as int));
            assert(run_id_cost(lines@, n, run_start as int, run_end as int) == 0);
        }
        gap_id
    } else if has_change_before && has_change_after {
        // Between two changes: two indicators with independent expansion.
        let top_gap_id = gap_id;
        let bottom_gap_id = gap_id + 1;
        let top_extra = expansion_for(gap_expansions, top_gap_id);
        let bottom_extra = expansion_for(gap_expansions, bottom_gap_id);
        let show_top = show_after_prev.saturating_add(top_extra);
        let show_bottom = show_before_next.saturating_add(bottom_extra);
        let total_show = show_top.saturating_add(show_bottom);
        let ghost st: int = base_top + extra_of(exp, g);
        let ghost sb: int = base_bottom + extra_of(exp, g + 1);
        proof {
            assert(run_show(lines@, n, exp, g, run_start as int, run_end as int) == (st, sb));
            assert((total_show >= total) == (st + sb >= total as int));
        }

        if total_show >= total {
            push_line_items(items, run_start, run_end);
            proof {
                assert(ri =~= line_items(run_start as int, total as int));
            }
        } else {
            proof {
                assert(show_top as int == st && show_bottom as int == sb);
            }
            let hidden = total - total_show;
            push_line_items(items, run_start, run_start + show_top);
            items.push(FilteredItem::CollapsedIndicator {
                hidden_count: hidden,
                gap_id: top_gap_id,
                direction: ExpandDirection::Down,
            });
            items.push(FilteredItem::CollapsedIndicator {
                hidden_count: hidden,
                gap_id: bottom_gap_id,
                direction: ExpandDirection::Up,
            });
            push_line_items(items, run_end - show_bottom, run_end);
            proof {
                assert(items@ =~= items0 + ri);
            }
        }
        gap_id + 2
    } else {
        // One-sided run: a single indicator.
        let extra = expansion_for(gap_expansions, gap_id);
        let (show_top, show_bottom) = if !has_change_before {
            (show_after_prev, show_before_next.saturating_add(extra))
        } else {
            (show_after_prev.saturating_add(extra), show_before_next)
        };
        let total_show = show_top.saturating_add(show_bottom);
        let ghost spec_show = run_show(lines@, n, exp, g, run_start as int, run_end as int);
        proof {
            assert((total_show >= total) == (spec_show.0 + spec_show.1 >= total as int));
        }

        if total_show >= total {
            push_line_items(items, run_start, run_end);
            proof {
                assert(ri =~= line_items(run_start as int, total as int));
            }
        } else {
            proof {
                assert(show_top as int == spec_show.0 && show_bottom as int == spec_show.1);
            }
            let hidden = total - total_show;
            push_line_items(items, run_start, run_start + show_top);
            let direction = if !has_change_before {
                ExpandDirection::Up
            } else {
                ExpandDirection::Down
            };
            items.push(FilteredItem::CollapsedIndicator { hidden_count: hidden, gap_id, direction });
            push_line_items(items, run_end - show_bottom, run_end);
            proof {
                assert(items@ =~= items0 + ri);
            }
        }
        gap_id + 1
    }
}

/// Filter a hunk's lines, collapsing context runs that the context window
/// does not already cover behind one or two expandable indicators.
///
/// Returns the filtered items and the next free gap id. The id counter
/// advances per run whether or not an indicator was emitted, so ids stay
/// positionally stable across rebuilds with the same structure.
#[verifier::rlimit(100)]
pub fn filter_hunk_lines(
    lines: &Vec<DiffLine>,
    display_context: usize,
    gap_expansions: &HashMap<usize, usize>,
    gap_id_offset: usize,
) -> (r: (Vec<FilteredItem>, usize))
    requires
        gap_id_offset + 2 * lines@.len() <= usize::MAX,
    ensures
        r.0@ == filter_items(lines@, display_context as nat, gap_expansions@, gap_id_offset as int, 0),
        r.1 as int == gap_id_offset + id_cost_from(lines@, display_context as nat, 0),
{
    let ghost n: nat = display_context as nat;
    let ghost exp: Map<usize, usize> = gap_expansions@;
    let mut items: Vec<FilteredItem> = Vec::new();
    let mut gap_id: usize = gap_id_offset;
    let mut i: usize = 0;

    while i < lines.len()
        invariant
            gap_id_offset + 2 * lines@.len() <= usize::MAX,
            0 <= i <= lines@.len(),
            gap_id as int == gap_id_offset + (id_cost_from(lines@, n, 0) - id_cost_from(lines@, n, i as int)),
            gap_id <= gap_id_offset + 2 * i,
            items@ + filter_items(lines@, n, exp, gap_id as int, i as int) == filter_items(
                lines@,
                n,
                exp,
                gap_id_offset as int,
                0,
            ),
            n == display_context as nat,
            exp == gap_expansions@,
        decreases lines@.len() - i,
    {
        proof {
            lemma_id_cost_bound(lines@, n, i as int);
        }
        if lines[i].origin != DiffLineOrigin::Context {
            let ghost items0 = items@;
            items.push(FilteredItem::Line { hunk_line_index: i });
            proof {
                assert(filter_items(lines@, n, exp, gap_id as int, i as int) == seq![
                    FilteredItem::Line { hunk_line_index: i as usize },
                ] + filter_items(lines@, n, exp, gap_id as int, i + 1));
                assert(items@ + filter_items(lines@, n, exp, gap_id as int, i + 1) =~= items0
                    + filter_items(lines@, n, exp, gap_id as int, i as int));
            }
            i = i + 1;
            continue;
        }

        // Collect the full run of consecutive context lines.
        let run_start = i;
        while i < lines.len() && lines[i].origin == DiffLineOrigin::Context
            invariant
                run_start <= i <= lines@.len(),
                forall|k: int| run_start <= k < i ==> is_context(#[trigger] lines@[k]),
            decreases lines@.len() - i,
        {
            i = i + 1;
        }
        let run_end = i;
        let total = run_end - run_start;
        proof {
            lemma_run_len_exact(lines@, run_start as int, run_end as int);
        }
        let ghost g = gap_id as int;
        let ghost items0 = items@;
        let ghost ri = run_items(lines@, n, exp, g, run_start as int, run_end as int);
        proof {
            assert(filter_items(lines@, n, exp, g, run_start as int) == ri + filter_items(
                lines@,
                n,
                exp,
                g + run_id_cost(lines@, n, run_start as int, run_end as int),
                run_end as int,
            ));
        }

        gap_id = emit_context_run(
            &mut items,
            lines,
            display_context,
            gap_expansions,
            gap_id,
            run_start,
            run_end,
        );
        proof {
            assert(items@ =~= items0 + ri);
            assert(items@ + filter_items(lines@, n, exp, gap_id as int, run_end as int) =~= items0
                + filter_items(lines@, n, exp, g, run_start as int));
        }
    }
    proof {
        assert(filter_items(lines@, n, exp, gap_id as int, i as int) =~= Seq::<
            FilteredItem,
        >::empty());
        assert(items@ =~= items@ + filter_items(lines@, n, exp, gap_id as int, i as int));
    }
    (items, gap_id)
}

/// How many pass-through lines a filtered item sequence shows.
pub open spec fn visible_count(items: Seq<FilteredItem>) -> int
    decreases items.len(),
{
    if items.len() == 0 {
        0
    } else {
        (if items[0] matches FilteredItem::Line { .. } {
            1int
        } else {
            0int
        }) + visible_count(items.drop_first())
    }
}

pub proof fn lemma_visible_count_add(a: Seq<FilteredItem>, b: Seq<FilteredItem>)
    ensures
        visible_count(a + b) == visible_count(a) + visible_count(b),
    decreases a.len(),
{
    if a.len() == 0 {
        assert(a + b =~= b);
    } else {
        assert((a + b).drop_first() =~= a.drop_first() + b);
        lemma_visible_count_add(a.drop_first(), b);
    }
}

pub proof fn lemma_visible_count_lines(start: int, count: int)
    requires
        count >= 0,
    ensures
        visible_count(line_items(start, count)) == count,
    decreases count,
{
    if count == 0 {
        assert(line_items(start, 0).len() == 0);
    } else {
        lemma_visible_count_lines(start + 1, count - 1);
        assert(line_items(start, count).drop_first() =~= line_items(start + 1, count - 1));
    }
}

/// Conservation: over one maximal context run, the lines shown plus the
/// hidden count reported by any indicator add up to the run's length; and
/// with no indicator present, every line of the run is shown.
pub proof fn lemma_run_conservation(
    lines: Seq<DiffLine>,
    n: nat,
    exp: Map<usize, usize>,
    g: int,
    i: int,
    j: int,
)
    requires
        0 <= i <= j <= lines.len(),
        j - i <= usize::MAX,
    ensures
        forall|k: int|
            0 <= k < run_items(lines, n, exp, g, i, j).len() ==> ((#[trigger] run_items(
                lines,
                n,
                exp,
                g,
                i,
                j,
            )[k]) matches FilteredItem::CollapsedIndicator { hidden_count, .. } ==> visible_count(
                run_items(lines, n, exp, g, i, j),
            ) + hidden_count == j - i),
        (forall|k: int|
            0 <= k < run_items(lines, n, exp, g, i, j).len() ==> !((#[trigger] run_items(
                lines,
                n,
                exp,
                g,
                i,
                j,
            )[k]) matches FilteredItem::CollapsedIndicator { .. })) ==> visible_count(
            run_items(lines, n, exp, g, i, j),
        ) == j - i,
{
    let items = run_items(lines, n, exp, g, i, j);
    let total = j - i;
    let base_top: int = if i > 0 { n as int } else { 0 };
    let base_bottom: int = if j < lines.len() { n as int } else { 0 };
    if base_top + base_bottom >= total {
        lemma_visible_count_lines(i, total);
    } else {
        let (show_top, show_bottom) = run_show(lines, n, exp, g, i, j);
        if show_top + show_bottom >= total {
            lemma_visible_count_lines(i, total);
        } else {
            let hidden = total - show_top - show_bottom;
            let top = line_items(i, show_top);
            let bottom = line_items(j - show_bottom, show_bottom);
            let inds: Seq<FilteredItem> = if i > 0 && j < lines.len() {
                seq![
                    FilteredItem::CollapsedIndicator {
                        hidden_count: hidden as usize,
                        gap_id: g as usize,
                        direction: ExpandDirection::Down,
                    },
                    FilteredItem::CollapsedIndicator {
                        hidden_count: hidden as usize,
                        gap_id: (g + 1) as usize,
                        direction: ExpandDirection::Up,
                    },
                ]
            } else {
                seq![
                    FilteredItem::CollapsedIndicator {
                        hidden_count: hidden as usize,
                        gap_id: g as usize,
                        direction: if i == 0 {
                            ExpandDirection::Up
                        } else {
                            ExpandDirection::Down
                        },
                    },
                ]
            };
            assert(items == top + inds + bottom);
            lemma_visible_count_add(top + inds, bottom);
            lemma_visible_count_add(top, inds);
            lemma_visible_count_lines(i, show_top);
            lemma_visible_count_lines(j - show_bottom, show_bottom);
            assert(0 < hidden <= j - i);
            assert(hidden as usize == hidden);
            assert(visible_count(Seq::<FilteredItem>::empty()) == 0);
            if inds.len() == 2 {
                let s1 = seq![inds[1]];
                assert(s1.drop_first() =~= Seq::<FilteredItem>::empty());
                assert(!(s1[0] matches FilteredItem::Line { .. }));
                assert(visible_count(s1) == 0);
                assert(inds.drop_first() =~= s1);
                assert(!(inds[0] matches FilteredItem::Line { .. }));
                assert(visible_count(inds) == 0);
            } else {
                assert(inds.drop_first() =~= Seq::<FilteredItem>::empty());
                assert(!(inds[0] matches FilteredItem::Line { .. }));
                assert(visible_count(inds) == 0);
            }
            assert(visible_count(items) == show_top + show_bottom);
            assert(items[show_top] == inds[0]);
            assert((items[show_top]) matches FilteredItem::CollapsedIndicator { .. });
            assert forall|k: int|
                0 <= k < items.len() implies ((#[trigger] items[k]) matches FilteredItem::CollapsedIndicator { hidden_count, .. } ==> visible_count(
                items,
            ) + hidden_count == j - i) by {
                if k < show_top {
                    assert(items[k] == top[k]);
                } else if k < show_top + inds.len() {
                    assert(items[k] == inds[k - show_top]);
                } else {
                    assert(items[k] == bottom[k - show_top - inds.len()]);
                }
            }
        }
    }
}

/// Information about what a single display row maps to in the diff.
#[derive(Clone, Debug, PartialEq, Eq)]
pub struct DisplayRowInfo {
    /// Index of the hunk this row belongs to.
    pub hunk_index: usize,
    /// Index of the line within the hunk (`None` for headers/indicators).
    pub line_index: Option<usize>,
    /// Old-side line number (1-based), if applicable.
    pub old_lineno: Option<u32>,
    /// New-side line number (1-based), if applicable.
    pub new_lineno: Option<u32>,
    /// The origin of this line, for content rows.
    pub origin: Option<DiffLineOrigin>,
    /// Whether this is a hunk header row.
    pub is_header: bool,
    /// Whether this row is a collapsed context indicator.
    pub is_collapsed_indicator: bool,
    /// The gap id of a collapsed indicator, used for expansion.
    pub gap_id: Option<usize>,
    /// Number of hidden lines, meaningful only on indicators.
    pub hidden_count: usize,
    /// Which way a collapsed indicator expands.
    pub expand_direction: Option<ExpandDirection>,
}

pub open spec fn header_row(h: int) -> DisplayRowInfo {
    DisplayRowInfo {
        hunk_index: h as usize,
        line_index: None,
        old_lineno: None,
        new_lineno: None,
        origin: None,
        is_header: true,
        is_collapsed_indicator: false,
        gap_id: None,
        hidden_count: 0,
        expand_direction: None,
    }
}

pub open spec fn indicator_row(
    h: int,
    hidden_count: usize,
    gap_id: usize,
    direction: ExpandDirection,
) -> DisplayRowInfo {
    DisplayRowInfo {
        hunk_index: h as usize,
        line_index: None,
        old_lineno: None,
        new_lineno: None,
        origin: None,
        is_header: false,
        is_collapsed_indicator: true,
        gap_id: Some(gap_id),
        hidden_count: hidden_count,
        expand_direction: Some(direction),
    }
}

/// The row a filtered item becomes in the unified view.
pub open spec fn unified_item_row(lines: Seq<DiffLine>, h: int, it: FilteredItem) -> DisplayRowInfo {
    match it {
        FilteredItem::Line { hunk_line_index } => DisplayRowInfo {
            hunk_index: h as usize,
            line_index: Some(hunk_line_index),
            old_lineno: lines[hunk_line_index as int].old_lineno,
            new_lineno: lines[hunk_line_index as int].new_lineno,
            origin: Some(lines[hunk_line_index as int].origin),
            is_header: false,
            is_collapsed_indicator: false,
            gap_id: None,
            hidden_count: 0,
            expand_direction: None,
        },
        FilteredItem::CollapsedIndicator { hidden_count, gap_id, direction } => indicator_row(
            h,
            hidden_count,
            gap_id,
            direction,
        ),
    }
}

/// Total number of diff lines over the hunks from index `h` on.
pub open spec fn total_lines_from(hunks: Seq<Hunk>, h: int) -> nat
    decreases hunks.len() - h,
{
    if h < 0 || h >= hunks.len() {
        0
    } else {
        hunks[h].lines@.len() + total_lines_from(hunks, h + 1)
    }
}

/// Every pass-through item of a run points at a line of that run.
pub proof fn lemma_run_items_wf(
    lines: Seq<DiffLine>,
    n: nat,
    exp: Map<usize, usize>,
    g: int,
    i: int,
    j: int,
)
    requires
        0 <= i <= j <= lines.len(),
        j <= usize::MAX,
    ensures
        forall|k: int|
            0 <= k < run_items(lines, n, exp, g, i, j).len() ==> ((#[trigger] run_items(
                lines,
                n,
                exp,
                g,
                i,
                j,
            )[k]) matches FilteredItem::Line { hunk_line_index } ==> i <= hunk_line_index < j),
{
    let items = run_items(lines, n, exp, g, i, j);
    let total = j - i;
    let base_top: int = if i > 0 { n as int } else { 0 };
    let base_bottom: int = if j < lines.len() { n as int } else { 0 };
    let (show_top, show_bottom) = run_show(lines, n, exp, g, i, j);
    if base_top + base_bottom >= total || show_top + show_bottom >= total {
        assert forall|k: int| 0 <= k < items.len() implies ((#[trigger] items[k])
            matches FilteredItem::Line { hunk_line_index } ==> i <= hunk_line_index < j) by {
            assert(items[k] == line_items(i, total)[k]);
        }
    } else {
        assert forall|k: int| 0 <= k < items.len() implies ((#[trigger] items[k])
            matches FilteredItem::Line { hunk_line_index } ==> i <= hunk_line_index < j) by {
            let ni: int = if i > 0 && j < lines.len() {
                2
            } else {
                1
            };
            if k < show_top {
                assert(items[k] == line_items(i, show_top)[k]);
            } else if k < show_top + ni {
            } else {
                assert(items[k] == line_items(j - show_bottom, show_bottom)[k - show_top - ni]);
            }
        }
    }
}

/// Every pass-through item of the filter output points at a line of the hunk.
pub proof fn lemma_filter_items_wf(
    lines: Seq<DiffLine>,
    n: nat,
    exp: Map<usize, usize>,
    g: int,
    i: int,
)
    requires
        0 <= i <= lines.len(),
        lines.len() <= usize::MAX,
    ensures
        forall|k: int|
            0 <= k < filter_items(lines, n, exp, g, i).len() ==> ((#[trigger] filter_items(
                lines,
                n,
                exp,
                g,
                i,
            )[k]) matches FilteredItem::Line { hunk_line_index } ==> i <= hunk_line_index
                < lines.len()),
    decreases lines.len() - i,
{
    let items = filter_items(lines, n, exp, g, i);
    if i >= lines.len() {
    } else if !is_context(lines[i]) {
        lemma_filter_items_wf(lines, n, exp, g, i + 1);
        let rest = filter_items(lines, n, exp, g, i + 1);
        assert forall|k: int| 0 <= k < items.len() implies ((#[trigger] items[k])
            matches FilteredItem::Line { hunk_line_index } ==> i <= hunk_line_index
            < lines.len()) by {
            if k >= 1 {
                assert(items[k] == rest[k - 1]);
            }
        }
    } else {
        lemma_run_len(lines, i);
        let j = i + run_len(lines, i);
        let cost = run_id_cost(lines, n, i, j);
        lemma_run_items_wf(lines, n, exp, g, i, j);
        lemma_filter_items_wf(lines, n, exp, g + cost, j);
        let first = run_items(lines, n, exp, g, i, j);
        let rest = filter_items(lines, n, exp, g + cost, j);
        assert forall|k: int| 0 <= k < items.len() implies ((#[trigger] items[k])
            matches FilteredItem::Line { hunk_line_index } ==> i <= hunk_line_index
            < lines.len()) by {
            if k < first.len() {
                assert(items[k] == first[k]);
            } else {
                assert(items[k] == rest[k - first.len()]);
            }
        }
    }
}

/// Gap id offsets stay within twice the number of lines.
pub proof fn lemma_hunk_offset_bound(hunks: Seq<Hunk>, n: nat, h: int)
    requires
        0 <= h <= hunks.len(),
    ensures
        0 <= hunk_id_offset(hunks, n, h),
        hunk_id_offset(hunks, n, h) + 2 * total_lines_from(hunks, h) <= 2 * total_lines_from(
            hunks,
            0,
        ),
    decreases h,
{
    if h > 0 {
        lemma_hunk_offset_bound(hunks, n, h - 1);
        lemma_id_cost_bound(hunks[h - 1].lines@, n, 0);
        assert(total_lines_from(hunks, h - 1) == hunks[h - 1].lines@.len() + total_lines_from(
            hunks,
            h,
        ));
    }
}

/// Gap id offset at which hunk `h` starts handing out ids.
pub open spec fn hunk_id_offset(hunks: Seq<Hunk>, n: nat, h: int) -> int
    decreases h,
{
    if h <= 0 {
        0
    } else {
        hunk_id_offset(hunks, n, h - 1) + id_cost_from(hunks[h - 1].lines@, n, 0)
    }
}

/// Unified-view rows of the hunks from index `h` on.
pub open spec fn unified_rows_from(
    hunks: Seq<Hunk>,
    n: nat,
    exp: Map<usize, usize>,
    h: int,
) -> Seq<DisplayRowInfo>
    decreases hunks.len() - h,
{
    if h < 0 || h >= hunks.len() {
        Seq::empty()
    } else {
        let g = hunk_id_offset(hunks, n, h);
        let items = filter_items(hunks[h].lines@, n, exp, g, 0);
        seq![header_row(h)] + unified_item_rows(hunks[h].lines@, h, items) + unified_rows_from(
            hunks,
            n,
            exp,
            h + 1,
        )
    }
}

/// The unified rows of a filtered item sequence.
pub open spec fn unified_item_rows(
    lines: Seq<DiffLine>,
    h: int,
    items: Seq<FilteredItem>,
) -> Seq<DisplayRowInfo> {
    items.map(|k: int, it: FilteredItem| unified_item_row(lines, h, it))
}

/// The full unified display map of one file delta.
pub open spec fn unified_rows(delta: FileDelta, n: nat, exp: Map<usize, usize>) -> Seq<
    DisplayRowInfo,
> {
    unified_rows_from(delta.hunks@, n, exp, 0)
}

/// The hunk line index a pass-through item refers to (zero otherwise).
pub open spec fn item_index(it: FilteredItem) -> usize {
    match it {
        FilteredItem::Line { hunk_line_index } => hunk_line_index,
        FilteredItem::CollapsedIndicator { .. } => 0,
    }
}

/// Whether a filtered item is a pass-through deletion line.
pub open spec fn item_is_del(lines: Seq<DiffLine>, it: FilteredItem) -> bool {
    match it {
        FilteredItem::Line { hunk_line_index } => lines[hunk_line_index as int].origin
            == DiffLineOrigin::Deletion,
        FilteredItem::CollapsedIndicator { .. } => false,
    }
}

/// Whether a filtered item is a pass-through addition line.
pub open spec fn item_is_add(lines: Seq<DiffLine>, it: FilteredItem) -> bool {
    match it {
        FilteredItem::Line { hunk_line_index } => lines[hunk_line_index as int].origin
            == DiffLineOrigin::Addition,
        FilteredItem::CollapsedIndicator { .. } => false,
    }
}

/// Length of the maximal block of deletion items starting at `k`.
pub open spec fn del_run(lines: Seq<DiffLine>, items: Seq<FilteredItem>, k: int) -> nat
    decreases items.len() - k,
{
    if k < 0 || k >= items.len() || !item_is_del(lines, items[k]) {
        0
    } else {
        1 + del_run(lines, items, k + 1)
    }
}

/// Length of the maximal block of addition items starting at `k`.
pub open spec fn add_run(lines: Seq<DiffLine>, items: Seq<FilteredItem>, k: int) -> nat
    decreases items.len() - k,
{
    if k < 0 || k >= items.len() || !item_is_add(lines, items[k]) {
        0
    } else {
        1 + add_run(lines, items, k + 1)
    }
}

pub proof fn lemma_del_run_exact(lines: Seq<DiffLine>, items: Seq<FilteredItem>, k: int, e: int)
    requires
        0 <= k <= e <= items.len(),
        forall|q: int| k <= q < e ==> item_is_del(lines, #[trigger] items[q]),
        e == items.len() || !item_is_del(lines, items[e]),
    ensures
        del_run(lines, items, k) == e - k,
    decreases e - k,
{
    if k < e {
        lemma_del_run_exact(lines, items, k + 1, e);
    }
}

pub proof fn lemma_add_run_exact(lines: Seq<DiffLine>, items: Seq<FilteredItem>, k: int, e: int)
    requires
        0 <= k <= e <= items.len(),
        forall|q: int| k <= q < e ==> item_is_add(lines, #[trigger] items[q]),
        e == items.len() || !item_is_add(lines, items[e]),
    ensures
        add_run(lines, items, k) == e - k,
    decreases e - k,
{
    if k < e {
        lemma_add_run_exact(lines, items, k + 1, e);
    }
}

pub proof fn lemma_del_run_bounds(lines: Seq<DiffLine>, items: Seq<FilteredItem>, k: int)
    requires
        0 <= k <= items.len(),
    ensures
        k + del_run(lines, items, k) <= items.len(),
        forall|q: int|
            k <= q < k + del_run(lines, items, k) ==> item_is_del(lines, #[trigger] items[q]),
    decreases items.len() - k,
{
    if k < items.len() && item_is_del(lines, items[k]) {
        lemma_del_run_bounds(lines, items, k + 1);
    }
}

pub proof fn lemma_add_run_bounds(lines: Seq<DiffLine>, items: Seq<FilteredItem>, k: int)
    requires
        0 <= k <= items.len(),
    ensures
        k + add_run(lines, items, k) <= items.len(),
        forall|q: int|
            k <= q < k + add_run(lines, items, k) ==> item_is_add(lines, #[trigger] items[q]),
    decreases items.len() - k,
{
    if k < items.len() && item_is_add(lines, items[k]) {
        lemma_add_run_bounds(lines, items, k + 1);
    }
}

/// Row `j` of a paired change block: deletions `[k, k+d)` on the left,
/// additions `[k+d, k+d+a)` on the right, the shorter side blank-padded.
pub open spec fn split_pair_row(
    lines: Seq<DiffLine>,
    h: int,
    items: Seq<FilteredItem>,
    k: int,
    d: int,
    a: int,
    j: int,
) -> DisplayRowInfo {
    if j < d && j < a {
        DisplayRowInfo {
            hunk_index: h as usize,
            line_index: Some(item_index(items[k + j])),
            old_lineno: lines[item_index(items[k + j]) as int].old_lineno,
            new_lineno: lines[item_index(items[k + d + j]) as int].new_lineno,
            origin: Some(DiffLineOrigin::Deletion),
            is_header: false,
            is_collapsed_indicator: false,
            gap_id: None,
            hidden_count: 0,
            expand_direction: None,
        }
    } else if j < d {
        DisplayRowInfo {
            hunk_index: h as usize,
            line_index: Some(item_index(items[k + j])),
            old_lineno: lines[item_index(items[k + j]) as int].old_lineno,
            new_lineno: None,
            origin: Some(DiffLineOrigin::Deletion),
            is_header: false,
            is_collapsed_indicator: false,
            gap_id: None,
            hidden_count: 0,
            expand_direction: None,
        }
    } else {
        DisplayRowInfo {
            hunk_index: h as usize,
            line_index: Some(item_index(items[k + d + j])),
            old_lineno: None,
            new_lineno: lines[item_index(items[k + d + j]) as int].new_lineno,
            origin: Some(DiffLineOrigin::Addition),
            is_header: false,
            is_collapsed_indicator: false,
            gap_id: None,
            hidden_count: 0,
            expand_direction: None,
        }
    }
}

/// The `max(d, a)` paired rows of one change block.
pub open spec fn split_pair_rows(
    lines: Seq<DiffLine>,
    h: int,
    items: Seq<FilteredItem>,
    k: int,
    d: int,
    a: int,
) -> Seq<DisplayRowInfo> {
    let m = if d >= a {
        d
    } else {
        a
    };
    Seq::new(m as nat, |j: int| split_pair_row(lines, h, items, k, d, a, j))
}

/// Pairing: a change block of `d` deletions followed by `a` additions
/// yields exactly `max(d, a)` paired rows. While both sides still have
/// lines, a row carries a line number on both sides; past the end of the
/// additions a row carries only the old-side number (the right pane is
/// blank padding), and past the end of the deletions only the new-side
/// number (the left pane is blank padding). The line-number claims rest
/// on the diff data model: a deletion line carries an old line number
/// and an addition line a new one.
pub proof fn lemma_pairing(
    lines: Seq<DiffLine>,
    h: int,
    items: Seq<FilteredItem>,
    k: int,
    d: int,
    a: int,
)
    requires
        0 <= k,
        0 <= d,
        0 <= a,
        k + d + a <= items.len(),
        forall|q: int| k <= q < k + d ==> item_is_del(lines, #[trigger] items[q]),
        forall|q: int| k + d <= q < k + d + a ==> item_is_add(lines, #[trigger] items[q]),
        forall|q: int|
            0 <= q < items.len() ==> ((#[trigger] items[q]) matches FilteredItem::Line {
                hunk_line_index,
            } ==> 0 <= hunk_line_index < lines.len()),
        forall|q: int|
            0 <= q < lines.len() ==> ((#[trigger] lines[q]).origin == DiffLineOrigin::Deletion
                ==> lines[q].old_lineno is Some),
        forall|q: int|
            0 <= q < lines.len() ==> ((#[trigger] lines[q]).origin == DiffLineOrigin::Addition
                ==> lines[q].new_lineno is Some),
    ensures
        split_pair_rows(lines, h, items, k, d, a).len() == (if d >= a {
            d
        } else {
            a
        }),
        forall|j: int|
            0 <= j < d && j < a ==> {
                let row = #[trigger] split_pair_rows(lines, h, items, k, d, a)[j];
                row.old_lineno is Some && row.new_lineno is Some
            },
        forall|j: int|
            a <= j < d ==> {
                let row = #[trigger] split_pair_rows(lines, h, items, k, d, a)[j];
                row.old_lineno is Some && row.new_lineno is None
            },
        forall|j: int|
            d <= j < a ==> {
                let row = #[trigger] split_pair_rows(lines, h, items, k, d, a)[j];
                row.old_lineno is None && row.new_lineno is Some
            },
{
    let rows = split_pair_rows(lines, h, items, k, d, a);
    assert forall|j: int| 0 <= j < d && j < a implies {
        let row = #[trigger] rows[j];
        row.old_lineno is Some && row.new_lineno is Some
    } by {
        assert(item_is_del(lines, items[k + j]));
        assert(item_is_add(lines, items[k + d + j]));
        assert(lines[item_index(items[k + j]) as int].old_lineno is Some);
        assert(lines[item_index(items[k + d + j]) as int].new_lineno is Some);
    }
    assert forall|j: int| a <= j < d implies {
        let row = #[trigger] rows[j];
        row.old_lineno is Some && row.new_lineno is None
    } by {
        assert(item_is_del(lines, items[k + j]));
        assert(lines[item_index(items[k + j]) as int].old_lineno is Some);
    }
    assert forall|j: int| d <= j < a implies {
        let row = #[trigger] rows[j];
        row.old_lineno is None && row.new_lineno is Some
    } by {
        assert(item_is_add(lines, items[k + d + j]));
        assert(lines[item_index(items[k + d + j]) as int].new_lineno is Some);
    }
}

/// The row of a lone addition item in the split view (left side blank).
pub open spec fn split_addition_row(lines: Seq<DiffLine>, h: int, it: FilteredItem) -> DisplayRowInfo {
    DisplayRowInfo {
        hunk_index: h as usize,
        line_index: Some(item_index(it)),
        old_lineno: None,
        new_lineno: lines[item_index(it) as int].new_lineno,
        origin: Some(DiffLineOrigin::Addition),
        is_header: false,
        is_collapsed_indicator: false,
        gap_id: None,
        hidden_count: 0,
        expand_direction: None,
    }
}

/// Split-view rows of a filtered item sequence from position `k` on.
pub open spec fn split_rows_items(
    lines: Seq<DiffLine>,
    h: int,
    items: Seq<FilteredItem>,
    k: int,
) -> Seq<DisplayRowInfo>
    decreases items.len() - k,
{
    if k < 0 || k >= items.len() {
        Seq::empty()
    } else {
        match items[k] {
            FilteredItem::CollapsedIndicator { hidden_count, gap_id, direction } => seq![
                indicator_row(h, hidden_count, gap_id, direction),
            ] + split_rows_items(lines, h, items, k + 1),
            FilteredItem::Line { hunk_line_index } => {
                if lines[hunk_line_index as int].origin == DiffLineOrigin::Context {
                    seq![unified_item_row(lines, h, items[k])] + split_rows_items(
                        lines,
                        h,
                        items,
                        k + 1,
                    )
                } else if lines[hunk_line_index as int].origin == DiffLineOrigin::Deletion {
                    let d = del_run(lines, items, k) as int;
                    let a = add_run(lines, items, k + d) as int;
                    let next0 = k + d + a;
                    let next = if next0 <= items.len() {
                        next0
                    } else {
                        items.len() as int
                    };
                    split_pair_rows(lines, h, items, k, d, a) + split_rows_items(
                        lines,
                        h,
                        items,
                        next,
                    )
                } else {
                    seq![split_addition_row(lines, h, items[k])] + split_rows_items(
                        lines,
                        h,
                        items,
                        k + 1,
                    )
                }
            },
        }
    }
}

/// Split-view rows of the hunks from index `h` on.
pub open spec fn split_rows_from(
    hunks: Seq<Hunk>,
    n: nat,
    exp: Map<usize, usize>,
    h: int,
) -> Seq<DisplayRowInfo>
    decreases hunks.len() - h,
{
    if h < 0 || h >= hunks.len() {
        Seq::empty()
    } else {
        let g = hunk_id_offset(hunks, n, h);
        let items = filter_items(hunks[h].lines@, n, exp, g, 0);
        seq![header_row(h)] + split_rows_items(hunks[h].lines@, h, items, 0) + split_rows_from(
            hunks,
            n,
            exp,
            h + 1,
        )
    }
}

/// The full split display map of one file delta.
pub open spec fn split_rows(delta: FileDelta, n: nat, exp: Map<usize, usize>) -> Seq<
    DisplayRowInfo,
> {
    split_rows_from(delta.hunks@, n, exp, 0)
}

/// The hunk line index a pass-through item refers to (zero otherwise).
fn item_idx(it: FilteredItem) -> (r: usize)
    ensures
        r == item_index(it),
{
    match it {
        FilteredItem::Line { hunk_line_index } => hunk_line_index,
        FilteredItem::CollapsedIndicator { .. } => 0,
    }
}

/// First position at or after `from` that is not a pass-through deletion.
fn scan_del(items: &Vec<FilteredItem>, hunk: &Hunk, from: usize) -> (e: usize)
    requires
        from <= items@.len(),
        forall|q: int|
            0 <= q < items@.len() ==> ((#[trigger] items@[q]) matches FilteredItem::Line {
                hunk_line_index,
            } ==> 0 <= hunk_line_index < hunk.lines@.len()),
    ensures
        from <= e <= items@.len(),
        forall|q: int| from <= q < e ==> item_is_del(hunk.lines@, #[trigger] items@[q]),
        e == items@.len() || !item_is_del(hunk.lines@, items@[e as int]),
{
    let mut k = from;
    while k < items.len()
        invariant
            from <= k <= items@.len(),
            forall|q: int| from <= q < k ==> item_is_del(hunk.lines@, #[trigger] items@[q]),
            forall|q: int|
                0 <= q < items@.len() ==> ((#[trigger] items@[q]) matches FilteredItem::Line {
                    hunk_line_index,
                } ==> 0 <= hunk_line_index < hunk.lines@.len()),
        decreases items@.len() - k,
    {
        let cont = match items[k] {
            FilteredItem::Line { hunk_line_index } => hunk.lines[hunk_line_index].origin
                == DiffLineOrigin::Deletion,
            FilteredItem::CollapsedIndicator { .. } => false,
        };
        if !cont {
            return k;
        }
        k = k + 1;
    }
    k
}

/// First position at or after `from` that is not a pass-through addition.
fn scan_add(items: &Vec<FilteredItem>, hunk: &Hunk, from: usize) -> (e: usize)
    requires
        from <= items@.len(),
        forall|q: int|
            0 <= q < items@.len() ==> ((#[trigger] items@[q]) matches FilteredItem::Line {
                hunk_line_index,
            } ==> 0 <= hunk_line_index < hunk.lines@.len()),
    ensures
        from <= e <= items@.len(),
        forall|q: int| from <= q < e ==> item_is_add(hunk.lines@, #[trigger] items@[q]),
        e == items@.len() || !item_is_add(hunk.lines@, items@[e as int]),
{
    let mut k = from;
    while k < items.len()
        invariant
            from <= k <= items@.len(),
            forall|q: int| from <= q < k ==> item_is_add(hunk.lines@, #[trigger] items@[q]),
            forall|q: int|
                0 <= q < items@.len() ==> ((#[trigger] items@[q]) matches FilteredItem::Line {
                    hunk_line_index,
                } ==> 0 <= hunk_line_index < hunk.lines@.len()),
        decreases items@.len() - k,
    {
        let cont = match items[k] {
            FilteredItem::Line { hunk_line_index } => hunk.lines[hunk_line_index].origin
                == DiffLineOrigin::Addition,
            FilteredItem::CollapsedIndicator { .. } => false,
        };
        if !cont {
            return k;
        }
        k = k + 1;
    }
    k
}

/// Emit the paired rows of one change block: deletions `[k, k+d)` against
/// additions `[k+d, k+d+a)`.
#[verifier::rlimit(100)]
fn push_pair_rows(
    rows: &mut Vec<DisplayRowInfo>,
    hunk: &Hunk,
    h: usize,
    items: &Vec<FilteredItem>,
    k: usize,
    d: usize,
    a: usize,
)
    requires
        k + d + a <= items@.len(),
        forall|q: int|
            0 <= q < items@.len() ==> ((#[trigger] items@[q]) matches FilteredItem::Line {
                hunk_line_index,
            } ==> 0 <= hunk_line_index < hunk.lines@.len()),
        forall|q: int| k <= q < k + d ==> item_is_del(hunk.lines@, #[trigger] items@[q]),
        forall|q: int| k + d <= q < k + d + a ==> item_is_add(hunk.lines@, #[trigger] items@[q]),
    ensures
        final(rows)@ == old(rows)@ + split_pair_rows(
            hunk.lines@,
            h as int,
            items@,
            k as int,
            d as int,
            a as int,
        ),
{
    let ghost lines = hunk.lines@;
    let ghost pr = split_pair_rows(lines, h as int, items@, k as int, d as int, a as int);
    let items_len = items.len();
    let m = if d >= a {
        d
    } else {
        a
    };
    let mut j: usize = 0;
    while j < m
        invariant
            0 <= j <= m,
            m == (if d >= a {
                d
            } else {
                a
            }),
            items_len == items@.len(),
            k + d + a <= items_len,
            forall|q: int| k <= q < k + d ==> item_is_del(hunk.lines@, #[trigger] items@[q]),
            forall|q: int|
                k + d <= q < k + d + a ==> item_is_add(hunk.lines@, #[trigger] items@[q]),
            lines == hunk.lines@,
            pr == split_pair_rows(lines, h as int, items@, k as int, d as int, a as int),
            forall|q: int|
                0 <= q < items@.len() ==> ((#[trigger] items@[q]) matches FilteredItem::Line {
                    hunk_line_index,
                } ==> 0 <= hunk_line_index < hunk.lines@.len()),
            rows@ == old(rows)@ + pr.take(j as int),
        decreases m - j,
    {
        if j < d && j < a {
            proof {
                assert(item_is_del(lines, items@[k + j]));
                assert(item_is_add(lines, items@[k + d + j]));
            }
            let di = item_idx(items[k + j]);
            let ai = item_idx(items[k + d + j]);
            let dl = &hunk.lines[di];
            let al = &hunk.lines[ai];
            rows.push(
                DisplayRowInfo {
                    hunk_index: h,
                    line_index: Some(di),
                    old_lineno: dl.old_lineno,
                    new_lineno: al.new_lineno,
                    origin: Some(DiffLineOrigin::Deletion),
                    is_header: false,
                    is_collapsed_indicator: false,
                    gap_id: None,
                    hidden_count: 0,
                    expand_direction: None,
                },
            );
        } else if j < d {
            proof {
                assert(item_is_del(lines, items@[k + j]));
            }
            let di = item_idx(items[k + j]);
            let dl = &hunk.lines[di];
            rows.push(
                DisplayRowInfo {
                    hunk_index: h,
                    line_index: Some(di),
                    old_lineno: dl.old_lineno,
                    new_lineno: None,
                    origin: Some(DiffLineOrigin::Deletion),
                    is_header: false,
                    is_collapsed_indicator: false,
                    gap_id: None,
                    hidden_count: 0,
                    expand_direction: None,
                },
            );
        } else {
            proof {
                assert(item_is_add(lines, items@[k + d + j]));
            }
            let ai = item_idx(items[k + d + j]);
            let al = &hunk.lines[ai];
            rows.push(
                DisplayRowInfo {
                    hunk_index: h,
                    line_index: Some(ai),
                    old_lineno: None,
                    new_lineno: al.new_lineno,
                    origin: Some(DiffLineOrigin::Addition),
                    is_header: false,
                    is_collapsed_indicator: false,
                    gap_id: None,
                    hidden_count: 0,
                    expand_direction: None,
                },
            );
        }
        proof {
            assert(rows@.last() == split_pair_row(
                lines,
                h as int,
                items@,
                k as int,
                d as int,
                a as int,
                j as int,
            ));
            assert(rows@ =~= old(rows)@ + pr.take(j + 1));
        }
        j = j + 1;
    }
    proof {
        assert(pr.take(m as int) =~= pr);
    }
}

/// Emit the split-view rows of one hunk's filtered items: context rows as
/// in the unified view, deletion blocks paired with the addition block
/// that follows them, lone additions on the right side only.
#[verifier::rlimit(100)]
fn push_split_item_rows(
    rows: &mut Vec<DisplayRowInfo>,
    hunk: &Hunk,
    h: usize,
    items: &Vec<FilteredItem>,
)
    requires
        forall|q: int|
            0 <= q < items@.len() ==> ((#[trigger] items@[q]) matches FilteredItem::Line {
                hunk_line_index,
            } ==> 0 <= hunk_line_index < hunk.lines@.len()),
    ensures
        final(rows)@ == old(rows)@ + split_rows_items(hunk.lines@, h as int, items@, 0),
{
    let ghost lines = hunk.lines@;
    let mut k: usize = 0;
    while k < items.len()
        invariant
            0 <= k <= items@.len(),
            lines == hunk.lines@,
            forall|q: int|
                0 <= q < items@.len() ==> ((#[trigger] items@[q]) matches FilteredItem::Line {
                    hunk_line_index,
                } ==> 0 <= hunk_line_index < hunk.lines@.len()),
            rows@ + split_rows_items(lines, h as int, items@, k as int) == old(rows)@
                + split_rows_items(lines, h as int, items@, 0),
        decreases items@.len() - k,
    {
        let ghost rows0 = rows@;
        let ghost k0 = k as int;
        match items[k] {
            FilteredItem::CollapsedIndicator { hidden_count, gap_id, direction } => {
                rows.push(
                    DisplayRowInfo {
                        hunk_index: h,
                        line_index: None,
                        old_lineno: None,
                        new_lineno: None,
                        origin: None,
                        is_header: false,
                        is_collapsed_indicator: true,
                        gap_id: Some(gap_id),
                        hidden_count: hidden_count,
                        expand_direction: Some(direction),
                    },
                );
                k = k + 1;
                proof {
                    assert(rows@ =~= rows0 + seq![
                        indicator_row(h as int, hidden_count, gap_id, direction),
                    ]);
                    assert(rows@ + split_rows_items(lines, h as int, items@, k as int) =~= rows0
                        + split_rows_items(lines, h as int, items@, k0));
                }
            },
            FilteredItem::Line { hunk_line_index } => {
                let l = &hunk.lines[hunk_line_index];
                if l.origin == DiffLineOrigin::Context {
                    rows.push(
                        DisplayRowInfo {
                            hunk_index: h,
                            line_index: Some(hunk_line_index),
                            old_lineno: l.old_lineno,
                            new_lineno: l.new_lineno,
                            origin: Some(DiffLineOrigin::Context),
                            is_header: false,
                            is_collapsed_indicator: false,
                            gap_id: None,
                            hidden_count: 0,
                            expand_direction: None,
                        },
                    );
                    k = k + 1;
                    proof {
                        assert(rows@ =~= rows0 + seq![
                            unified_item_row(lines, h as int, items@[k0]),
                        ]);
                        assert(rows@ + split_rows_items(lines, h as int, items@, k as int) =~= rows0
                            + split_rows_items(lines, h as int, items@, k0));
                    }
                } else if l.origin == DiffLineOrigin::Deletion {
                    let del_end = scan_del(items, hunk, k);
                    let add_end = scan_add(items, hunk, del_end);
                    let d = del_end - k;
                    let a = add_end - del_end;
                    proof {
                        lemma_del_run_exact(lines, items@, k0, del_end as int);
                        lemma_add_run_exact(lines, items@, del_end as int, add_end as int);
                    }
                    push_pair_rows(rows, hunk, h, items, k, d, a);
                    k = add_end;
                    proof {
                        assert(split_rows_items(lines, h as int, items@, k0)
                            == split_pair_rows(lines, h as int, items@, k0, d as int, a as int)
                            + split_rows_items(lines, h as int, items@, k as int));
                        assert(rows@ + split_rows_items(lines, h as int, items@, k as int) =~= rows0
                            + split_rows_items(lines, h as int, items@, k0));
                    }
                } else {
                    rows.push(
                        DisplayRowInfo {
                            hunk_index: h,
                            line_index: Some(hunk_line_index),
                            old_lineno: None,
                            new_lineno: l.new_lineno,
                            origin: Some(DiffLineOrigin::Addition),
                            is_header: false,
                            is_collapsed_indicator: false,
                            gap_id: None,
                            hidden_count: 0,
                            expand_direction: None,
                        },
                    );
                    k = k + 1;
                    proof {
                        assert(rows@ =~= rows0 + seq![
                            split_addition_row(lines, h as int, items@[k0]),
                        ]);
                        assert(rows@ + split_rows_items(lines, h as int, items@, k as int) =~= rows0
                            + split_rows_items(lines, h as int, items@, k0));
                    }
                }
            },
        }
    }
    proof {
        assert(split_rows_items(lines, h as int, items@, k as int) =~= Seq::<
            DisplayRowInfo,
        >::empty());
        assert(rows@ =~= rows@ + split_rows_items(lines, h as int, items@, k as int));
    }
}

/// Build a display map for the split view: one header row per hunk, then
/// the filtered items with deletion/addition blocks paired row by row.
#[verifier::rlimit(100)]
pub fn build_split_display_map(
    delta: &FileDelta,
    display_context: usize,
    gap_expansions: &HashMap<usize, usize>,
) -> (rows: Vec<DisplayRowInfo>)
    requires
        2 * total_lines_from(delta.hunks@, 0) <= usize::MAX,
    ensures
        rows@ == split_rows(*delta, display_context as nat, gap_expansions@),
{
    let ghost n: nat = display_context as nat;
    let ghost exp: Map<usize, usize> = gap_expansions@;
    let ghost hunks: Seq<Hunk> = delta.hunks@;
    let mut rows: Vec<DisplayRowInfo> = Vec::new();
    let mut gap_id_offset: usize = 0;
    let mut h: usize = 0;

    while h < delta.hunks.len()
        invariant
            0 <= h <= hunks.len(),
            hunks == delta.hunks@,
            n == display_context as nat,
            exp == gap_expansions@,
            2 * total_lines_from(hunks, 0) <= usize::MAX,
            gap_id_offset as int == hunk_id_offset(hunks, n, h as int),
            rows@ + split_rows_from(hunks, n, exp, h as int) == split_rows_from(hunks, n, exp, 0),
        decreases hunks.len() - h,
    {
        proof {
            lemma_hunk_offset_bound(hunks, n, h as int);
            assert(total_lines_from(hunks, h as int) >= hunks[h as int].lines@.len());
        }
        let ghost rows0 = rows@;
        rows.push(
            DisplayRowInfo {
                hunk_index: h,
                line_index: None,
                old_lineno: None,
                new_lineno: None,
                origin: None,
                is_header: true,
                is_collapsed_indicator: false,
                gap_id: None,
                hidden_count: 0,
                expand_direction: None,
            },
        );
        let hunk = &delta.hunks[h];
        let (items, next_offset) = filter_hunk_lines(
            &hunk.lines,
            display_context,
            gap_expansions,
            gap_id_offset,
        );
        proof {
            lemma_filter_items_wf(hunk.lines@, n, exp, gap_id_offset as int, 0);
        }
        push_split_item_rows(&mut rows, hunk, h, &items);
        proof {
            assert(rows@ =~= rows0 + seq![header_row(h as int)] + split_rows_items(
                hunk.lines@,
                h as int,
                items@,
                0,
            ));
            assert(rows@ + split_rows_from(hunks, n, exp, h + 1) =~= rows0 + split_rows_from(
                hunks,
                n,
                exp,
                h as int,
            ));
        }
        gap_id_offset = next_offset;
        h = h + 1;
    }
    proof {
        assert(split_rows_from(hunks, n, exp, h as int) =~= Seq::<DisplayRowInfo>::empty());
        assert(rows@ =~= rows@ + split_rows_from(hunks, n, exp, h as int));
    }
    rows
}

/// The display map of one file delta under the given view mode.
pub open spec fn display_rows(
    delta: FileDelta,
    mode: DiffViewMode,
    n: nat,
    exp: Map<usize, usize>,
) -> Seq<DisplayRowInfo> {
    match mode {
        DiffViewMode::Split => split_rows(delta, n, exp),
        DiffViewMode::Unified => unified_rows(delta, n, exp),
    }
}

/// Build the appropriate display map for the current view mode.
pub fn build_display_map(
    delta: &FileDelta,
    mode: DiffViewMode,
    display_context: usize,
    gap_expansions: &HashMap<usize, usize>,
) -> (rows: Vec<DisplayRowInfo>)
    requires
        2 * total_lines_from(delta.hunks@, 0) <= usize::MAX,
    ensures
        rows@ == display_rows(*delta, mode, display_context as nat, gap_expansions@),
{
    match mode {
        DiffViewMode::Split => build_split_display_map(delta, display_context, gap_expansions),
        DiffViewMode::Unified => build_unified_display_map(delta, display_context, gap_expansions),
    }
}

/// What one pane shows for a display row.
#[derive(Clone, Copy, Debug, PartialEq, Eq)]
pub enum PaneCellKind {
    Header,
    Indicator,
    Content,
    Blank,
}

/// One pane's cell for one display row: its side's line number and what
/// kind of cell it is.
#[derive(Clone, Copy, Debug, PartialEq, Eq)]
pub struct PaneCell {
    pub lineno: Option<u32>,
    pub kind: PaneCellKind,
}

/// The left pane's cell for a display row: old-side content, blank for
/// an addition-only row.
pub open spec fn left_cell_of(row: DisplayRowInfo) -> PaneCell {
    if row.is_header {
        PaneCell { lineno: None, kind: PaneCellKind::Header }
    } else if row.is_collapsed_indicator {
        PaneCell { lineno: None, kind: PaneCellKind::Indicator }
    } else if row.origin == Some(DiffLineOrigin::Addition) {
        PaneCell { lineno: None, kind: PaneCellKind::Blank }
    } else {
        PaneCell { lineno: row.old_lineno, kind: PaneCellKind::Content }
    }
}

/// The right pane's cell for a display row: new-side content, blank for
/// the unmatched tail of a deletion block.
pub open spec fn right_cell_of(row: DisplayRowInfo) -> PaneCell {
    if row.is_header {
        PaneCell { lineno: None, kind: PaneCellKind::Header }
    } else if row.is_collapsed_indicator {
        PaneCell { lineno: None, kind: PaneCellKind::Indicator }
    } else if row.origin == Some(DiffLineOrigin::Deletion) && row.new_lineno is None {
        PaneCell { lineno: None, kind: PaneCellKind::Blank }
    } else {
        PaneCell { lineno: row.new_lineno, kind: PaneCellKind::Content }
    }
}

/// Dual-pane symmetry: derive the left and right pane cell sequences of
/// a split display map. Both sequences always have exactly one cell per
/// display row, so their lengths are always equal and a single row index
/// addresses the same logical content on both sides.
pub fn split_pane_cells(rows: &Vec<DisplayRowInfo>) -> (r: (Vec<PaneCell>, Vec<PaneCell>))
    ensures
        r.0@.len() == r.1@.len(),
        r.0@.len() == rows@.len(),
        forall|i: int| 0 <= i < rows@.len() ==> (#[trigger] r.0@[i]) == left_cell_of(rows@[i]),
        forall|i: int| 0 <= i < rows@.len() ==> (#[trigger] r.1@[i]) == right_cell_of(rows@[i]),
{
    let mut left: Vec<PaneCell> = Vec::new();
    let mut right: Vec<PaneCell> = Vec::new();
    let mut i: usize = 0;
    while i < rows.len()
        invariant
            i <= rows@.len(),
            left@.len() == i,
            right@.len() == i,
            forall|q: int| 0 <= q < i ==> (#[trigger] left@[q]) == left_cell_of(rows@[q]),
            forall|q: int| 0 <= q < i ==> (#[trigger] right@[q]) == right_cell_of(rows@[q]),
        decreases rows@.len() - i,
    {
        let row = &rows[i];
        let is_add = match row.origin {
            Some(o) => o == DiffLineOrigin::Addition,
            None => false,
        };
        let is_del = match row.origin {
            Some(o) => o == DiffLineOrigin::Deletion,
            None => false,
        };
        let new_absent = match row.new_lineno {
            Some(_) => false,
            None => true,
        };
        let lk = if row.is_header {
            PaneCell { lineno: None, kind: PaneCellKind::Header }
        } else if row.is_collapsed_indicator {
            PaneCell { lineno: None, kind: PaneCellKind::Indicator }
        } else if is_add {
            PaneCell { lineno: None, kind: PaneCellKind::Blank }
        } else {
            PaneCell { lineno: row.old_lineno, kind: PaneCellKind::Content }
        };
        let rk = if row.is_header {
            PaneCell { lineno: None, kind: PaneCellKind::Header }
        } else if row.is_collapsed_indicator {
            PaneCell { lineno: None, kind: PaneCellKind::Indicator }
        } else if is_del && new_absent {
            PaneCell { lineno: None, kind: PaneCellKind::Blank }
        } else {
            PaneCell { lineno: row.new_lineno, kind: PaneCellKind::Content }
        };
        left.push(lk);
        right.push(rk);
        i = i + 1;
    }
    (left, right)
}

/// Determinism: the display map is a pure function of the delta, the view
/// mode, the context window and the expansion map; two row sequences built
/// from identical inputs are identical, gap ids included.
pub proof fn lemma_display_map_deterministic(
    r1: Seq<DisplayRowInfo>,
    r2: Seq<DisplayRowInfo>,
    delta: FileDelta,
    mode: DiffViewMode,
    n: nat,
    exp: Map<usize, usize>,
)
    requires
        r1 == display_rows(delta, mode, n, exp),
        r2 == display_rows(delta, mode, n, exp),
    ensures
        r1 == r2,
{
}

/// Build a display map for the unified view: one header row per hunk,
/// then one row per filtered item, in order.
#[verifier::rlimit(100)]
pub fn build_unified_display_map(
    delta: &FileDelta,
    display_context: usize,
    gap_expansions: &HashMap<usize, usize>,
) -> (rows: Vec<DisplayRowInfo>)
    requires
        2 * total_lines_from(delta.hunks@, 0) <= usize::MAX,
    ensures
        rows@ == unified_rows(*delta, display_context as nat, gap_expansions@),
{
    let ghost n: nat = display_context as nat;
    let ghost exp: Map<usize, usize> = gap_expansions@;
    let ghost hunks: Seq<Hunk> = delta.hunks@;
    let mut rows: Vec<DisplayRowInfo> = Vec::new();
    let mut gap_id_offset: usize = 0;
    let mut h: usize = 0;

    while h < delta.hunks.len()
        invariant
            0 <= h <= hunks.len(),
            hunks == delta.hunks@,
            n == display_context as nat,
            exp == gap_expansions@,
            2 * total_lines_from(hunks, 0) <= usize::MAX,
            gap_id_offset as int == hunk_id_offset(hunks, n, h as int),
            rows@ + unified_rows_from(hunks, n, exp, h as int) == unified_rows_from(
                hunks,
                n,
                exp,
                0,
            ),
        decreases hunks.len() - h,
    {
        proof {
            lemma_hunk_offset_bound(hunks, n, h as int);
            assert(total_lines_from(hunks, h as int) >= hunks[h as int].lines@.len());
        }
        let ghost rows0 = rows@;
        rows.push(
            DisplayRowInfo {
                hunk_index: h,
                line_index: None,
                old_lineno: None,
                new_lineno: None,
                origin: None,
                is_header: true,
                is_collapsed_indicator: false,
                gap_id: None,
                hidden_count: 0,
                expand_direction: None,
            },
        );
        let hunk = &delta.hunks[h];
        let (items, next_offset) = filter_hunk_lines(
            &hunk.lines,
            display_context,
            gap_expansions,
            gap_id_offset,
        );
        proof {
            lemma_filter_items_wf(hunk.lines@, n, exp, gap_id_offset as int, 0);
        }
        let ghost f = |k: int, it: FilteredItem| unified_item_row(hunk.lines@, h as int, it);
        let mut k: usize = 0;
        while k < items.len()
            invariant
                0 <= k <= items@.len(),
                hunks == delta.hunks@,
                0 <= (h as int) < hunks.len(),
                hunk == hunks[h as int],
                f == (|k: int, it: FilteredItem| unified_item_row(hunk.lines@, h as int, it)),
                forall|q: int|
                    0 <= q < items@.len() ==> ((#[trigger] items@[q])
                        matches FilteredItem::Line { hunk_line_index } ==> 0 <= hunk_line_index
                        < hunk.lines@.len()),
                rows@ == rows0 + seq![header_row(h as int)] + items@.take(k as int).map(f),
            decreases items@.len() - k,
        {
            match items[k] {
                FilteredItem::Line { hunk_line_index } => {
                    let l = &hunk.lines[hunk_line_index];
                    rows.push(
                        DisplayRowInfo {
                            hunk_index: h,
                            line_index: Some(hunk_line_index),
                            old_lineno: l.old_lineno,
                            new_lineno: l.new_lineno,
                            origin: Some(l.origin),
                            is_header: false,
                            is_collapsed_indicator: false,
                            gap_id: None,
                            hidden_count: 0,
                            expand_direction: None,
                        },
                    );
                },
                FilteredItem::CollapsedIndicator { hidden_count, gap_id, direction } => {
                    rows.push(
                        DisplayRowInfo {
                            hunk_index: h,
                            line_index: None,
                            old_lineno: None,
                            new_lineno: None,
                            origin: None,
                            is_header: false,
                            is_collapsed_indicator: true,
                            gap_id: Some(gap_id),
                            hidden_count: hidden_count,
                            expand_direction: Some(direction),
                        },
                    );
                },
            }
            proof {
                assert(items@.take(k + 1).map(f) =~= items@.take(k as int).map(f) + seq![
                    f(k as int, items@[k as int]),
                ]);
                assert(rows@ =~= rows0 + seq![header_row(h as int)] + items@.take(k + 1).map(f));
            }
            k = k + 1;
        }
        proof {
            assert(items@.take(items@.len() as int) =~= items@);
            assert(unified_item_rows(hunk.lines@, h as int, items@) == items@.map(f));
            assert(rows@ =~= rows0 + seq![header_row(h as int)] + unified_item_rows(
                hunk.lines@,
                h as int,
                items@,
            ));
            assert(rows@ + unified_rows_from(hunks, n, exp, h + 1) =~= rows0 + unified_rows_from(
                hunks,
                n,
                exp,
                h as int,
            ));
        }
        gap_id_offset = next_offset;
        h = h + 1;
    }
    proof {
        assert(unified_rows_from(hunks, n, exp, h as int) =~= Seq::<DisplayRowInfo>::empty());
        assert(rows@ =~= rows@ + unified_rows_from(hunks, n, exp, h as int));
    }
    rows
}

} // verus!
