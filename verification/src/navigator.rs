//! The file navigator: one entry per file delta, with incremental
//! case-insensitive fuzzy search over file paths.

use vstd::prelude::*;

use crate::diff::status_label_spec;
use crate::diff::FileDelta;
use crate::strutil::dec_digits;
use crate::strutil::lower_of;
use crate::strutil::to_lowercase;
use crate::strutil::usize_to_string;
use crate::text_buffer::TextBuffer;

verus! {

/// Whether `p` appears in `t` as a subsequence, characters in order.
pub open spec fn is_subseq(p: Seq<char>, t: Seq<char>) -> bool
    decreases p.len() + t.len(),
{
    if p.len() == 0 {
        true
    } else if t.len() == 0 {
        false
    } else if p[0] == t[0] {
        is_subseq(p.skip(1), t.skip(1))
    } else {
        is_subseq(p, t.skip(1))
    }
}

/// Fuzzy match: every character of `pattern` appears in `text`, in order.
pub fn fuzzy_match(text: &str, pattern: &str) -> (r: bool)
    ensures
        r == is_subseq(pattern@, text@),
{
    let tn = text.unicode_len();
    let pn = pattern.unicode_len();
    let mut ti: usize = 0;
    let mut pi: usize = 0;
    proof {
        assert(pattern@.skip(0) =~= pattern@);
        assert(text@.skip(0) =~= text@);
    }
    while pi < pn && ti < tn
        invariant
            tn == text@.len(),
            pn == pattern@.len(),
            ti <= tn,
            pi <= pn,
            is_subseq(pattern@, text@) == is_subseq(pattern@.skip(pi as int), text@.skip(ti as int)),
        decreases tn - ti,
    {
        let pc = pattern.get_char(pi);
        let tc = text.get_char(ti);
        proof {
            assert(pattern@.skip(pi as int)[0] == pc);
            assert(text@.skip(ti as int)[0] == tc);
            assert(pattern@.skip(pi as int).skip(1) =~= pattern@.skip(pi + 1));
            assert(text@.skip(ti as int).skip(1) =~= text@.skip(ti + 1));
        }
        if pc == tc {
            pi = pi + 1;
        }
        ti = ti + 1;
    }
    proof {
        if pi >= pn {
            assert(pattern@.skip(pi as int).len() == 0);
        } else {
            assert(text@.skip(ti as int).len() == 0);
            assert(pattern@.skip(pi as int).len() > 0);
        }
    }
    pi >= pn
}

/// One navigator entry: the display label, the file path, and the index
/// of the delta it stands for.
#[derive(Debug)]
pub struct NavigatorEntry {
    pub display: String,
    pub path: String,
    pub delta_index: usize,
}

impl NavigatorEntry {
    pub fn clone(&self) -> (r: NavigatorEntry)
        ensures
            r == *self,
    {
        NavigatorEntry {
            display: self.display.clone(),
            path: self.path.clone(),
            delta_index: self.delta_index,
        }
    }
}

/// The display label of one entry: path, status letter, and counts.
pub open spec fn entry_display_spec(d: FileDelta) -> Seq<char> {
    d.path@ + " ["@ + status_label_spec(d.status) + "] +"@ + dec_digits(d.additions as nat) + " -"@
        + dec_digits(d.deletions as nat)
}

/// Whether an entry's path matches the query, case-folded, as a fuzzy
/// subsequence.
pub open spec fn entry_matches(e: NavigatorEntry, query: Seq<char>) -> bool {
    is_subseq(lower_of(query), lower_of(e.path@))
}

/// The indices the filter keeps, from entry `i` on.
pub open spec fn filtered_from(entries: Seq<NavigatorEntry>, query: Seq<char>, i: int) -> Seq<usize>
    decreases entries.len() - i,
{
    if i < 0 || i >= entries.len() {
        Seq::empty()
    } else if query.len() == 0 || entry_matches(entries[i], query) {
        seq![i as usize] + filtered_from(entries, query, i + 1)
    } else {
        filtered_from(entries, query, i + 1)
    }
}

pub proof fn lemma_filtered_in_range(entries: Seq<NavigatorEntry>, query: Seq<char>, i: int)
    requires
        0 <= i <= entries.len(),
        entries.len() <= usize::MAX,
    ensures
        forall|k: int|
            0 <= k < filtered_from(entries, query, i).len() ==> i <= (#[trigger] filtered_from(
                entries,
                query,
                i,
            )[k]) < entries.len(),
    decreases entries.len() - i,
{
    if i < entries.len() {
        lemma_filtered_in_range(entries, query, i + 1);
        let rest = filtered_from(entries, query, i + 1);
        assert forall|k: int|
            0 <= k < filtered_from(entries, query, i).len() implies i <= (
        #[trigger] filtered_from(entries, query, i)[k]) < entries.len() by {
            if query.len() == 0 || entry_matches(entries[i], query) {
                if k >= 1 {
                    assert(filtered_from(entries, query, i)[k] == rest[k - 1]);
                }
            } else {
                assert(filtered_from(entries, query, i)[k] == rest[k]);
            }
        }
    }
}

/// Position of the first filtered entry with the given delta index, or
/// the filtered length when there is none.
pub open spec fn delta_pos(
    entries: Seq<NavigatorEntry>,
    filtered: Seq<usize>,
    idx: usize,
    k: int,
) -> int
    decreases filtered.len() - k,
{
    if k < 0 || k >= filtered.len() {
        filtered.len() as int
    } else if entries[filtered[k] as int].delta_index == idx {
        k
    } else {
        delta_pos(entries, filtered, idx, k + 1)
    }
}

proof fn lemma_delta_pos_step(
    entries: Seq<NavigatorEntry>,
    filtered: Seq<usize>,
    idx: usize,
    j: int,
    k: int,
)
    requires
        0 <= j <= k <= filtered.len(),
        forall|q: int|
            j <= q < k ==> entries[(#[trigger] filtered[q]) as int].delta_index != idx,
    ensures
        delta_pos(entries, filtered, idx, j) >= k,
        (k < filtered.len() && entries[filtered[k] as int].delta_index == idx) ==> delta_pos(
            entries,
            filtered,
            idx,
            j,
        ) == k,
    decreases k - j,
{
    if j < k {
        lemma_delta_pos_step(entries, filtered, idx, j + 1, k);
    } else {
        lemma_delta_pos_bounds(entries, filtered, idx, j);
    }
}

proof fn lemma_delta_pos_bounds(
    entries: Seq<NavigatorEntry>,
    filtered: Seq<usize>,
    idx: usize,
    k: int,
)
    requires
        0 <= k <= filtered.len(),
    ensures
        k <= delta_pos(entries, filtered, idx, k) <= filtered.len(),
    decreases filtered.len() - k,
{
    if k < filtered.len() && entries[filtered[k] as int].delta_index != idx {
        lemma_delta_pos_bounds(entries, filtered, idx, k + 1);
    }
}

/// Navigator state: the entries, the filter, and the search input.
#[derive(Debug)]
pub struct NavigatorState {
    pub selected: usize,
    pub entries: Vec<NavigatorEntry>,
    pub filtered_indices: Vec<usize>,
    pub search_active: bool,
    pub search_query: TextBuffer,
    /// Saved selection index from before search started.
    pub pre_search_selected: Option<usize>,
}

impl NavigatorState {
    /// Every filtered index points at an entry, the search buffer is
    /// well formed, and the selection stays within the filtered list.
    pub open spec fn wf(&self) -> bool {
        &&& forall|k: int|
            0 <= k < self.filtered_indices@.len() ==> (#[trigger] self.filtered_indices@[k])
                < self.entries@.len()
        &&& self.search_query.wf()
        &&& (self.filtered_indices@.len() == 0 ==> self.selected == 0)
        &&& (self.filtered_indices@.len() > 0 ==> self.selected < self.filtered_indices@.len())
    }

    pub fn new() -> (r: NavigatorState)
        ensures
            r.selected == 0,
            r.entries@.len() == 0,
            r.filtered_indices@.len() == 0,
            !r.search_active,
            r.search_query.text_spec().len() == 0,
            r.wf(),
    {
        NavigatorState {
            selected: 0,
            entries: Vec::new(),
            filtered_indices: Vec::new(),
            search_active: false,
            search_query: TextBuffer::new(),
            pre_search_selected: None,
        }
    }

    /// Recompute the filter against the current query: an empty query
    /// keeps every entry; otherwise an entry stays when its path matches
    /// the query case-insensitively as a fuzzy subsequence. The selection
    /// is clamped into the filtered list.
    pub fn refilter(&mut self)
        requires
            old(self).search_query.wf(),
        ensures
            final(self).entries@ == old(self).entries@,
            final(self).search_active == old(self).search_active,
            final(self).search_query == old(self).search_query,
            final(self).pre_search_selected == old(self).pre_search_selected,
            final(self).filtered_indices@ == filtered_from(
                old(self).entries@,
                old(self).search_query.text_spec(),
                0,
            ),
            final(self).filtered_indices@.len() > 0 ==> final(self).selected as int == (if old(
                self,
            ).selected < final(self).filtered_indices@.len() {
                old(self).selected as int
            } else {
                final(self).filtered_indices@.len() - 1
            }),
            final(self).filtered_indices@.len() == 0 ==> final(self).selected == 0,
            final(self).wf(),
    {
        let ghost entries = self.entries@;
        let ghost query = self.search_query.text_spec();
        let mut filtered: Vec<usize> = Vec::new();
        let entries_len = self.entries.len();
        proof {
            assert(entries.len() == entries_len);
        }
        proof {
            lemma_filtered_in_range(entries, query, 0);
        }
        let empty_query = self.search_query.is_empty();
        let query_lower = to_lowercase(self.search_query.text().as_str());
        let mut i: usize = 0;
        while i < self.entries.len()
            invariant
                0 <= i <= entries.len(),
                entries == self.entries@,
                query == self.search_query.text_spec(),
                empty_query == (query.len() == 0),
                query_lower@ == lower_of(query),
                filtered@ + filtered_from(entries, query, i as int) == filtered_from(
                    entries,
                    query,
                    0,
                ),
            decreases entries.len() - i,
        {
            let keep = if empty_query {
                true
            } else {
                let path_lower = to_lowercase(self.entries[i].path.as_str());
                fuzzy_match(path_lower.as_str(), query_lower.as_str())
            };
            if keep {
                filtered.push(i);
            }
            i = i + 1;
            proof {
                assert(filtered@ + filtered_from(entries, query, i as int) =~= filtered_from(
                    entries,
                    query,
                    0,
                ));
            }
        }
        proof {
            assert(filtered@ =~= filtered_from(entries, query, 0));
        }
        self.filtered_indices = filtered;
        if self.filtered_indices.len() > 0 {
            let max = self.filtered_indices.len() - 1;
            if self.selected > max {
                self.selected = max;
            }
        } else {
            self.selected = 0;
        }
    }

    /// Rebuild the entries from a fresh delta list and refilter.
    pub fn update_from_deltas(&mut self, deltas: &Vec<FileDelta>)
        requires
            old(self).search_query.wf(),
        ensures
            final(self).entries@.len() == deltas@.len(),
            forall|k: int|
                0 <= k < deltas@.len() ==> {
                    let e = #[trigger] final(self).entries@[k];
                    &&& e.display@ == entry_display_spec(deltas@[k])
                    &&& e.path@ == deltas@[k].path@
                    &&& e.delta_index == k
                },
            final(self).filtered_indices@ == filtered_from(
                final(self).entries@,
                old(self).search_query.text_spec(),
                0,
            ),
            final(self).search_query == old(self).search_query,
            final(self).search_active == old(self).search_active,
            final(self).wf(),
    {
        let mut entries: Vec<NavigatorEntry> = Vec::new();
        let mut i: usize = 0;
        while i < deltas.len()
            invariant
                0 <= i <= deltas@.len(),
                entries@.len() == i,
                forall|k: int|
                    0 <= k < i ==> {
                        let e = #[trigger] entries@[k];
                        &&& e.display@ == entry_display_spec(deltas@[k])
                        &&& e.path@ == deltas@[k].path@
                        &&& e.delta_index == k
                    },
            decreases deltas@.len() - i,
        {
            let d = &deltas[i];
            let mut display = d.path.clone();
            display.append(" [");
            display.append(d.status.label());
            display.append("] +");
            display.append(usize_to_string(d.additions).as_str());
            display.append(" -");
            display.append(usize_to_string(d.deletions).as_str());
            entries.push(NavigatorEntry { display, path: d.path.clone(), delta_index: i });
            i = i + 1;
        }
        self.entries = entries;
        self.refilter();
    }

    /// The filtered entries, each with its index into `entries`.
    pub fn visible_entries(&self) -> (r: Vec<(usize, NavigatorEntry)>)
        requires
            self.wf(),
        ensures
            r@.len() == self.filtered_indices@.len(),
            forall|k: int|
                0 <= k < r@.len() ==> {
                    &&& (#[trigger] r@[k]).0 == self.filtered_indices@[k]
                    &&& r@[k].1 == self.entries@[self.filtered_indices@[k] as int]
                },
    {
        let mut r: Vec<(usize, NavigatorEntry)> = Vec::new();
        let mut k: usize = 0;
        while k < self.filtered_indices.len()
            invariant
                self.wf(),
                0 <= k <= self.filtered_indices@.len(),
                r@.len() == k,
                forall|q: int|
                    0 <= q < k ==> {
                        &&& (#[trigger] r@[q]).0 == self.filtered_indices@[q]
                        &&& r@[q].1 == self.entries@[self.filtered_indices@[q] as int]
                    },
            decreases self.filtered_indices@.len() - k,
        {
            let idx = self.filtered_indices[k];
            r.push((idx, self.entries[idx].clone()));
            k = k + 1;
        }
        r
    }

    /// Move the selection up one entry, stopping at the top.
    pub fn select_up(&mut self)
        ensures
            final(self).selected == (if old(self).selected > 0 {
                old(self).selected - 1
            } else {
                0int
            }),
            final(self).entries@ == old(self).entries@,
            final(self).filtered_indices@ == old(self).filtered_indices@,
            final(self).search_query == old(self).search_query,
            final(self).search_active == old(self).search_active,
            old(self).wf() ==> final(self).wf(),
    {
        if self.selected > 0 {
            self.selected = self.selected - 1;
        }
    }

    /// Move the selection down one entry, clamping to the last entry.
    pub fn select_down(&mut self)
        ensures
            final(self).entries@ == old(self).entries@,
            final(self).filtered_indices@ == old(self).filtered_indices@,
            final(self).search_query == old(self).search_query,
            final(self).search_active == old(self).search_active,
            old(self).filtered_indices@.len() == 0 ==> final(self).selected == old(self).selected,
            old(self).filtered_indices@.len() > 0 ==> final(self).selected as int == (if old(
                self,
            ).selected + 1 <= old(self).filtered_indices@.len() - 1 {
                old(self).selected + 1
            } else {
                old(self).filtered_indices@.len() - 1
            }),
            old(self).wf() ==> final(self).wf(),
    {
        if self.filtered_indices.len() > 0 {
            let max = self.filtered_indices.len() - 1;
            if self.selected >= max {
                self.selected = max;
            } else {
                self.selected = self.selected + 1;
            }
        }
    }

    /// The delta index of the selected entry, when one is selected.
    pub fn selected_delta_index(&self) -> (r: Option<usize>)
        requires
            self.wf(),
        ensures
            self.selected < self.filtered_indices@.len() ==> r == Some(
                self.entries@[self.filtered_indices@[self.selected as int] as int].delta_index,
            ),
            self.selected >= self.filtered_indices@.len() ==> r is None,
    {
        if self.selected < self.filtered_indices.len() {
            let idx = self.filtered_indices[self.selected];
            Some(self.entries[idx].delta_index)
        } else {
            None
        }
    }

    /// Open the search prompt, remembering the selection for cancel.
    pub fn start_search(&mut self)
        ensures
            final(self).search_active,
            final(self).search_query.text_spec().len() == 0,
            final(self).search_query.wf(),
            final(self).pre_search_selected == Some(old(self).selected),
            final(self).entries@ == old(self).entries@,
            final(self).filtered_indices@ == old(self).filtered_indices@,
            final(self).selected == old(self).selected,
            old(self).wf() ==> final(self).wf(),
    {
        self.pre_search_selected = Some(self.selected);
        self.search_active = true;
        self.search_query.clear();
    }

    /// Confirm search: resolve the selected entry, clear the query so all
    /// entries show again, and keep the selection on that entry.
    pub fn confirm_search(&mut self)
        requires
            old(self).wf(),
        ensures
            !final(self).search_active,
            final(self).search_query.text_spec().len() == 0,
            final(self).entries@ == old(self).entries@,
            final(self).filtered_indices@ == filtered_from(old(self).entries@, Seq::empty(), 0),
            ({
                // When the search had an entry selected and that entry is
                // still in the unfiltered list, the selection follows it.
                let had = old(self).selected < old(self).filtered_indices@.len();
                had ==> {
                    let idx = old(self).entries@[old(self).filtered_indices@[old(
                        self,
                    ).selected as int] as int].delta_index;
                    let f = filtered_from(old(self).entries@, Seq::empty(), 0);
                    let p = delta_pos(old(self).entries@, f, idx, 0);
                    p < f.len() ==> final(self).selected == p
                }
            }),
            final(self).wf(),
    {
        let target_delta_index = self.selected_delta_index();
        self.search_active = false;
        self.search_query.clear();
        self.refilter();
        proof {
            assert(self.search_query.text_spec() =~= Seq::<char>::empty());
        }
        if let Some(delta_idx) = target_delta_index {
            let ghost f = filtered_from(old(self).entries@, Seq::empty(), 0);
            let mut pos: usize = 0;
            proof {
                lemma_delta_pos_step(self.entries@, f, delta_idx, 0, 0);
            }
            while pos < self.filtered_indices.len()
                invariant
                    0 <= pos <= self.filtered_indices@.len(),
                    self.wf(),
                    !self.search_active,
                    self.search_query.text_spec().len() == 0,
                    self.entries@ == old(self).entries@,
                    self.filtered_indices@ == filtered_from(old(self).entries@, Seq::empty(), 0),
                    f == self.filtered_indices@,
                    old(self).selected < old(self).filtered_indices@.len(),
                    delta_idx == old(self).entries@[old(self).filtered_indices@[old(
                        self,
                    ).selected as int] as int].delta_index,
                    forall|q: int|
                        0 <= q < pos ==> self.entries@[(#[trigger] f[q]) as int].delta_index
                            != delta_idx,
                    delta_pos(self.entries@, f, delta_idx, 0) >= pos,
                decreases self.filtered_indices@.len() - pos,
            {
                let idx = self.filtered_indices[pos];
                if self.entries[idx].delta_index == delta_idx {
                    proof {
                        lemma_delta_pos_step(self.entries@, f, delta_idx, 0, pos as int);
                    }
                    self.selected = pos;
                    self.pre_search_selected = None;
                    return ;
                }
                pos = pos + 1;
                proof {
                    lemma_delta_pos_step(self.entries@, f, delta_idx, 0, pos as int);
                }
            }
            proof {
                lemma_delta_pos_step(self.entries@, f, delta_idx, 0, f.len() as int);
            }
        }
        self.pre_search_selected = None;
    }

    /// Cancel search: restore the selection saved when search started,
    /// clamped into the unfiltered list.
    pub fn cancel_search(&mut self)
        requires
            old(self).wf(),
        ensures
            !final(self).search_active,
            final(self).search_query.text_spec().len() == 0,
            final(self).pre_search_selected is None,
            final(self).entries@ == old(self).entries@,
            final(self).filtered_indices@ == filtered_from(old(self).entries@, Seq::empty(), 0),
            ({
                let f = filtered_from(old(self).entries@, Seq::empty(), 0);
                match old(self).pre_search_selected {
                    Some(p) => final(self).selected as int == (if f.len() > 0 {
                        if p < f.len() {
                            p as int
                        } else {
                            f.len() - 1
                        }
                    } else {
                        0int
                    }),
                    None => final(self).selected as int == (if f.len() > 0 {
                        if old(self).selected < f.len() {
                            old(self).selected as int
                        } else {
                            f.len() - 1
                        }
                    } else {
                        0int
                    }),
                }
            }),
            final(self).wf(),
    {
        let restore = match self.pre_search_selected {
            Some(p) => Some(p),
            None => None,
        };
        self.pre_search_selected = None;
        self.search_active = false;
        self.search_query.clear();
        self.refilter();
        if let Some(prev) = restore {
            if self.filtered_indices.len() > 0 {
                let max = self.filtered_indices.len() - 1;
                if prev > max {
                    self.selected = max;
                } else {
                    self.selected = prev;
                }
            }
        }
    }

    /// Insert a character into the query at its cursor, reset the
    /// selection to the top, and refilter.
    pub fn search_push(&mut self, c: char)
        requires
            old(self).wf(),
            old(self).search_query.text_spec().len() < usize::MAX,
        ensures
            final(self).search_query.text_spec() == old(self).search_query.text_spec().insert(
                old(self).search_query.cursor_spec(),
                c,
            ),
            final(self).search_query.cursor_spec() == old(self).search_query.cursor_spec() + 1,
            final(self).entries@ == old(self).entries@,
            final(self).filtered_indices@ == filtered_from(
                old(self).entries@,
                final(self).search_query.text_spec(),
                0,
            ),
            final(self).selected == 0,
            final(self).wf(),
    {
        self.search_query.insert_char(c);
        self.selected = 0;
        self.refilter();
    }

    /// Delete the query character before the cursor, reset the selection
    /// to the top, and refilter.
    pub fn search_pop(&mut self)
        requires
            old(self).wf(),
        ensures
            final(self).search_query.text_spec() == (if old(self).search_query.cursor_spec() > 0 {
                old(self).search_query.text_spec().remove(old(self).search_query.cursor_spec() - 1)
            } else {
                old(self).search_query.text_spec()
            }),
            final(self).search_query.cursor_spec() == (if old(self).search_query.cursor_spec()
                > 0 {
                old(self).search_query.cursor_spec() - 1
            } else {
                0int
            }),
            final(self).entries@ == old(self).entries@,
            final(self).filtered_indices@ == filtered_from(
                old(self).entries@,
                final(self).search_query.text_spec(),
                0,
            ),
            final(self).selected == 0,
            final(self).wf(),
    {
        proof {
            old(self).search_query.lemma_wf_bounds();
        }
        self.search_query.delete_back();
        self.selected = 0;
        self.refilter();
    }
}

} // verus!
