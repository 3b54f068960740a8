//! The line-anchored annotation model. An anchor addresses file lines —
//! an old-side range, a new-side range, or both — never display rows, so
//! it survives context-window changes, gap expansion and rewrapping. The
//! store keeps its annotations in arrival order; navigation works over a
//! stably sorted view ordered by `(file path, representative line)`.

use vstd::prelude::*;

use crate::strutil::lemma_seq_lt_asym;
use crate::strutil::lemma_seq_lt_total;
use crate::strutil::lemma_seq_lt_trans;
use crate::strutil::seq_lt;
use crate::strutil::str_eq;
use crate::strutil::str_lt;

verus! {

/// A file path plus the line ranges an annotation is anchored to. Ranges
/// are inclusive `(start, end)` pairs in file line-number space.
#[derive(Debug)]
pub struct LineAnchor {
    pub file_path: String,
    pub old_range: Option<(u32, u32)>,
    pub new_range: Option<(u32, u32)>,
}

/// The representative line of an anchor: new-side start when present,
/// else old-side start, else zero.
pub open spec fn sort_line_of(a: LineAnchor) -> u32 {
    match a.new_range {
        Some(r) => r.0,
        None => match a.old_range {
            Some(r) => r.0,
            None => 0,
        },
    }
}

pub open spec fn covers_old_spec(a: LineAnchor, lineno: u32) -> bool {
    match a.old_range {
        Some(r) => r.0 <= lineno <= r.1,
        None => false,
    }
}

pub open spec fn covers_new_spec(a: LineAnchor, lineno: u32) -> bool {
    match a.new_range {
        Some(r) => r.0 <= lineno <= r.1,
        None => false,
    }
}

/// An anchor covers a position when either side matches: a new-side hit
/// or an old-side hit is each sufficient on its own.
pub open spec fn covers_spec(a: LineAnchor, old_lineno: Option<u32>, new_lineno: Option<u32>) -> bool {
    ||| match new_lineno {
        Some(n) => covers_new_spec(a, n),
        None => false,
    }
    ||| match old_lineno {
        Some(n) => covers_old_spec(a, n),
        None => false,
    }
}

pub open spec fn range_overlaps(x: Option<(u32, u32)>, y: Option<(u32, u32)>) -> bool {
    match (x, y) {
        (Some(a), Some(b)) => a.0 <= b.1 && b.0 <= a.1,
        _ => false,
    }
}

/// Whether this anchor's ranges overlap the given ranges, on either side.
pub open spec fn overlaps_spec(
    a: LineAnchor,
    old_range: Option<(u32, u32)>,
    new_range: Option<(u32, u32)>,
) -> bool {
    range_overlaps(a.old_range, old_range) || range_overlaps(a.new_range, new_range)
}

/// Whether this anchor's ranges are exactly the given ranges.
pub open spec fn ranges_match_spec(
    a: LineAnchor,
    old_range: Option<(u32, u32)>,
    new_range: Option<(u32, u32)>,
) -> bool {
    a.old_range == old_range && a.new_range == new_range
}

impl LineAnchor {
    pub fn clone(&self) -> (r: LineAnchor)
        ensures
            r == *self,
    {
        LineAnchor {
            file_path: self.file_path.clone(),
            old_range: self.old_range,
            new_range: self.new_range,
        }
    }

    /// A single representative line number for sorting and navigation.
    pub fn sort_line(&self) -> (r: u32)
        ensures
            r == sort_line_of(*self),
    {
        match self.new_range {
            Some((s, _)) => s,
            None => match self.old_range {
                Some((s, _)) => s,
                None => 0,
            },
        }
    }

    /// Whether this anchor covers a given old-file line number.
    pub fn covers_old(&self, lineno: u32) -> (r: bool)
        ensures
            r == covers_old_spec(*self, lineno),
    {
        match self.old_range {
            Some((s, e)) => s <= lineno && lineno <= e,
            None => false,
        }
    }

    /// Whether this anchor covers a given new-file line number.
    pub fn covers_new(&self, lineno: u32) -> (r: bool)
        ensures
            r == covers_new_spec(*self, lineno),
    {
        match self.new_range {
            Some((s, e)) => s <= lineno && lineno <= e,
            None => false,
        }
    }

    /// Whether this anchor covers the given old/new line-number pair;
    /// either side matching (when present) is sufficient.
    pub fn covers(&self, old_lineno: Option<u32>, new_lineno: Option<u32>) -> (r: bool)
        ensures
            r == covers_spec(*self, old_lineno, new_lineno),
    {
        if let Some(n) = new_lineno {
            if self.covers_new(n) {
                return true;
            }
        }
        if let Some(n) = old_lineno {
            if self.covers_old(n) {
                return true;
            }
        }
        false
    }

    /// Whether this anchor's ranges overlap the given ranges.
    pub fn overlaps(&self, old_range: Option<(u32, u32)>, new_range: Option<(u32, u32)>) -> (r:
        bool)
        ensures
            r == overlaps_spec(*self, old_range, new_range),
    {
        let old_overlaps = match (self.old_range, old_range) {
            (Some((s1, e1)), Some((s2, e2))) => s1 <= e2 && s2 <= e1,
            _ => false,
        };
        let new_overlaps = match (self.new_range, new_range) {
            (Some((s1, e1)), Some((s2, e2))) => s1 <= e2 && s2 <= e1,
            _ => false,
        };
        old_overlaps || new_overlaps
    }

    /// Whether this anchor's ranges are exactly the given ranges.
    pub fn ranges_match(&self, old_range: Option<(u32, u32)>, new_range: Option<(u32, u32)>) -> (r:
        bool)
        ensures
            r == ranges_match_spec(*self, old_range, new_range),
    {
        let old_eq = match (self.old_range, old_range) {
            (Some(a), Some(b)) => a.0 == b.0 && a.1 == b.1,
            (None, None) => true,
            _ => false,
        };
        let new_eq = match (self.new_range, new_range) {
            (Some(a), Some(b)) => a.0 == b.0 && a.1 == b.1,
            (None, None) => true,
            _ => false,
        };
        old_eq && new_eq
    }
}

/// A single annotation: an anchor, the comment text, and when it was made.
#[derive(Debug)]
pub struct Annotation {
    pub anchor: LineAnchor,
    pub comment: String,
    pub created_at: String,
}

impl Annotation {
    pub fn clone(&self) -> (r: Annotation)
        ensures
            r == *self,
    {
        Annotation {
            anchor: self.anchor.clone(),
            comment: self.comment.clone(),
            created_at: self.created_at.clone(),
        }
    }
}

/// Navigation order: by file path, then by representative line.
pub open spec fn ann_le(a: Annotation, b: Annotation) -> bool {
    ||| seq_lt(a.anchor.file_path@, b.anchor.file_path@)
    ||| (a.anchor.file_path@ == b.anchor.file_path@ && sort_line_of(a.anchor) <= sort_line_of(
        b.anchor,
    ))
}

/// The store is kept sorted in navigation order.
pub open spec fn anns_sorted(anns: Seq<Annotation>) -> bool {
    forall|i: int, j: int| 0 <= i < j < anns.len() ==> ann_le(#[trigger] anns[i], #[trigger] anns[j])
}

/// Order is total: two annotations always compare one way or the other.
pub proof fn lemma_ann_le_total(a: Annotation, b: Annotation)
    ensures
        ann_le(a, b) || ann_le(b, a),
{
    lemma_seq_lt_total(a.anchor.file_path@, b.anchor.file_path@);
}

/// All annotations of the session, kept in arrival order; the sorted
/// navigation view is computed on demand by `all_sorted`.
#[derive(Debug)]
pub struct AnnotationState {
    pub annotations: Vec<Annotation>,
}

/// Whether `a` belongs to the file named `path` and covers the position.
pub open spec fn covers_at(
    a: Annotation,
    path: Seq<char>,
    old_lineno: Option<u32>,
    new_lineno: Option<u32>,
) -> bool {
    a.anchor.file_path@ == path && covers_spec(a.anchor, old_lineno, new_lineno)
}

/// Where the stable sort inserts an annotation: after every entry that
/// does not come strictly after it, so equal keys keep their arrival
/// order.
pub open spec fn insert_pos(anns: Seq<Annotation>, a: Annotation, i: int) -> int
    decreases anns.len() - i,
{
    if i < 0 || i >= anns.len() {
        anns.len() as int
    } else if ann_le(anns[i], a) {
        insert_pos(anns, a, i + 1)
    } else {
        i
    }
}

pub proof fn lemma_insert_pos_bounds(anns: Seq<Annotation>, a: Annotation, i: int)
    requires
        0 <= i <= anns.len(),
    ensures
        i <= insert_pos(anns, a, i) <= anns.len(),
        forall|q: int| i <= q < insert_pos(anns, a, i) ==> ann_le(#[trigger] anns[q], a),
        insert_pos(anns, a, i) < anns.len() ==> !ann_le(anns[insert_pos(anns, a, i)], a),
    decreases anns.len() - i,
{
    if i < anns.len() && ann_le(anns[i], a) {
        lemma_insert_pos_bounds(anns, a, i + 1);
    }
}

/// Inserting at `insert_pos` keeps a sorted sequence sorted.
pub proof fn lemma_insert_keeps_sorted(anns0: Seq<Annotation>, a: Annotation)
    requires
        anns_sorted(anns0),
    ensures
        anns_sorted(anns0.insert(insert_pos(anns0, a, 0), a)),
{
    lemma_insert_pos_bounds(anns0, a, 0);
    let pos = insert_pos(anns0, a, 0);
    let anns1 = anns0.insert(pos, a);
    assert forall|p: int, q: int| 0 <= p < q < anns1.len() implies ann_le(
        #[trigger] anns1[p],
        #[trigger] anns1[q],
    ) by {
        if q < pos {
            assert(anns1[p] == anns0[p]);
            assert(anns1[q] == anns0[q]);
        } else if q == pos {
            assert(anns1[q] == a);
            assert(anns1[p] == anns0[p]);
            assert(ann_le(anns0[p], a));
        } else {
            assert(anns1[q] == anns0[q - 1]);
            if p < pos {
                assert(anns1[p] == anns0[p]);
                if p < q - 1 {
                    assert(ann_le(anns0[p], anns0[q - 1]));
                } else {
                    assert(ann_le(anns0[p], a));
                    assert(false);
                }
            } else if p == pos {
                assert(anns1[p] == a);
                assert(pos < anns0.len());
                assert(!ann_le(anns0[pos], a));
                lemma_ann_le_total(anns0[pos], a);
                assert(ann_le(a, anns0[pos]));
                if q - 1 == pos {
                } else {
                    assert(ann_le(anns0[pos], anns0[q - 1]));
                    lemma_ann_le_trans(a, anns0[pos], anns0[q - 1]);
                }
            } else {
                assert(anns1[p] == anns0[p - 1]);
                assert(ann_le(anns0[p - 1], anns0[q - 1]));
            }
        }
    }
}

/// The stable sort of an arrival-order sequence: each annotation in turn
/// goes after every earlier one that does not come strictly after it, so
/// equal keys keep their arrival order.
pub open spec fn stable_sorted(anns: Seq<Annotation>) -> Seq<Annotation>
    decreases anns.len(),
{
    if anns.len() == 0 {
        Seq::empty()
    } else {
        let prev = stable_sorted(anns.drop_last());
        prev.insert(insert_pos(prev, anns.last(), 0), anns.last())
    }
}

/// The stable sort keeps every annotation and is sorted.
pub proof fn lemma_stable_sorted_props(anns: Seq<Annotation>)
    ensures
        stable_sorted(anns).len() == anns.len(),
        anns_sorted(stable_sorted(anns)),
    decreases anns.len(),
{
    if anns.len() > 0 {
        lemma_stable_sorted_props(anns.drop_last());
        let prev = stable_sorted(anns.drop_last());
        lemma_insert_pos_bounds(prev, anns.last(), 0);
        lemma_insert_keeps_sorted(prev, anns.last());
    }
}

/// Order comparison used when sorting.
fn le_at_vec(v: &Vec<Annotation>, i: usize, a: &Annotation) -> (r: bool)
    requires
        i < v@.len(),
    ensures
        r == ann_le(v@[i as int], *a),
{
    let e = &v[i];
    if str_lt(e.anchor.file_path.as_str(), a.anchor.file_path.as_str()) {
        true
    } else if str_eq(e.anchor.file_path.as_str(), a.anchor.file_path.as_str()) {
        e.anchor.sort_line() <= a.anchor.sort_line()
    } else {
        false
    }
}

/// Insert an annotation into a sorted list at its stable position: after
/// every entry that does not come strictly after it.
fn insert_in_order(out: &mut Vec<Annotation>, a: Annotation)
    requires
        anns_sorted(old(out)@),
    ensures
        final(out)@ == old(out)@.insert(insert_pos(old(out)@, a, 0), a),
        anns_sorted(final(out)@),
{
    let ghost anns0 = out@;
    let mut i: usize = 0;
    proof {
        lemma_insert_pos_bounds(anns0, a, 0);
    }
    while i < out.len() && le_at_vec(out, i, &a)
        invariant
            0 <= i <= out@.len(),
            out@ == anns0,
            forall|q: int| 0 <= q < i ==> ann_le(#[trigger] anns0[q], a),
            insert_pos(anns0, a, 0) >= i,
        decreases out@.len() - i,
    {
        i = i + 1;
        proof {
            lemma_insert_pos_prefix(anns0, a, i as int);
        }
    }
    proof {
        lemma_insert_pos_bounds(anns0, a, 0);
        if i < anns0.len() {
            assert(!ann_le(anns0[i as int], a));
        }
        assert(insert_pos(anns0, a, 0) == i as int) by {
            lemma_insert_pos_prefix(anns0, a, i as int);
        }
        lemma_insert_keeps_sorted(anns0, a);
    }
    out.insert(i, a);
}

impl AnnotationState {
    /// An empty annotation store.
    pub fn new() -> (r: AnnotationState)
        ensures
            r.annotations@.len() == 0,
    {
        AnnotationState { annotations: Vec::new() }
    }

    /// Add an annotation: it is appended at the end of the store, so
    /// annotations of one file keep their arrival order; no uniqueness
    /// constraint applies — an annotation coinciding with an existing one
    /// is retained alongside it.
    pub fn add(&mut self, annotation: Annotation)
        ensures
            final(self).annotations@ == old(self).annotations@.push(annotation),
    {
        self.annotations.push(annotation);
    }

    /// Whether any annotation of `file_path` covers the position.
    pub fn has_annotation_at(
        &self,
        file_path: &str,
        old_lineno: Option<u32>,
        new_lineno: Option<u32>,
    ) -> (r: bool)
        ensures
            r == exists|i: int|
                0 <= i < self.annotations@.len() && covers_at(
                    #[trigger] self.annotations@[i],
                    file_path@,
                    old_lineno,
                    new_lineno,
                ),
    {
        let mut i: usize = 0;
        while i < self.annotations.len()
            invariant
                0 <= i <= self.annotations@.len(),
                forall|q: int|
                    0 <= q < i ==> !covers_at(
                        #[trigger] self.annotations@[q],
                        file_path@,
                        old_lineno,
                        new_lineno,
                    ),
            decreases self.annotations@.len() - i,
        {
            let a = &self.annotations[i];
            if str_eq(a.anchor.file_path.as_str(), file_path) && a.anchor.covers(
                old_lineno,
                new_lineno,
            ) {
                return true;
            }
            i = i + 1;
        }
        false
    }

    /// Total count of annotations.
    pub fn count(&self) -> (r: usize)
        ensures
            r == self.annotations@.len(),
    {
        self.annotations.len()
    }

    /// All annotations as a flat list, stably ordered by file then
    /// representative line: annotations with equal keys keep their
    /// arrival order.
    pub fn all_sorted(&self) -> (r: Vec<Annotation>)
        ensures
            r@ == stable_sorted(self.annotations@),
            anns_sorted(r@),
            r@.len() == self.annotations@.len(),
    {
        let mut r: Vec<Annotation> = Vec::new();
        let mut i: usize = 0;
        proof {
            assert(self.annotations@.take(0) =~= Seq::<Annotation>::empty());
        }
        while i < self.annotations.len()
            invariant
                0 <= i <= self.annotations@.len(),
                r@ == stable_sorted(self.annotations@.take(i as int)),
                anns_sorted(r@),
            decreases self.annotations@.len() - i,
        {
            insert_in_order(&mut r, self.annotations[i].clone());
            i = i + 1;
            proof {
                let t = self.annotations@.take(i as int);
                assert(t.drop_last() =~= self.annotations@.take(i - 1));
                assert(t.last() == self.annotations@[i - 1]);
                assert(r@ == stable_sorted(t));
            }
        }
        proof {
            assert(self.annotations@.take(self.annotations@.len() as int) =~= self.annotations@);
            lemma_stable_sorted_props(self.annotations@);
        }
        r
    }

    /// All annotations of `file_path` whose anchor covers the position.
    pub fn annotations_overlapping(
        &self,
        file_path: &str,
        old_lineno: Option<u32>,
        new_lineno: Option<u32>,
    ) -> (r: Vec<Annotation>)
        ensures
            r@ == overlapping_from(self.annotations@, file_path@, old_lineno, new_lineno, 0),
    {
        let ghost anns = self.annotations@;
        let mut r: Vec<Annotation> = Vec::new();
        let mut i: usize = 0;
        while i < self.annotations.len()
            invariant
                0 <= i <= anns.len(),
                anns == self.annotations@,
                r@ + overlapping_from(anns, file_path@, old_lineno, new_lineno, i as int)
                    == overlapping_from(anns, file_path@, old_lineno, new_lineno, 0),
            decreases anns.len() - i,
        {
            let a = &self.annotations[i];
            if str_eq(a.anchor.file_path.as_str(), file_path) && a.anchor.covers(
                old_lineno,
                new_lineno,
            ) {
                r.push(a.clone());
            }
            i = i + 1;
            proof {
                assert(r@ + overlapping_from(anns, file_path@, old_lineno, new_lineno, i as int)
                    =~= overlapping_from(anns, file_path@, old_lineno, new_lineno, 0));
            }
        }
        proof {
            assert(r@ =~= overlapping_from(anns, file_path@, old_lineno, new_lineno, 0));
        }
        r
    }

    /// Delete every annotation of `file_path` whose ranges overlap the
    /// given ranges.
    pub fn delete_at(
        &mut self,
        file_path: &str,
        old_range: Option<(u32, u32)>,
        new_range: Option<(u32, u32)>,
    )
        ensures
            final(self).annotations@ == kept_after_delete(
                old(self).annotations@,
                file_path@,
                old_range,
                new_range,
                0,
            ),
    {
        let ghost anns0 = self.annotations@;
        let mut out: Vec<Annotation> = Vec::new();
        let mut i: usize = 0;
        while i < self.annotations.len()
            invariant
                0 <= i <= anns0.len(),
                anns0 == self.annotations@,
                anns0 == old(self).annotations@,
                out@ + kept_after_delete(anns0, file_path@, old_range, new_range, i as int)
                    == kept_after_delete(anns0, file_path@, old_range, new_range, 0),
            decreases anns0.len() - i,
        {
            let a = &self.annotations[i];
            let doomed = str_eq(a.anchor.file_path.as_str(), file_path) && a.anchor.overlaps(
                old_range,
                new_range,
            );
            if !doomed {
                out.push(a.clone());
            }
            i = i + 1;
            proof {
                assert(out@ + kept_after_delete(anns0, file_path@, old_range, new_range, i as int)
                    =~= kept_after_delete(anns0, file_path@, old_range, new_range, 0));
            }
        }
        proof {
            assert(out@ =~= kept_after_delete(anns0, file_path@, old_range, new_range, 0));
        }
        self.annotations = out;
    }

    /// Delete the first annotation that matches the given anchor ranges
    /// and comment text exactly; absent a match, change nothing.
    pub fn delete_annotation(
        &mut self,
        file_path: &str,
        old_range: Option<(u32, u32)>,
        new_range: Option<(u32, u32)>,
        comment: &str,
    )
        ensures
            ({
                let idx = find_exact(
                    old(self).annotations@,
                    file_path@,
                    old_range,
                    new_range,
                    comment@,
                    0,
                );
                if idx < old(self).annotations@.len() {
                    final(self).annotations@ == old(self).annotations@.remove(idx)
                } else {
                    final(self).annotations@ == old(self).annotations@
                }
            }),
    {
        let ghost anns0 = self.annotations@;
        let mut i: usize = 0;
        proof {
            lemma_find_exact_bounds(anns0, file_path@, old_range, new_range, comment@, 0);
        }
        while i < self.annotations.len()
            invariant
                0 <= i <= anns0.len(),
                anns0 == self.annotations@,
                anns0 == old(self).annotations@,
                forall|q: int|
                    0 <= q < i ==> !exact_match(
                        #[trigger] anns0[q],
                        file_path@,
                        old_range,
                        new_range,
                        comment@,
                    ),
                find_exact(anns0, file_path@, old_range, new_range, comment@, 0) >= i,
                find_exact(anns0, file_path@, old_range, new_range, comment@, 0) <= anns0.len(),
            decreases anns0.len() - i,
        {
            let a = &self.annotations[i];
            let hit = str_eq(a.anchor.file_path.as_str(), file_path) && a.anchor.ranges_match(
                old_range,
                new_range,
            ) && str_eq(a.comment.as_str(), comment);
            if hit {
                proof {
                    lemma_find_exact_at(anns0, file_path@, old_range, new_range, comment@, i as int);
                }
                self.annotations.remove(i);
                return ;
            }
            i = i + 1;
            proof {
                lemma_find_exact_from(anns0, file_path@, old_range, new_range, comment@, i as int);
            }
        }
    }

    /// Replace the comment text of the first annotation that matches the
    /// given anchor ranges and old comment exactly; the anchor stays as
    /// it is.
    pub fn update_comment(
        &mut self,
        file_path: &str,
        old_range: Option<(u32, u32)>,
        new_range: Option<(u32, u32)>,
        old_comment: &str,
        new_comment: &str,
    )
        ensures
            ({
                let idx = find_exact(
                    old(self).annotations@,
                    file_path@,
                    old_range,
                    new_range,
                    old_comment@,
                    0,
                );
                if idx < old(self).annotations@.len() {
                    &&& final(self).annotations@.len() == old(self).annotations@.len()
                    &&& final(self).annotations@[idx].anchor == old(self).annotations@[idx].anchor
                    &&& final(self).annotations@[idx].comment@ == new_comment@
                    &&& final(self).annotations@[idx].created_at == old(self).annotations@[idx].created_at
                    &&& forall|q: int|
                        0 <= q < old(self).annotations@.len() && q != idx
                            ==> final(self).annotations@[q] == old(self).annotations@[q]
                } else {
                    final(self).annotations@ == old(self).annotations@
                }
            }),
    {
        let ghost anns0 = self.annotations@;
        let mut i: usize = 0;
        proof {
            lemma_find_exact_bounds(anns0, file_path@, old_range, new_range, old_comment@, 0);
        }
        while i < self.annotations.len()
            invariant
                0 <= i <= anns0.len(),
                anns0 == self.annotations@,
                anns0 == old(self).annotations@,
                forall|q: int|
                    0 <= q < i ==> !exact_match(
                        #[trigger] anns0[q],
                        file_path@,
                        old_range,
                        new_range,
                        old_comment@,
                    ),
                find_exact(anns0, file_path@, old_range, new_range, old_comment@, 0) >= i,
                find_exact(anns0, file_path@, old_range, new_range, old_comment@, 0) <= anns0.len(),
            decreases anns0.len() - i,
        {
            let a = &self.annotations[i];
            let hit = str_eq(a.anchor.file_path.as_str(), file_path) && a.anchor.ranges_match(
                old_range,
                new_range,
            ) && str_eq(a.comment.as_str(), old_comment);
            if hit {
                proof {
                    lemma_find_exact_at(
                        anns0,
                        file_path@,
                        old_range,
                        new_range,
                        old_comment@,
                        i as int,
                    );
                }
                let removed = self.annotations.remove(i);
                let updated = Annotation {
                    anchor: removed.anchor,
                    comment: new_comment.to_owned(),
                    created_at: removed.created_at,
                };
                self.annotations.insert(i, updated);
                proof {
                    assert(self.annotations@ =~= anns0.update(
                        i as int,
                        self.annotations@[i as int],
                    ));
                }
                return ;
            }
            i = i + 1;
            proof {
                lemma_find_exact_from(
                    anns0,
                    file_path@,
                    old_range,
                    new_range,
                    old_comment@,
                    i as int,
                );
            }
        }
    }

    /// The next annotation strictly after `(file_path, lineno)` in file
    /// then line order, wrapping around to the first annotation past the
    /// end; `None` only when the store is empty.
    pub fn next_after(&self, file_path: &str, lineno: u32) -> (r: Option<(String, u32)>)
        ensures
            self.annotations@.len() == 0 <==> r is None,
            r matches Some(pair) ==> {
                let anns = stable_sorted(self.annotations@);
                let idx = first_after(anns, file_path@, lineno, 0);
                let chosen: int = if idx < anns.len() {
                    idx
                } else {
                    0
                };
                &&& pair.0@ == anns[chosen].anchor.file_path@
                &&& pair.1 == sort_line_of(anns[chosen].anchor)
            },
    {
        proof {
            lemma_stable_sorted_props(self.annotations@);
        }
        let sorted = self.all_sorted();
        let ghost anns = sorted@;
        let mut i: usize = 0;
        proof {
            lemma_first_after_bounds(anns, file_path@, lineno, 0);
        }
        while i < sorted.len()
            invariant
                0 <= i <= anns.len(),
                anns == sorted@,
                anns == stable_sorted(self.annotations@),
                forall|q: int| 0 <= q < i ==> !after_query(#[trigger] anns[q], file_path@, lineno),
                first_after(anns, file_path@, lineno, 0) >= i,
                first_after(anns, file_path@, lineno, 0) <= anns.len(),
            decreases anns.len() - i,
        {
            let a = &sorted[i];
            let is_after = str_lt(file_path, a.anchor.file_path.as_str()) || (str_eq(
                a.anchor.file_path.as_str(),
                file_path,
            ) && a.anchor.sort_line() > lineno);
            if is_after {
                proof {
                    lemma_first_after_at(anns, file_path@, lineno, i as int);
                }
                return Some((a.anchor.file_path.clone(), a.anchor.sort_line()));
            }
            i = i + 1;
            proof {
                lemma_first_after_from(anns, file_path@, lineno, i as int);
            }
        }
        if sorted.len() == 0 {
            return None;
        }
        let a = &sorted[0];
        Some((a.anchor.file_path.clone(), a.anchor.sort_line()))
    }

    /// The nearest annotation strictly before `(file_path, lineno)`,
    /// wrapping around to the last annotation past the start; `None` only
    /// when the store is empty.
    pub fn prev_before(&self, file_path: &str, lineno: u32) -> (r: Option<(String, u32)>)
        ensures
            self.annotations@.len() == 0 <==> r is None,
            r matches Some(pair) ==> {
                let anns = stable_sorted(self.annotations@);
                let idx = last_before(anns, file_path@, lineno, anns.len() - 1);
                let chosen: int = if idx >= 0 {
                    idx
                } else {
                    anns.len() - 1
                };
                &&& pair.0@ == anns[chosen].anchor.file_path@
                &&& pair.1 == sort_line_of(anns[chosen].anchor)
            },
    {
        proof {
            lemma_stable_sorted_props(self.annotations@);
        }
        let sorted = self.all_sorted();
        let ghost anns = sorted@;
        let n = sorted.len();
        let mut i: usize = n;
        proof {
            if n > 0 {
                lemma_last_before_bounds(anns, file_path@, lineno, anns.len() - 1);
            }
        }
        while i > 0
            invariant
                0 <= i <= anns.len(),
                n == anns.len(),
                anns == sorted@,
                anns == stable_sorted(self.annotations@),
                forall|q: int| i <= q < anns.len() ==> !before_query(#[trigger] anns[q], file_path@, lineno),
                last_before(anns, file_path@, lineno, anns.len() - 1) < i,
            decreases i,
        {
            let a = &sorted[i - 1];
            let is_before = str_lt(a.anchor.file_path.as_str(), file_path) || (str_eq(
                a.anchor.file_path.as_str(),
                file_path,
            ) && a.anchor.sort_line() < lineno);
            if is_before {
                proof {
                    lemma_last_before_at(anns, file_path@, lineno, i - 1);
                }
                return Some((a.anchor.file_path.clone(), a.anchor.sort_line()));
            }
            i = i - 1;
            proof {
                lemma_last_before_from(anns, file_path@, lineno, i as int);
            }
        }
        if n == 0 {
            return None;
        }
        let a = &sorted[n - 1];
        Some((a.anchor.file_path.clone(), a.anchor.sort_line()))
    }
}

/// Annotations of `path` covering the position, from index `i` on.
pub open spec fn overlapping_from(
    anns: Seq<Annotation>,
    path: Seq<char>,
    old_lineno: Option<u32>,
    new_lineno: Option<u32>,
    i: int,
) -> Seq<Annotation>
    decreases anns.len() - i,
{
    if i < 0 || i >= anns.len() {
        Seq::empty()
    } else if covers_at(anns[i], path, old_lineno, new_lineno) {
        seq![anns[i]] + overlapping_from(anns, path, old_lineno, new_lineno, i + 1)
    } else {
        overlapping_from(anns, path, old_lineno, new_lineno, i + 1)
    }
}

/// What survives deleting the overlapping annotations of `path`.
pub open spec fn kept_after_delete(
    anns: Seq<Annotation>,
    path: Seq<char>,
    old_range: Option<(u32, u32)>,
    new_range: Option<(u32, u32)>,
    i: int,
) -> Seq<Annotation>
    decreases anns.len() - i,
{
    if i < 0 || i >= anns.len() {
        Seq::empty()
    } else if anns[i].anchor.file_path@ == path && overlaps_spec(
        anns[i].anchor,
        old_range,
        new_range,
    ) {
        kept_after_delete(anns, path, old_range, new_range, i + 1)
    } else {
        seq![anns[i]] + kept_after_delete(anns, path, old_range, new_range, i + 1)
    }
}

/// An exact hit: same file, same ranges, same comment text.
pub open spec fn exact_match(
    a: Annotation,
    path: Seq<char>,
    old_range: Option<(u32, u32)>,
    new_range: Option<(u32, u32)>,
    comment: Seq<char>,
) -> bool {
    a.anchor.file_path@ == path && ranges_match_spec(a.anchor, old_range, new_range)
        && a.comment@ == comment
}

/// First index at or after `i` with an exact hit, or the length.
pub open spec fn find_exact(
    anns: Seq<Annotation>,
    path: Seq<char>,
    old_range: Option<(u32, u32)>,
    new_range: Option<(u32, u32)>,
    comment: Seq<char>,
    i: int,
) -> int
    decreases anns.len() - i,
{
    if i < 0 || i >= anns.len() {
        anns.len() as int
    } else if exact_match(anns[i], path, old_range, new_range, comment) {
        i
    } else {
        find_exact(anns, path, old_range, new_range, comment, i + 1)
    }
}

proof fn lemma_find_exact_at(
    anns: Seq<Annotation>,
    path: Seq<char>,
    old_range: Option<(u32, u32)>,
    new_range: Option<(u32, u32)>,
    comment: Seq<char>,
    i: int,
)
    requires
        0 <= i < anns.len(),
        forall|q: int| 0 <= q < i ==> !exact_match(#[trigger] anns[q], path, old_range, new_range, comment),
        exact_match(anns[i], path, old_range, new_range, comment),
    ensures
        find_exact(anns, path, old_range, new_range, comment, 0) == i,
{
    lemma_find_exact_step(anns, path, old_range, new_range, comment, 0, i);
}

proof fn lemma_find_exact_from(
    anns: Seq<Annotation>,
    path: Seq<char>,
    old_range: Option<(u32, u32)>,
    new_range: Option<(u32, u32)>,
    comment: Seq<char>,
    i: int,
)
    requires
        0 <= i <= anns.len(),
        forall|q: int| 0 <= q < i ==> !exact_match(#[trigger] anns[q], path, old_range, new_range, comment),
    ensures
        find_exact(anns, path, old_range, new_range, comment, 0) >= i,
{
    lemma_find_exact_step(anns, path, old_range, new_range, comment, 0, i);
}

proof fn lemma_find_exact_bounds(
    anns: Seq<Annotation>,
    path: Seq<char>,
    old_range: Option<(u32, u32)>,
    new_range: Option<(u32, u32)>,
    comment: Seq<char>,
    i: int,
)
    requires
        0 <= i <= anns.len(),
    ensures
        i <= find_exact(anns, path, old_range, new_range, comment, i) <= anns.len(),
    decreases anns.len() - i,
{
    if i < anns.len() && !exact_match(anns[i], path, old_range, new_range, comment) {
        lemma_find_exact_bounds(anns, path, old_range, new_range, comment, i + 1);
    }
}

proof fn lemma_find_exact_step(
    anns: Seq<Annotation>,
    path: Seq<char>,
    old_range: Option<(u32, u32)>,
    new_range: Option<(u32, u32)>,
    comment: Seq<char>,
    j: int,
    i: int,
)
    requires
        0 <= j <= i <= anns.len(),
        forall|q: int| j <= q < i ==> !exact_match(#[trigger] anns[q], path, old_range, new_range, comment),
    ensures
        find_exact(anns, path, old_range, new_range, comment, j) >= i,
        (i < anns.len() && exact_match(anns[i], path, old_range, new_range, comment))
            ==> find_exact(anns, path, old_range, new_range, comment, j) == i,
    decreases i - j,
{
    if j < i {
        lemma_find_exact_step(anns, path, old_range, new_range, comment, j + 1, i);
    } else {
        lemma_find_exact_bounds(anns, path, old_range, new_range, comment, j);
    }
}

/// Whether `a` comes strictly after the position `(path, line)`.
pub open spec fn after_query(a: Annotation, path: Seq<char>, line: u32) -> bool {
    seq_lt(path, a.anchor.file_path@) || (a.anchor.file_path@ == path && sort_line_of(a.anchor)
        > line)
}

/// Whether `a` comes strictly before the position `(path, line)`.
pub open spec fn before_query(a: Annotation, path: Seq<char>, line: u32) -> bool {
    seq_lt(a.anchor.file_path@, path) || (a.anchor.file_path@ == path && sort_line_of(a.anchor)
        < line)
}

/// First index at or after `i` strictly after the position, or the length.
pub open spec fn first_after(anns: Seq<Annotation>, path: Seq<char>, line: u32, i: int) -> int
    decreases anns.len() - i,
{
    if i < 0 || i >= anns.len() {
        anns.len() as int
    } else if after_query(anns[i], path, line) {
        i
    } else {
        first_after(anns, path, line, i + 1)
    }
}

/// Last index at or before `i` strictly before the position, or `-1`.
pub open spec fn last_before(anns: Seq<Annotation>, path: Seq<char>, line: u32, i: int) -> int
    decreases i + 1,
{
    if i < 0 || i >= anns.len() {
        -1
    } else if before_query(anns[i], path, line) {
        i
    } else {
        last_before(anns, path, line, i - 1)
    }
}

proof fn lemma_first_after_at(anns: Seq<Annotation>, path: Seq<char>, line: u32, i: int)
    requires
        0 <= i < anns.len(),
        forall|q: int| 0 <= q < i ==> !after_query(#[trigger] anns[q], path, line),
        after_query(anns[i], path, line),
    ensures
        first_after(anns, path, line, 0) == i,
{
    lemma_first_after_step(anns, path, line, 0, i);
}

proof fn lemma_first_after_from(anns: Seq<Annotation>, path: Seq<char>, line: u32, i: int)
    requires
        0 <= i <= anns.len(),
        forall|q: int| 0 <= q < i ==> !after_query(#[trigger] anns[q], path, line),
    ensures
        first_after(anns, path, line, 0) >= i,
{
    lemma_first_after_step(anns, path, line, 0, i);
}

proof fn lemma_first_after_bounds(anns: Seq<Annotation>, path: Seq<char>, line: u32, i: int)
    requires
        0 <= i <= anns.len(),
    ensures
        i <= first_after(anns, path, line, i) <= anns.len(),
    decreases anns.len() - i,
{
    if i < anns.len() && !after_query(anns[i], path, line) {
        lemma_first_after_bounds(anns, path, line, i + 1);
    }
}

proof fn lemma_first_after_step(anns: Seq<Annotation>, path: Seq<char>, line: u32, j: int, i: int)
    requires
        0 <= j <= i <= anns.len(),
        forall|q: int| j <= q < i ==> !after_query(#[trigger] anns[q], path, line),
    ensures
        first_after(anns, path, line, j) >= i,
        (i < anns.len() && after_query(anns[i], path, line)) ==> first_after(anns, path, line, j)
            == i,
    decreases i - j,
{
    if j < i {
        lemma_first_after_step(anns, path, line, j + 1, i);
    } else {
        lemma_first_after_bounds(anns, path, line, j);
    }
}

proof fn lemma_last_before_bounds(anns: Seq<Annotation>, path: Seq<char>, line: u32, j: int)
    requires
        -1 <= j < anns.len(),
    ensures
        -1 <= last_before(anns, path, line, j) <= j,
    decreases j + 1,
{
    if 0 <= j && !before_query(anns[j], path, line) {
        lemma_last_before_bounds(anns, path, line, j - 1);
    }
}

proof fn lemma_last_before_at(anns: Seq<Annotation>, path: Seq<char>, line: u32, i: int)
    requires
        0 <= i < anns.len(),
        forall|q: int| i < q < anns.len() ==> !before_query(#[trigger] anns[q], path, line),
        before_query(anns[i], path, line),
    ensures
        last_before(anns, path, line, anns.len() - 1) == i,
{
    lemma_last_before_step(anns, path, line, anns.len() - 1, i);
}

proof fn lemma_last_before_from(anns: Seq<Annotation>, path: Seq<char>, line: u32, i: int)
    requires
        0 <= i <= anns.len(),
        forall|q: int| i <= q < anns.len() ==> !before_query(#[trigger] anns[q], path, line),
    ensures
        last_before(anns, path, line, anns.len() - 1) < i,
{
    if anns.len() > 0 {
        lemma_last_before_step(anns, path, line, anns.len() - 1, i - 1);
    }
}

proof fn lemma_last_before_step(anns: Seq<Annotation>, path: Seq<char>, line: u32, j: int, i: int)
    requires
        -1 <= i <= j,
        j < anns.len(),
        forall|q: int| i < q <= j ==> !before_query(#[trigger] anns[q], path, line),
    ensures
        last_before(anns, path, line, j) <= i,
        (0 <= i && before_query(anns[i], path, line)) ==> last_before(anns, path, line, j) == i,
    decreases j - i,
{
    if j > i {
        lemma_last_before_step(anns, path, line, j - 1, i);
    } else if j >= 0 && !before_query(anns[j], path, line) {
        lemma_last_before_bounds(anns, path, line, j - 1);
    }
}

/// Merge two optional inclusive ranges into their joint min/max span.
pub open spec fn merge_range(
    a: Option<(u32, u32)>,
    b: Option<(u32, u32)>,
) -> Option<(u32, u32)> {
    match (a, b) {
        (Some(x), Some(y)) => Some(
            (
                if x.0 <= y.0 {
                    x.0
                } else {
                    y.0
                },
                if x.1 >= y.1 {
                    x.1
                } else {
                    y.1
                },
            ),
        ),
        (Some(x), None) => Some(x),
        (None, Some(y)) => Some(y),
        (None, None) => None,
    }
}

/// The single-line range of an optional line number.
pub open spec fn point_range(n: Option<u32>) -> Option<(u32, u32)> {
    match n {
        Some(v) => Some((v, v)),
        None => None,
    }
}

/// The min/max span of the old-side line numbers of rows `[i, end]`.
pub open spec fn rows_old_range(
    rows: Seq<crate::display_map::DisplayRowInfo>,
    i: int,
    end: int,
) -> Option<(u32, u32)>
    decreases end + 1 - i,
{
    if i < 0 || i > end || i >= rows.len() {
        None
    } else {
        merge_range(point_range(rows[i].old_lineno), rows_old_range(rows, i + 1, end))
    }
}

/// The min/max span of the new-side line numbers of rows `[i, end]`.
pub open spec fn rows_new_range(
    rows: Seq<crate::display_map::DisplayRowInfo>,
    i: int,
    end: int,
) -> Option<(u32, u32)>
    decreases end + 1 - i,
{
    if i < 0 || i > end || i >= rows.len() {
        None
    } else {
        merge_range(point_range(rows[i].new_lineno), rows_new_range(rows, i + 1, end))
    }
}

/// Convert a visual selection of display rows into a line anchor: each
/// side's range spans the least to the greatest line number the selected
/// rows carry on that side. Rows past the end of the map are ignored;
/// with no line number anywhere in the selection there is no anchor.
pub fn selection_to_anchor(
    path: &str,
    rows: &Vec<crate::display_map::DisplayRowInfo>,
    start: usize,
    end: usize,
) -> (r: Option<LineAnchor>)
    requires
        start <= end,
    ensures
        ({
            let o = rows_old_range(rows@, start as int, end as int);
            let n = rows_new_range(rows@, start as int, end as int);
            if o is None && n is None {
                r is None
            } else {
                r matches Some(a) && a.file_path@ == path@ && a.old_range == o && a.new_range == n
            }
        }),
{
    let ghost rs = rows@;
    let mut old_acc: Option<(u32, u32)> = None;
    let mut new_acc: Option<(u32, u32)> = None;
    let mut i = start;
    let mut stop = end;
    if stop >= rows.len() {
        if rows.len() == 0 {
            proof {
                assert(rows_old_range(rs, start as int, end as int) is None);
                assert(rows_new_range(rs, start as int, end as int) is None);
            }
            return None;
        }
        stop = rows.len() - 1;
    }
    if i > stop {
        proof {
            assert(rows_old_range(rs, start as int, end as int) is None);
            assert(rows_new_range(rs, start as int, end as int) is None);
        }
        return None;
    }
    proof {
        if end as int >= rs.len() {
            lemma_rows_range_clip(rs, start as int, end as int, stop as int);
        }
    }
    let rows_len = rows.len();
    proof {
        assert(stop < rows_len);
    }
    while i <= stop
        invariant
            start <= i <= stop + 1,
            stop < rs.len(),
            stop < rows_len,
            rows_len == rs.len(),
            rs == rows@,
            merge_range(old_acc, rows_old_range(rs, i as int, stop as int)) == rows_old_range(
                rs,
                start as int,
                stop as int,
            ),
            merge_range(new_acc, rows_new_range(rs, i as int, stop as int)) == rows_new_range(
                rs,
                start as int,
                stop as int,
            ),
        decreases stop + 1 - i,
    {
        let ghost acc0_old = old_acc;
        let ghost acc0_new = new_acc;
        let row = &rows[i];
        old_acc = merge_exec(old_acc, point_exec(row.old_lineno));
        new_acc = merge_exec(new_acc, point_exec(row.new_lineno));
        proof {
            lemma_merge_assoc(rs, i as int, stop as int, true);
            lemma_merge_assoc(rs, i as int, stop as int, false);
        }
        i = i + 1;
    }
    proof {
        assert(rows_old_range(rs, i as int, stop as int) is None);
        assert(rows_new_range(rs, i as int, stop as int) is None);
    }
    match (old_acc, new_acc) {
        (None, None) => None,
        (o, n) => Some(LineAnchor { file_path: path.to_owned(), old_range: o, new_range: n }),
    }
}

/// Convert the cursor row into a line anchor: a single-line range on
/// each side the row carries a number for; none when it carries neither.
pub fn cursor_to_anchor(
    path: &str,
    rows: &Vec<crate::display_map::DisplayRowInfo>,
    cursor_row: usize,
) -> (r: Option<LineAnchor>)
    ensures
        cursor_row >= rows@.len() ==> r is None,
        cursor_row < rows@.len() ==> {
            let o = point_range(rows@[cursor_row as int].old_lineno);
            let n = point_range(rows@[cursor_row as int].new_lineno);
            if o is None && n is None {
                r is None
            } else {
                r matches Some(a) && a.file_path@ == path@ && a.old_range == o && a.new_range == n
            }
        },
{
    if cursor_row >= rows.len() {
        return None;
    }
    let row = &rows[cursor_row];
    let o = point_exec(row.old_lineno);
    let n = point_exec(row.new_lineno);
    match (o, n) {
        (None, None) => None,
        (o, n) => Some(LineAnchor { file_path: path.to_owned(), old_range: o, new_range: n }),
    }
}

fn point_exec(n: Option<u32>) -> (r: Option<(u32, u32)>)
    ensures
        r == point_range(n),
{
    match n {
        Some(v) => Some((v, v)),
        None => None,
    }
}

fn merge_exec(a: Option<(u32, u32)>, b: Option<(u32, u32)>) -> (r: Option<(u32, u32)>)
    ensures
        r == merge_range(a, b),
{
    match (a, b) {
        (Some(x), Some(y)) => {
            let lo = if x.0 <= y.0 {
                x.0
            } else {
                y.0
            };
            let hi = if x.1 >= y.1 {
                x.1
            } else {
                y.1
            };
            Some((lo, hi))
        },
        (Some(x), None) => Some(x),
        (None, Some(y)) => Some(y),
        (None, None) => None,
    }
}

/// Rows past the end of the map contribute nothing to a selection span.
proof fn lemma_rows_range_clip(
    rows: Seq<crate::display_map::DisplayRowInfo>,
    start: int,
    end: int,
    stop: int,
)
    requires
        0 <= start,
        stop == rows.len() - 1,
        stop <= end,
    ensures
        rows_old_range(rows, start, end) == rows_old_range(rows, start, stop),
        rows_new_range(rows, start, end) == rows_new_range(rows, start, stop),
    decreases rows.len() - start,
{
    if start < rows.len() {
        lemma_rows_range_clip(rows, start + 1, end, stop);
    }
}

/// One merge step of the selection fold.
proof fn lemma_merge_assoc(
    rows: Seq<crate::display_map::DisplayRowInfo>,
    i: int,
    stop: int,
    old_side: bool,
)
    requires
        0 <= i <= stop,
        stop < rows.len(),
    ensures
        old_side ==> forall|acc: Option<(u32, u32)>|
            #[trigger] merge_range(acc, rows_old_range(rows, i, stop)) == merge_range(
                merge_range(acc, point_range(rows[i].old_lineno)),
                rows_old_range(rows, i + 1, stop),
            ),
        !old_side ==> forall|acc: Option<(u32, u32)>|
            #[trigger] merge_range(acc, rows_new_range(rows, i, stop)) == merge_range(
                merge_range(acc, point_range(rows[i].new_lineno)),
                rows_new_range(rows, i + 1, stop),
            ),
{
    if old_side {
        assert forall|acc: Option<(u32, u32)>|
            #[trigger] merge_range(acc, rows_old_range(rows, i, stop)) == merge_range(
                merge_range(acc, point_range(rows[i].old_lineno)),
                rows_old_range(rows, i + 1, stop),
            ) by {
            lemma_merge_range_assoc(acc, point_range(rows[i].old_lineno), rows_old_range(rows, i + 1, stop));
        }
    } else {
        assert forall|acc: Option<(u32, u32)>|
            #[trigger] merge_range(acc, rows_new_range(rows, i, stop)) == merge_range(
                merge_range(acc, point_range(rows[i].new_lineno)),
                rows_new_range(rows, i + 1, stop),
            ) by {
            lemma_merge_range_assoc(acc, point_range(rows[i].new_lineno), rows_new_range(rows, i + 1, stop));
        }
    }
}

/// Merging ranges is associative.
pub proof fn lemma_merge_range_assoc(
    a: Option<(u32, u32)>,
    b: Option<(u32, u32)>,
    c: Option<(u32, u32)>,
)
    ensures
        merge_range(a, merge_range(b, c)) == merge_range(merge_range(a, b), c),
{
}

/// Navigation wraps around: standing on the last annotation in file/line
/// order, `next_after` comes back with the first annotation of the whole
/// ordering rather than nothing.
pub proof fn lemma_next_after_wraps(anns: Seq<Annotation>, path: Seq<char>, line: u32)
    requires
        anns.len() > 0,
        anns_sorted(anns),
        path == anns[anns.len() - 1].anchor.file_path@,
        line == sort_line_of(anns[anns.len() - 1].anchor),
    ensures
        first_after(anns, path, line, 0) == anns.len(),
{
    let last = anns[anns.len() - 1];
    assert forall|q: int| 0 <= q < anns.len() implies !after_query(#[trigger] anns[q], path, line) by {
        if q < anns.len() - 1 {
            assert(ann_le(anns[q], last));
        }
        lemma_seq_lt_asym(anns[q].anchor.file_path@, path);
    }
    lemma_first_after_bounds(anns, path, line, 0);
    lemma_first_after_step(anns, path, line, 0, anns.len() as int);
}


pub proof fn lemma_insert_pos_prefix(anns: Seq<Annotation>, a: Annotation, i: int)
    requires
        0 <= i <= anns.len(),
        forall|q: int| 0 <= q < i ==> ann_le(#[trigger] anns[q], a),
    ensures
        insert_pos(anns, a, 0) >= i,
        (i == anns.len() || !ann_le(anns[i], a)) ==> insert_pos(anns, a, 0) == i,
{
    lemma_insert_pos_from(anns, a, 0, i);
}

proof fn lemma_insert_pos_from(anns: Seq<Annotation>, a: Annotation, j: int, i: int)
    requires
        0 <= j <= i <= anns.len(),
        forall|q: int| j <= q < i ==> ann_le(#[trigger] anns[q], a),
    ensures
        insert_pos(anns, a, j) >= i,
        (i == anns.len() || !ann_le(anns[i], a)) ==> insert_pos(anns, a, j) == i,
    decreases i - j,
{
    if j < i {
        lemma_insert_pos_from(anns, a, j + 1, i);
    } else {
        lemma_insert_pos_bounds(anns, a, j);
    }
}

/// Navigation order is transitive.
pub proof fn lemma_ann_le_trans(a: Annotation, b: Annotation, c: Annotation)
    requires
        ann_le(a, b),
        ann_le(b, c),
    ensures
        ann_le(a, c),
{
    let pa = a.anchor.file_path@;
    let pb = b.anchor.file_path@;
    let pc = c.anchor.file_path@;
    if seq_lt(pa, pb) && seq_lt(pb, pc) {
        lemma_seq_lt_trans(pa, pb, pc);
    }
}

} // verus!
