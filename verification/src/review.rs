//! Per-file review tracking. Each file's diff content is fingerprinted;
//! on a refresh the stored fingerprints tell reviewed-and-unchanged files
//! apart from files that changed since they were reviewed and files that
//! are new altogether.

use vstd::prelude::*;

use crate::diff::DiffLine;
use crate::diff::DiffLineOrigin;
use crate::diff::FileDelta;
use crate::diff::Hunk;
use crate::strutil::str_eq;

verus! {

/// Review status of one file.
#[derive(Clone, Copy, Debug, PartialEq, Eq, Structural)]
pub enum FileReviewStatus {
    /// Never viewed.
    Unreviewed,
    /// Viewed, and the diff content is unchanged since.
    Reviewed,
    /// Viewed, but the diff content changed on a later refresh.
    ChangedSinceReview,
    /// Appeared after a refresh, not present before.
    New,
}

pub const FNV_OFFSET: u64 = 0xcbf29ce484222325;

pub const FNV_PRIME: u64 = 0x100000001b3;

/// One mixing step of the fingerprint.
pub open spec fn mix(h: u64, v: u64) -> u64 {
    ((((h ^ v) as nat) * (FNV_PRIME as nat)) % 0x10000000000000000) as u64
}

/// One mixing step, executable.
pub fn mix_step(h: u64, v: u64) -> (r: u64)
    ensures
        r == mix(h, v),
{
    (h ^ v).wrapping_mul(FNV_PRIME)
}

/// Fold the characters of `s` from index `i` into the fingerprint.
pub open spec fn hash_chars_from(h: u64, s: Seq<char>, i: int) -> u64
    decreases s.len() - i,
{
    if i < 0 || i >= s.len() {
        h
    } else {
        hash_chars_from(mix(h, s[i] as u64), s, i + 1)
    }
}

/// Fold a string into the fingerprint.
fn hash_str(h0: u64, s: &str) -> (r: u64)
    ensures
        r == hash_chars_from(h0, s@, 0),
{
    let n = s.unicode_len();
    let mut h = h0;
    let mut i: usize = 0;
    while i < n
        invariant
            n == s@.len(),
            i <= n,
            hash_chars_from(h0, s@, 0) == hash_chars_from(h, s@, i as int),
        decreases n - i,
    {
        let c = s.get_char(i);
        h = mix_step(h, c as u64);
        i = i + 1;
    }
    h
}

/// The tag a line's origin contributes to the fingerprint.
pub open spec fn origin_tag(o: DiffLineOrigin) -> u64 {
    match o {
        DiffLineOrigin::Context => 0,
        DiffLineOrigin::Addition => 1,
        DiffLineOrigin::Deletion => 2,
    }
}

/// Fold one diff line into the fingerprint: its content, then its origin.
pub open spec fn hash_line(h: u64, l: DiffLine) -> u64 {
    mix(hash_chars_from(h, l.content@, 0), origin_tag(l.origin))
}

pub open spec fn hash_lines_from(h: u64, lines: Seq<DiffLine>, i: int) -> u64
    decreases lines.len() - i,
{
    if i < 0 || i >= lines.len() {
        h
    } else {
        hash_lines_from(hash_line(h, lines[i]), lines, i + 1)
    }
}

/// Fold one hunk into the fingerprint: its header, then its lines.
pub open spec fn hash_hunks_from(h: u64, hunks: Seq<Hunk>, i: int) -> u64
    decreases hunks.len() - i,
{
    if i < 0 || i >= hunks.len() {
        h
    } else {
        hash_hunks_from(
            hash_lines_from(hash_chars_from(h, hunks[i].header@, 0), hunks[i].lines@, 0),
            hunks,
            i + 1,
        )
    }
}

/// The fingerprint of a whole file delta.
pub open spec fn delta_fingerprint(d: FileDelta) -> u64 {
    hash_hunks_from(FNV_OFFSET, d.hunks@, 0)
}

/// Compute a fingerprint of a delta's diff content: every hunk header,
/// line content and line origin contributes, in order.
pub fn hash_file_diff(delta: &FileDelta) -> (r: u64)
    ensures
        r == delta_fingerprint(*delta),
{
    let mut h = FNV_OFFSET;
    let mut hi: usize = 0;
    while hi < delta.hunks.len()
        invariant
            hi <= delta.hunks@.len(),
            delta_fingerprint(*delta) == hash_hunks_from(h, delta.hunks@, hi as int),
        decreases delta.hunks@.len() - hi,
    {
        let hunk = &delta.hunks[hi];
        h = hash_str(h, hunk.header.as_str());
        let mut li: usize = 0;
        while li < hunk.lines.len()
            invariant
                li <= hunk.lines@.len(),
                hi < delta.hunks@.len(),
                hunk == delta.hunks@[hi as int],
                delta_fingerprint(*delta) == hash_hunks_from(
                    hash_lines_from(h, hunk.lines@, li as int),
                    delta.hunks@,
                    hi + 1,
                ),
            decreases hunk.lines@.len() - li,
        {
            let l = &hunk.lines[li];
            h = hash_str(h, l.content.as_str());
            let tag: u64 = match l.origin {
                DiffLineOrigin::Context => 0,
                DiffLineOrigin::Addition => 1,
                DiffLineOrigin::Deletion => 2,
            };
            h = mix_step(h, tag);
            li = li + 1;
        }
        hi = hi + 1;
    }
    h
}

/// Fingerprints for all deltas, keyed by file path: one entry per delta,
/// in delta order. A diff computation produces one delta per file; should
/// a list carry the same path twice, lookups through `assoc_hash` read
/// the first entry.
pub fn compute_diff_hashes(deltas: &Vec<FileDelta>) -> (r: Vec<(String, u64)>)
    ensures
        r@.len() == deltas@.len(),
        forall|i: int|
            0 <= i < deltas@.len() ==> {
                &&& (#[trigger] r@[i]).0@ == deltas@[i].path@
                &&& r@[i].1 == delta_fingerprint(deltas@[i])
            },
{
    let mut r: Vec<(String, u64)> = Vec::new();
    let mut i: usize = 0;
    while i < deltas.len()
        invariant
            i <= deltas@.len(),
            r@.len() == i,
            forall|q: int|
                0 <= q < i ==> {
                    &&& (#[trigger] r@[q]).0@ == deltas@[q].path@
                    &&& r@[q].1 == delta_fingerprint(deltas@[q])
                },
        decreases deltas@.len() - i,
    {
        let d = &deltas[i];
        let hash = hash_file_diff(d);
        r.push((d.path.clone(), hash));
        i = i + 1;
    }
    r
}

/// First value stored under `path`, searching from index `i`: when a key
/// occurs more than once, the first entry wins.
pub open spec fn assoc_hash(hashes: Seq<(String, u64)>, path: Seq<char>, i: int) -> Option<u64>
    decreases hashes.len() - i,
{
    if i < 0 || i >= hashes.len() {
        None
    } else if hashes[i].0@ == path {
        Some(hashes[i].1)
    } else {
        assoc_hash(hashes, path, i + 1)
    }
}

/// First review entry stored under `path`, searching from index `i`:
/// when a key occurs more than once, the first entry wins.
pub open spec fn assoc_file(
    files: Seq<(String, FileReviewStatus, Option<u64>)>,
    path: Seq<char>,
    i: int,
) -> Option<(FileReviewStatus, Option<u64>)>
    decreases files.len() - i,
{
    if i < 0 || i >= files.len() {
        None
    } else if files[i].0@ == path {
        Some((files[i].1, files[i].2))
    } else {
        assoc_file(files, path, i + 1)
    }
}

/// The entry one file keeps across a refresh: files that were not seen
/// before become `New`; reviewed files keep or lose their `Reviewed`
/// standing depending on whether their fingerprint still matches the one
/// stored when they were reviewed; files never reviewed keep their entry;
/// files without an entry get none.
pub open spec fn refreshed_entry(
    old_entry: Option<(FileReviewStatus, Option<u64>)>,
    was_present: bool,
    new_hash: u64,
) -> Option<(FileReviewStatus, Option<u64>)> {
    if !was_present {
        Some((FileReviewStatus::New, None))
    } else {
        match old_entry {
            Some((st, rh)) => if st == FileReviewStatus::Reviewed || st
                == FileReviewStatus::ChangedSinceReview {
                if rh != Some(new_hash) {
                    Some((FileReviewStatus::ChangedSinceReview, rh))
                } else {
                    Some((FileReviewStatus::Reviewed, rh))
                }
            } else {
                Some((st, rh))
            },
            None => None,
        }
    }
}

/// Tracks per-file review progress. In memory only.
#[derive(Debug)]
pub struct ReviewState {
    /// Status and the fingerprint at time of review, per file path.
    pub files: Vec<(String, FileReviewStatus, Option<u64>)>,
    /// Fingerprints from the most recent diff load.
    pub current_hashes: Vec<(String, u64)>,
}

impl ReviewState {
    pub fn new() -> (r: ReviewState)
        ensures
            r.files@.len() == 0,
            r.current_hashes@.len() == 0,
    {
        ReviewState { files: Vec::new(), current_hashes: Vec::new() }
    }

    /// The review status stored for `path`, `Unreviewed` when none is.
    pub fn status(&self, path: &str) -> (r: FileReviewStatus)
        ensures
            r == match assoc_file(self.files@, path@, 0) {
                Some(e) => e.0,
                None => FileReviewStatus::Unreviewed,
            },
    {
        let mut i: usize = 0;
        while i < self.files.len()
            invariant
                i <= self.files@.len(),
                assoc_file(self.files@, path@, 0) == assoc_file(self.files@, path@, i as int),
            decreases self.files@.len() - i,
        {
            if str_eq(self.files[i].0.as_str(), path) {
                return self.files[i].1;
            }
            i = i + 1;
        }
        FileReviewStatus::Unreviewed
    }

    /// The fingerprint of the most recent load of `path`, if any.
    fn current_hash(&self, path: &str) -> (r: Option<u64>)
        ensures
            r == assoc_hash(self.current_hashes@, path@, 0),
    {
        let mut i: usize = 0;
        while i < self.current_hashes.len()
            invariant
                i <= self.current_hashes@.len(),
                assoc_hash(self.current_hashes@, path@, 0) == assoc_hash(
                    self.current_hashes@,
                    path@,
                    i as int,
                ),
            decreases self.current_hashes@.len() - i,
        {
            if str_eq(self.current_hashes[i].0.as_str(), path) {
                return Some(self.current_hashes[i].1);
            }
            i = i + 1;
        }
        None
    }

    /// Store an entry for `path`, replacing the first entry with that key
    /// or appending one.
    fn upsert(&mut self, path: &str, status: FileReviewStatus, hash: Option<u64>)
        ensures
            final(self).current_hashes@ == old(self).current_hashes@,
            assoc_file(final(self).files@, path@, 0) == Some((status, hash)),
            forall|p: Seq<char>|
                p != path@ ==> #[trigger] assoc_file(final(self).files@, p, 0) == assoc_file(
                    old(self).files@,
                    p,
                    0,
                ),
    {
        let ghost files0 = self.files@;
        let mut i: usize = 0;
        while i < self.files.len()
            invariant
                i <= files0.len(),
                files0 == self.files@,
                files0 == old(self).files@,
                self.current_hashes@ == old(self).current_hashes@,
                forall|q: int| 0 <= q < i ==> (#[trigger] files0[q]).0@ != path@,
            decreases files0.len() - i,
        {
            if str_eq(self.files[i].0.as_str(), path) {
                let ghost hit = i as int;
                let entry = (self.files[i].0.clone(), status, hash);
                self.files.remove(i);
                self.files.insert(i, entry);
                proof {
                    let files1 = self.files@;
                    assert(files1 =~= files0.update(hit, (files0[hit].0, status, hash)));
                    lemma_assoc_file_update(files0, files1, hit, path@);
                }
                return ;
            }
            i = i + 1;
        }
        let entry = (path.to_owned(), status, hash);
        self.files.push(entry);
        proof {
            let files1 = self.files@;
            assert(files1.take(files0.len() as int) =~= files0);
            lemma_assoc_file_append(files0, files1, path@, status, hash);
        }
    }

    /// Mark `path` reviewed, remembering its current fingerprint.
    pub fn mark_reviewed(&mut self, path: &str)
        ensures
            final(self).current_hashes@ == old(self).current_hashes@,
            assoc_file(final(self).files@, path@, 0) == Some(
                (FileReviewStatus::Reviewed, assoc_hash(old(self).current_hashes@, path@, 0)),
            ),
            forall|p: Seq<char>|
                p != path@ ==> #[trigger] assoc_file(final(self).files@, p, 0) == assoc_file(
                    old(self).files@,
                    p,
                    0,
                ),
    {
        let hash = self.current_hash(path);
        self.upsert(path, FileReviewStatus::Reviewed, hash);
    }

    /// Toggle `path` between `Reviewed` and `Unreviewed`.
    pub fn toggle_reviewed(&mut self, path: &str)
        ensures
            final(self).current_hashes@ == old(self).current_hashes@,
            ({
                let was = match assoc_file(old(self).files@, path@, 0) {
                    Some(e) => e.0,
                    None => FileReviewStatus::Unreviewed,
                };
                if was == FileReviewStatus::Reviewed {
                    assoc_file(final(self).files@, path@, 0) == Some(
                        (FileReviewStatus::Unreviewed, None::<u64>),
                    )
                } else {
                    assoc_file(final(self).files@, path@, 0) == Some(
                        (
                            FileReviewStatus::Reviewed,
                            assoc_hash(old(self).current_hashes@, path@, 0),
                        ),
                    )
                }
            }),
            forall|p: Seq<char>|
                p != path@ ==> #[trigger] assoc_file(final(self).files@, p, 0) == assoc_file(
                    old(self).files@,
                    p,
                    0,
                ),
    {
        let st = self.status(path);
        if st == FileReviewStatus::Reviewed {
            self.upsert(path, FileReviewStatus::Unreviewed, None);
        } else {
            self.mark_reviewed(path);
        }
    }

    /// Forget everything, as on a target or worktree change.
    pub fn reset(&mut self)
        ensures
            final(self).files@.len() == 0,
            final(self).current_hashes@.len() == 0,
    {
        self.files.clear();
        self.current_hashes.clear();
    }

    /// Take in the fingerprints of a fresh diff load. On the first load
    /// every file gets an `Unreviewed` entry unless it already has one.
    /// On later loads each file's entry follows `refreshed_entry`, and
    /// entries of files no longer present are dropped.
    pub fn on_diff_refresh(&mut self, new_hashes: Vec<(String, u64)>)
        ensures
            final(self).current_hashes@ == new_hashes@,
            old(self).current_hashes@.len() == 0 ==> final(self).files@ == old(self).files@
                + first_load_additions(old(self).files@, new_hashes@, 0),
            old(self).current_hashes@.len() > 0 ==> final(self).files@ == refreshed_files(
                old(self).files@,
                old(self).current_hashes@,
                new_hashes@,
                0,
            ),
    {
        let ghost files0 = self.files@;
        let ghost hashes0 = self.current_hashes@;
        let first_load = self.current_hashes.len() == 0;
        if first_load {
            let mut i: usize = 0;
            while i < new_hashes.len()
                invariant
                    i <= new_hashes@.len(),
                    self.current_hashes@ == hashes0,
                    self.files@ + first_load_additions(self.files@, new_hashes@, i as int)
                        == files0 + first_load_additions(files0, new_hashes@, 0),
                decreases new_hashes@.len() - i,
            {
                let already = self.has_file(new_hashes[i].0.as_str());
                if !already {
                    let ghost pre = self.files@;
                    let entry = (new_hashes[i].0.clone(), FileReviewStatus::Unreviewed, None::<
                        u64,
                    >);
                    self.files.push(entry);
                    proof {
                        let e = (new_hashes@[i as int].0, FileReviewStatus::Unreviewed, None::<
                            u64,
                        >);
                        assert(self.files@ =~= pre.push(e));
                        assert(first_load_additions(pre, new_hashes@, i as int) =~= seq![e]
                            + first_load_additions(pre.push(e), new_hashes@, i + 1));
                        assert(self.files@ + first_load_additions(self.files@, new_hashes@, i + 1)
                            =~= pre + first_load_additions(pre, new_hashes@, i as int));
                    }
                } else {
                    proof {
                        assert(self.files@ + first_load_additions(self.files@, new_hashes@, i + 1)
                            =~= self.files@ + first_load_additions(
                            self.files@,
                            new_hashes@,
                            i as int,
                        ));
                    }
                }
                i = i + 1;
            }
            proof {
                assert(first_load_additions(self.files@, new_hashes@, i as int) =~= Seq::<
                    (String, FileReviewStatus, Option<u64>),
                >::empty());
                assert(self.files@ =~= self.files@ + first_load_additions(
                    self.files@,
                    new_hashes@,
                    i as int,
                ));
            }
        } else {
            let mut rebuilt: Vec<(String, FileReviewStatus, Option<u64>)> = Vec::new();
            let mut i: usize = 0;
            while i < new_hashes.len()
                invariant
                    i <= new_hashes@.len(),
                    files0 == self.files@,
                    hashes0 == self.current_hashes@,
                    rebuilt@ + refreshed_files(files0, hashes0, new_hashes@, i as int)
                        == refreshed_files(files0, hashes0, new_hashes@, 0),
                decreases new_hashes@.len() - i,
            {
                let path = &new_hashes[i].0;
                let new_hash = new_hashes[i].1;
                let was_present = match self.current_hash(path.as_str()) {
                    Some(_) => true,
                    None => false,
                };
                let old_entry = self.file_entry(path.as_str());
                match refreshed_entry_exec(old_entry, was_present, new_hash) {
                    Some((st, rh)) => {
                        rebuilt.push((path.clone(), st, rh));
                    },
                    None => {},
                }
                i = i + 1;
                proof {
                    assert(rebuilt@ + refreshed_files(files0, hashes0, new_hashes@, i as int)
                        =~= refreshed_files(files0, hashes0, new_hashes@, 0));
                }
            }
            proof {
                assert(rebuilt@ =~= refreshed_files(files0, hashes0, new_hashes@, 0));
            }
            self.files = rebuilt;
        }
        self.current_hashes = new_hashes;
    }

    /// Whether any entry is stored under `path`.
    fn has_file(&self, path: &str) -> (r: bool)
        ensures
            r == (assoc_file(self.files@, path@, 0) is Some),
    {
        let mut i: usize = 0;
        while i < self.files.len()
            invariant
                i <= self.files@.len(),
                assoc_file(self.files@, path@, 0) == assoc_file(self.files@, path@, i as int),
            decreases self.files@.len() - i,
        {
            if str_eq(self.files[i].0.as_str(), path) {
                return true;
            }
            i = i + 1;
        }
        false
    }

    /// The entry stored under `path`, if any.
    fn file_entry(&self, path: &str) -> (r: Option<(FileReviewStatus, Option<u64>)>)
        ensures
            r == assoc_file(self.files@, path@, 0),
    {
        let mut i: usize = 0;
        while i < self.files.len()
            invariant
                i <= self.files@.len(),
                assoc_file(self.files@, path@, 0) == assoc_file(self.files@, path@, i as int),
            decreases self.files@.len() - i,
        {
            if str_eq(self.files[i].0.as_str(), path) {
                return Some((self.files[i].1, self.files[i].2));
            }
            i = i + 1;
        }
        None
    }
}

/// `refreshed_entry`, executable.
fn refreshed_entry_exec(
    old_entry: Option<(FileReviewStatus, Option<u64>)>,
    was_present: bool,
    new_hash: u64,
) -> (r: Option<(FileReviewStatus, Option<u64>)>)
    ensures
        r == refreshed_entry(old_entry, was_present, new_hash),
{
    if !was_present {
        Some((FileReviewStatus::New, None))
    } else {
        match old_entry {
            Some((st, rh)) => {
                if st == FileReviewStatus::Reviewed || st == FileReviewStatus::ChangedSinceReview {
                    let same = match rh {
                        Some(h) => h == new_hash,
                        None => false,
                    };
                    if !same {
                        Some((FileReviewStatus::ChangedSinceReview, rh))
                    } else {
                        Some((FileReviewStatus::Reviewed, rh))
                    }
                } else {
                    Some((st, rh))
                }
            },
            None => None,
        }
    }
}

/// Entries appended on the first load: one `Unreviewed` entry per new
/// file that has none yet.
pub open spec fn first_load_additions(
    files: Seq<(String, FileReviewStatus, Option<u64>)>,
    new_hashes: Seq<(String, u64)>,
    i: int,
) -> Seq<(String, FileReviewStatus, Option<u64>)>
    decreases new_hashes.len() - i,
{
    if i < 0 || i >= new_hashes.len() {
        Seq::empty()
    } else if assoc_file(files, new_hashes[i].0@, 0) is Some {
        first_load_additions(files, new_hashes, i + 1)
    } else {
        let e = (new_hashes[i].0, FileReviewStatus::Unreviewed, None::<u64>);
        seq![e] + first_load_additions(files.push(e), new_hashes, i + 1)
    }
}

/// The rebuilt entry list after a refresh, in the order of the new
/// fingerprint list.
pub open spec fn refreshed_files(
    files: Seq<(String, FileReviewStatus, Option<u64>)>,
    old_hashes: Seq<(String, u64)>,
    new_hashes: Seq<(String, u64)>,
    i: int,
) -> Seq<(String, FileReviewStatus, Option<u64>)>
    decreases new_hashes.len() - i,
{
    if i < 0 || i >= new_hashes.len() {
        Seq::empty()
    } else {
        let p = new_hashes[i].0;
        let entry = refreshed_entry(
            assoc_file(files, p@, 0),
            assoc_hash(old_hashes, p@, 0) is Some,
            new_hashes[i].1,
        );
        match entry {
            Some(e) => seq![(p, e.0, e.1)] + refreshed_files(files, old_hashes, new_hashes, i + 1),
            None => refreshed_files(files, old_hashes, new_hashes, i + 1),
        }
    }
}

proof fn lemma_assoc_file_update(
    files0: Seq<(String, FileReviewStatus, Option<u64>)>,
    files1: Seq<(String, FileReviewStatus, Option<u64>)>,
    hit: int,
    path: Seq<char>,
)
    requires
        0 <= hit < files0.len(),
        files0[hit].0@ == path,
        forall|q: int| 0 <= q < hit ==> (#[trigger] files0[q]).0@ != path,
        files1 == files0.update(hit, (files0[hit].0, files1[hit].1, files1[hit].2)),
        files1.len() == files0.len(),
    ensures
        assoc_file(files1, path, 0) == Some((files1[hit].1, files1[hit].2)),
        forall|p: Seq<char>|
            p != path ==> #[trigger] assoc_file(files1, p, 0) == assoc_file(files0, p, 0),
{
    lemma_assoc_file_update_from(files0, files1, hit, path, 0);
    assert forall|p: Seq<char>| p != path implies #[trigger] assoc_file(files1, p, 0)
        == assoc_file(files0, p, 0) by {
        lemma_assoc_file_other_from(files0, files1, hit, p, 0);
    }
}

proof fn lemma_assoc_file_update_from(
    files0: Seq<(String, FileReviewStatus, Option<u64>)>,
    files1: Seq<(String, FileReviewStatus, Option<u64>)>,
    hit: int,
    path: Seq<char>,
    j: int,
)
    requires
        0 <= j <= hit < files0.len(),
        files0[hit].0@ == path,
        forall|q: int| 0 <= q < hit ==> (#[trigger] files0[q]).0@ != path,
        files1 == files0.update(hit, (files0[hit].0, files1[hit].1, files1[hit].2)),
        files1.len() == files0.len(),
    ensures
        assoc_file(files1, path, j) == Some((files1[hit].1, files1[hit].2)),
    decreases hit - j,
{
    if j < hit {
        assert(files1[j] == files0[j]);
        lemma_assoc_file_update_from(files0, files1, hit, path, j + 1);
    } else {
        assert(files1[hit].0 == files0[hit].0);
    }
}

proof fn lemma_assoc_file_other_from(
    files0: Seq<(String, FileReviewStatus, Option<u64>)>,
    files1: Seq<(String, FileReviewStatus, Option<u64>)>,
    hit: int,
    p: Seq<char>,
    j: int,
)
    requires
        0 <= hit < files0.len(),
        files1 == files0.update(hit, (files0[hit].0, files1[hit].1, files1[hit].2)),
        files1.len() == files0.len(),
        p != files0[hit].0@,
        0 <= j <= files0.len(),
    ensures
        assoc_file(files1, p, j) == assoc_file(files0, p, j),
    decreases files0.len() - j,
{
    if j < files0.len() {
        lemma_assoc_file_other_from(files0, files1, hit, p, j + 1);
        if j == hit {
            assert(files1[j].0 == files0[j].0);
        } else {
            assert(files1[j] == files0[j]);
        }
    }
}

proof fn lemma_assoc_file_append(
    files0: Seq<(String, FileReviewStatus, Option<u64>)>,
    files1: Seq<(String, FileReviewStatus, Option<u64>)>,
    path: Seq<char>,
    status: FileReviewStatus,
    hash: Option<u64>,
)
    requires
        forall|q: int| 0 <= q < files0.len() ==> (#[trigger] files0[q]).0@ != path,
        files1.len() == files0.len() + 1,
        files1[files1.len() - 1].0@ == path,
        files1[files1.len() - 1].1 == status,
        files1[files1.len() - 1].2 == hash,
        files1.take(files0.len() as int) == files0,
    ensures
        assoc_file(files1, path, 0) == Some((status, hash)),
        forall|p: Seq<char>|
            p != path ==> #[trigger] assoc_file(files1, p, 0) == assoc_file(files0, p, 0),
{
    lemma_assoc_file_append_hit(files0, files1, path, status, hash, 0);
    assert forall|p: Seq<char>| p != path implies #[trigger] assoc_file(files1, p, 0)
        == assoc_file(files0, p, 0) by {
        lemma_assoc_file_append_other(files0, files1, path, p, 0);
    }
}

proof fn lemma_assoc_file_append_hit(
    files0: Seq<(String, FileReviewStatus, Option<u64>)>,
    files1: Seq<(String, FileReviewStatus, Option<u64>)>,
    path: Seq<char>,
    status: FileReviewStatus,
    hash: Option<u64>,
    j: int,
)
    requires
        forall|q: int| 0 <= q < files0.len() ==> (#[trigger] files0[q]).0@ != path,
        files1.len() == files0.len() + 1,
        files1[files1.len() - 1].0@ == path,
        files1[files1.len() - 1].1 == status,
        files1[files1.len() - 1].2 == hash,
        files1.take(files0.len() as int) == files0,
        0 <= j <= files0.len(),
    ensures
        assoc_file(files1, path, j) == Some((status, hash)),
    decreases files0.len() - j,
{
    if j < files0.len() {
        assert(files1[j] == files1.take(files0.len() as int)[j]);
        lemma_assoc_file_append_hit(files0, files1, path, status, hash, j + 1);
    }
}

proof fn lemma_assoc_file_append_other(
    files0: Seq<(String, FileReviewStatus, Option<u64>)>,
    files1: Seq<(String, FileReviewStatus, Option<u64>)>,
    path: Seq<char>,
    p: Seq<char>,
    j: int,
)
    requires
        files1.len() == files0.len() + 1,
        files1[files1.len() - 1].0@ == path,
        files1.take(files0.len() as int) == files0,
        p != path,
        0 <= j <= files0.len(),
    ensures
        assoc_file(files1, p, j) == assoc_file(files0, p, j),
    decreases files0.len() - j,
{
    if j < files0.len() {
        assert(files1[j] == files1.take(files0.len() as int)[j]);
        lemma_assoc_file_append_other(files0, files1, path, p, j + 1);
    } else {
        assert(files1[j].0@ == path);
        assert(assoc_file(files1, p, j) == assoc_file(files1, p, j + 1));
        assert(assoc_file(files1, p, j + 1) is None);
        assert(assoc_file(files0, p, j) is None);
    }
}

} // verus!
