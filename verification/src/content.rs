//! Reconstructing one side of a file from its diff hunks: every line the
//! diff knows is placed at its original line number, the gaps between
//! hunks stay empty. Syntax highlighting runs over the result.

use vstd::prelude::*;

use crate::context::join_lines;
use crate::context::joined;
use crate::diff::DiffLine;
use crate::diff::DiffLineOrigin;
use crate::diff::FileDelta;
use crate::diff::Hunk;

verus! {

/// Which side of the diff to reconstruct.
#[derive(Clone, Copy, Debug, PartialEq, Eq, Structural)]
pub enum ContentSide {
    Old,
    New,
}

/// All diff lines of the hunks from index `h` on, in order.
pub open spec fn all_lines(hunks: Seq<Hunk>, h: int) -> Seq<DiffLine>
    decreases hunks.len() - h,
{
    if h < 0 || h >= hunks.len() {
        Seq::empty()
    } else {
        hunks[h].lines@ + all_lines(hunks, h + 1)
    }
}

/// The line number a diff line carries on the given side, when the line
/// belongs to that side at all.
pub open spec fn side_lineno(l: DiffLine, side: ContentSide) -> Option<u32> {
    match side {
        ContentSide::Old => match l.origin {
            DiffLineOrigin::Context | DiffLineOrigin::Deletion => l.old_lineno,
            DiffLineOrigin::Addition => None,
        },
        ContentSide::New => match l.origin {
            DiffLineOrigin::Context | DiffLineOrigin::Addition => l.new_lineno,
            DiffLineOrigin::Deletion => None,
        },
    }
}

/// Length of `s` without its trailing newlines.
pub open spec fn trim_nl_len(s: Seq<char>) -> int
    decreases s.len(),
{
    if s.len() == 0 {
        0
    } else if s[s.len() - 1] == '\n' {
        trim_nl_len(s.drop_last())
    } else {
        s.len() as int
    }
}

pub proof fn lemma_trim_nl_len_bounds(s: Seq<char>)
    ensures
        0 <= trim_nl_len(s) <= s.len(),
    decreases s.len(),
{
    if s.len() > 0 && s[s.len() - 1] == '\n' {
        lemma_trim_nl_len_bounds(s.drop_last());
    }
}

/// A line's content with trailing newlines dropped.
pub open spec fn line_text(l: DiffLine) -> Seq<char> {
    l.content@.take(trim_nl_len(l.content@))
}

/// The text row `n` carries on the given side: the content of the last
/// diff line with that line number, empty when the diff has none.
pub open spec fn row_text(ls: Seq<DiffLine>, side: ContentSide, n: u32) -> Seq<char>
    decreases ls.len(),
{
    if ls.len() == 0 {
        Seq::empty()
    } else if side_lineno(ls.last(), side) == Some(n) {
        line_text(ls.last())
    } else {
        row_text(ls.drop_last(), side, n)
    }
}

/// The largest line number the given side carries, zero when none.
pub open spec fn max_lineno(ls: Seq<DiffLine>, side: ContentSide) -> int
    decreases ls.len(),
{
    if ls.len() == 0 {
        0
    } else {
        let rest = max_lineno(ls.drop_last(), side);
        match side_lineno(ls.last(), side) {
            Some(n) => if n as int >= rest {
                n as int
            } else {
                rest
            },
            None => rest,
        }
    }
}

/// Whether the given side carries any line at all.
pub open spec fn any_lineno(ls: Seq<DiffLine>, side: ContentSide) -> bool
    decreases ls.len(),
{
    if ls.len() == 0 {
        false
    } else {
        side_lineno(ls.last(), side) is Some || any_lineno(ls.drop_last(), side)
    }
}

pub proof fn lemma_max_lineno_bounds(ls: Seq<DiffLine>, side: ContentSide)
    ensures
        0 <= max_lineno(ls, side) <= u32::MAX,
        forall|i: int|
            0 <= i < ls.len() ==> (side_lineno(#[trigger] ls[i], side) matches Some(n) ==> n as int
                <= max_lineno(ls, side)),
    decreases ls.len(),
{
    if ls.len() > 0 {
        lemma_max_lineno_bounds(ls.drop_last(), side);
        assert forall|i: int| 0 <= i < ls.len() implies (side_lineno(#[trigger] ls[i], side)
            matches Some(n) ==> n as int <= max_lineno(ls, side)) by {
            if i < ls.len() - 1 {
                assert(ls.drop_last()[i] == ls[i]);
            }
        }
    }
}

/// The content side of a diff line, executable.
fn side_lineno_of(l: &DiffLine, side: ContentSide) -> (r: Option<u32>)
    ensures
        r == side_lineno(*l, side),
{
    match side {
        ContentSide::Old => match l.origin {
            DiffLineOrigin::Context | DiffLineOrigin::Deletion => l.old_lineno,
            DiffLineOrigin::Addition => None,
        },
        ContentSide::New => match l.origin {
            DiffLineOrigin::Context | DiffLineOrigin::Addition => l.new_lineno,
            DiffLineOrigin::Deletion => None,
        },
    }
}

/// A line's content with trailing newlines dropped, executable.
fn line_text_of(l: &DiffLine) -> (r: String)
    ensures
        r@ == line_text(*l),
{
    let chars = crate::strutil::chars_of(l.content.as_str());
    let mut t = chars.len();
    let ghost s = l.content@;
    proof {
        assert(s.take(t as int) =~= s);
        lemma_trim_nl_len_bounds(s);
    }
    while t > 0 && chars[t - 1] == '\n'
        invariant
            t <= chars@.len(),
            chars@ == s,
            s == l.content@,
            trim_nl_len(s) == trim_nl_len(s.take(t as int)),
        decreases t,
    {
        proof {
            let p = s.take(t as int);
            assert(p[p.len() - 1] == s[t - 1]);
            assert(p.drop_last() =~= s.take(t - 1));
        }
        t = t - 1;
    }
    proof {
        let p = s.take(t as int);
        if t > 0 {
            assert(p[p.len() - 1] == s[t - 1]);
        }
        assert(trim_nl_len(p) == p.len());
        assert(trim_nl_len(s) == t);
    }
    let mut out: Vec<char> = Vec::new();
    let mut i: usize = 0;
    while i < t
        invariant
            i <= t <= chars@.len(),
            chars@ == s,
            out@ == s.subrange(0, i as int),
        decreases t - i,
    {
        out.push(chars[i]);
        i = i + 1;
        proof {
            assert(out@ =~= s.subrange(0, i as int));
        }
    }
    crate::strutil::string_from_chars(&out)
}

/// Reconstruct one side's file content from the diff hunks: line `n` of
/// the result is the last diff line numbered `n` on that side, other
/// lines stay empty. Returns the text, rows joined by newlines with an
/// empty row zero, and the highest line number seen; an empty text and
/// zero when the side has no lines at all.
#[verifier::rlimit(100)]
pub fn reconstruct_content(delta: &FileDelta, side: ContentSide) -> (r: (String, usize))
    requires
        max_lineno(all_lines(delta.hunks@, 0), side) < usize::MAX,
    ensures
        ({
            let flat = all_lines(delta.hunks@, 0);
            if any_lineno(flat, side) {
                &&& r.1 == max_lineno(flat, side)
                &&& r.0@ == joined(
                    Seq::new(
                        (max_lineno(flat, side) + 1) as nat,
                        |n: int| row_text(flat, side, n as u32),
                    ),
                )
            } else {
                r.0@.len() == 0 && r.1 == 0
            }
        }),
{
    let ghost hunks = delta.hunks@;
    let ghost flat = all_lines(hunks, 0);

    // First pass: the largest line number of this side, if any.
    let mut max_line: u32 = 0;
    let mut any: bool = false;
    let ghost mut done: Seq<DiffLine> = Seq::empty();
    let mut h: usize = 0;
    while h < delta.hunks.len()
        invariant
            h <= hunks.len(),
            hunks == delta.hunks@,
            flat == all_lines(hunks, 0),
            flat == done + all_lines(hunks, h as int),
            max_line as int == max_lineno(done, side),
            any == any_lineno(done, side),
        decreases hunks.len() - h,
    {
        let hunk = &delta.hunks[h];
        let ghost lines = hunk.lines@;
        let mut li: usize = 0;
        while li < hunk.lines.len()
            invariant
                li <= lines.len(),
                h < hunks.len(),
                hunks == delta.hunks@,
                hunk == hunks[h as int],
                lines == hunk.lines@,
                flat == all_lines(hunks, 0),
                flat == done + lines.skip(li as int) + all_lines(hunks, h + 1),
                max_line as int == max_lineno(done, side),
                any == any_lineno(done, side),
            decreases lines.len() - li,
        {
            let l = &hunk.lines[li];
            if let Some(n) = side_lineno_of(l, side) {
                any = true;
                if n > max_line {
                    max_line = n;
                }
            }
            proof {
                let done2 = done.push(lines[li as int]);
                assert(done2.drop_last() =~= done);
                assert(done2.last() == lines[li as int]);
                assert(done2 + lines.skip(li + 1) =~= done + lines.skip(li as int));
                done = done2;
            }
            li = li + 1;
        }
        proof {
            assert(lines.skip(lines.len() as int) =~= Seq::<DiffLine>::empty());
            assert(done + all_lines(hunks, h + 1) =~= done + lines.skip(lines.len() as int)
                + all_lines(hunks, h + 1));
        }
        h = h + 1;
    }
    proof {
        assert(all_lines(hunks, h as int) =~= Seq::<DiffLine>::empty());
        assert(done =~= flat);
    }

    if !any {
        return (String::new(), 0);
    }

    // Second pass: place each line at its line number, last one wins.
    let rows_len = max_line as usize + 1;
    let mut rows: Vec<String> = Vec::new();
    let ghost mut placed: Seq<DiffLine> = Seq::empty();
    while rows.len() < rows_len
        invariant
            rows@.len() <= rows_len,
            forall|q: int| 0 <= q < rows@.len() ==> (#[trigger] rows@[q])@.len() == 0,
        decreases rows_len - rows@.len(),
    {
        rows.push(String::new());
    }
    proof {
        lemma_max_lineno_bounds(flat, side);
    }
    let mut h: usize = 0;
    while h < delta.hunks.len()
        invariant
            h <= hunks.len(),
            hunks == delta.hunks@,
            flat == all_lines(hunks, 0),
            flat == placed + all_lines(hunks, h as int),
            rows@.len() == rows_len,
            rows_len == max_line as int + 1,
            max_line as int == max_lineno(flat, side),
            forall|i: int|
                0 <= i < flat.len() ==> (side_lineno(#[trigger] flat[i], side) matches Some(n)
                    ==> n as int <= max_lineno(flat, side)),
            forall|q: int| 0 <= q < rows_len ==> (#[trigger] rows@[q])@ == row_text(placed, side, q as u32),
        decreases hunks.len() - h,
    {
        let hunk = &delta.hunks[h];
        let ghost lines = hunk.lines@;
        let mut li: usize = 0;
        while li < hunk.lines.len()
            invariant
                li <= lines.len(),
                h < hunks.len(),
                hunks == delta.hunks@,
                hunk == hunks[h as int],
                lines == hunk.lines@,
                flat == all_lines(hunks, 0),
                flat == placed + lines.skip(li as int) + all_lines(hunks, h + 1),
                rows@.len() == rows_len,
                rows_len == max_line as int + 1,
                max_line as int == max_lineno(flat, side),
                forall|i: int|
                    0 <= i < flat.len() ==> (side_lineno(#[trigger] flat[i], side) matches Some(n)
                        ==> n as int <= max_lineno(flat, side)),
                forall|q: int|
                    0 <= q < rows_len ==> (#[trigger] rows@[q])@ == row_text(placed, side, q as u32),
            decreases lines.len() - li,
        {
            let l = &hunk.lines[li];
            let ghost placed2 = placed.push(lines[li as int]);
            proof {
                assert(placed2.drop_last() =~= placed);
                assert(placed2.last() == lines[li as int]);
                assert(placed2 + lines.skip(li + 1) =~= placed + lines.skip(li as int));
            }
            if let Some(n) = side_lineno_of(l, side) {
                proof {
                    assert(flat[placed.len() as int] == lines[li as int]) by {
                        assert(flat == placed + lines.skip(li as int) + all_lines(hunks, h + 1));
                        assert(lines.skip(li as int)[0] == lines[li as int]);
                    }
                    assert(n as int <= max_line as int);
                }
                let text = line_text_of(l);
                let ghost tv = text;
                let ghost rows0 = rows@;
                let idx = n as usize;
                rows.remove(idx);
                let ghost mid = rows@;
                rows.insert(idx, text);
                proof {
                    assert(mid == rows0.remove(idx as int));
                    assert(rows@ == mid.insert(idx as int, tv));
                    assert(rows@ =~= rows0.update(idx as int, tv));
                    assert forall|q: int| 0 <= q < rows_len implies (#[trigger] rows@[q])@
                        == row_text(placed2, side, q as u32) by {
                        if q == n as int {
                            assert(rows@[q] == tv);
                            assert(tv@ == line_text(lines[li as int]));
                        } else {
                            assert(rows@[q] == rows0[q]);
                            assert(side_lineno(placed2.last(), side) != Some(q as u32));
                        }
                    }
                }
            } else {
                proof {
                    assert forall|q: int| 0 <= q < rows_len implies (#[trigger] rows@[q])@
                        == row_text(placed2, side, q as u32) by {
                        assert(side_lineno(placed2.last(), side) != Some(q as u32));
                    }
                }
            }
            proof {
                placed = placed2;
            }
            li = li + 1;
        }
        proof {
            assert(lines.skip(lines.len() as int) =~= Seq::<DiffLine>::empty());
            assert(placed + all_lines(hunks, h + 1) =~= placed + lines.skip(lines.len() as int)
                + all_lines(hunks, h + 1));
        }
        h = h + 1;
    }
    proof {
        assert(all_lines(hunks, h as int) =~= Seq::<DiffLine>::empty());
        assert(placed =~= flat);
    }
    let ghost views = Seq::new(rows_len as nat, |n: int| row_text(flat, side, n as u32));
    proof {
        assert(forall|q: int| 0 <= q < rows@.len() ==> (#[trigger] rows@[q])@ == views[q]);
    }
    let text = join_lines(&rows, Ghost(views));
    (text, max_line as usize)
}

} // verus!
