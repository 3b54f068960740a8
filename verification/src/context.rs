//! Extracting the diff context around an annotation for template
//! rendering: the annotated lines with `+`/`-`/space prefixes, the
//! padding lines around them, and the header of the hunk they sit in.

use vstd::prelude::*;

use crate::annotations::LineAnchor;
use crate::diff::DiffLine;
use crate::diff::DiffLineOrigin;
use crate::diff::FileDelta;
use crate::diff::Hunk;
use crate::template::TemplateContext;
use crate::text_buffer::trim_end_len;
use crate::text_buffer::trim_end_str;

verus! {

/// The line number a diff line is addressed by here: new side first.
pub open spec fn line_pos(l: DiffLine) -> u32 {
    match l.new_lineno {
        Some(n) => n,
        None => match l.old_lineno {
            Some(n) => n,
            None => 0,
        },
    }
}

/// The `+`/`-`/space prefix of a diff line.
pub open spec fn prefix_of(o: DiffLineOrigin) -> char {
    match o {
        DiffLineOrigin::Addition => '+',
        DiffLineOrigin::Deletion => '-',
        DiffLineOrigin::Context => ' ',
    }
}

/// A diff line as it is rendered: prefix, then content without trailing
/// whitespace.
pub open spec fn rendered_line(l: DiffLine) -> Seq<char> {
    seq![prefix_of(l.origin)] + l.content@.take(trim_end_len(l.content@))
}

/// The rendered lines of `[i, ..)` whose position falls inside
/// `[start, end]`.
pub open spec fn lines_in_range(lines: Seq<DiffLine>, start: u32, end: u32, i: int) -> Seq<
    Seq<char>,
>
    decreases lines.len() - i,
{
    if i < 0 || i >= lines.len() {
        Seq::empty()
    } else if start <= line_pos(lines[i]) <= end {
        seq![rendered_line(lines[i])] + lines_in_range(lines, start, end, i + 1)
    } else {
        lines_in_range(lines, start, end, i + 1)
    }
}

/// The rendered lines inside the padded range but outside the core range.
pub open spec fn lines_in_padding(
    lines: Seq<DiffLine>,
    pad_start: u32,
    pad_end: u32,
    start: u32,
    end: u32,
    i: int,
) -> Seq<Seq<char>>
    decreases lines.len() - i,
{
    if i < 0 || i >= lines.len() {
        Seq::empty()
    } else if pad_start <= line_pos(lines[i]) <= pad_end && !(start <= line_pos(lines[i])
        <= end) {
        seq![rendered_line(lines[i])] + lines_in_padding(lines, pad_start, pad_end, start, end, i + 1)
    } else {
        lines_in_padding(lines, pad_start, pad_end, start, end, i + 1)
    }
}

/// Range-hit lines over all hunks from index `h` on.
pub open spec fn all_in_range(hunks: Seq<Hunk>, start: u32, end: u32, h: int) -> Seq<Seq<char>>
    decreases hunks.len() - h,
{
    if h < 0 || h >= hunks.len() {
        Seq::empty()
    } else {
        lines_in_range(hunks[h].lines@, start, end, 0) + all_in_range(hunks, start, end, h + 1)
    }
}

/// Padding lines over all hunks from index `h` on.
pub open spec fn all_in_padding(
    hunks: Seq<Hunk>,
    pad_start: u32,
    pad_end: u32,
    start: u32,
    end: u32,
    h: int,
) -> Seq<Seq<char>>
    decreases hunks.len() - h,
{
    if h < 0 || h >= hunks.len() {
        Seq::empty()
    } else {
        lines_in_padding(hunks[h].lines@, pad_start, pad_end, start, end, 0) + all_in_padding(
            hunks,
            pad_start,
            pad_end,
            start,
            end,
            h + 1,
        )
    }
}

/// Whether a hunk holds any line inside `[start, end]`.
pub open spec fn hunk_hits(lines: Seq<DiffLine>, start: u32, end: u32) -> bool {
    lines_in_range(lines, start, end, 0).len() > 0
}

/// The header of the first hunk with a line in range, empty when none.
pub open spec fn first_hit_header(hunks: Seq<Hunk>, start: u32, end: u32, h: int) -> Seq<char>
    decreases hunks.len() - h,
{
    if h < 0 || h >= hunks.len() {
        Seq::empty()
    } else if hunk_hits(hunks[h].lines@, start, end) {
        hunks[h].header@
    } else {
        first_hit_header(hunks, start, end, h + 1)
    }
}

/// Lines joined with newlines, no trailing newline.
pub open spec fn joined(ls: Seq<Seq<char>>) -> Seq<char>
    decreases ls.len(),
{
    if ls.len() == 0 {
        Seq::empty()
    } else if ls.len() == 1 {
        ls[0]
    } else {
        ls[0].push('\n') + joined(ls.drop_first())
    }
}

pub proof fn lemma_joined_push(ls: Seq<Seq<char>>, x: Seq<char>)
    ensures
        joined(ls.push(x)) == (if ls.len() == 0 {
            x
        } else {
            joined(ls).push('\n') + x
        }),
    decreases ls.len(),
{
    if ls.len() == 0 {
        assert(ls.push(x)[0] == x);
        assert(joined(ls.push(x)) == x);
    } else if ls.len() == 1 {
        assert(ls.push(x).drop_first() =~= seq![x]);
        assert(ls.push(x)[0] == ls[0]);
        assert(joined(seq![x]) == x);
        assert(joined(ls.push(x)) =~= ls[0].push('\n') + x);
    } else {
        lemma_joined_push(ls.drop_first(), x);
        assert(ls.push(x).drop_first() =~= ls.drop_first().push(x));
        assert(joined(ls.push(x)) =~= joined(ls).push('\n') + x);
    }
}

/// Join rendered lines with newlines.
pub fn join_lines(v: &Vec<String>, ghost_views: Ghost<Seq<Seq<char>>>) -> (r: String)
    requires
        ghost_views@.len() == v@.len(),
        forall|i: int| 0 <= i < v@.len() ==> (#[trigger] v@[i])@ == ghost_views@[i],
    ensures
        r@ == joined(ghost_views@),
{
    let mut r = String::new();
    let mut i: usize = 0;
    while i < v.len()
        invariant
            ghost_views@.len() == v@.len(),
            forall|q: int| 0 <= q < v@.len() ==> (#[trigger] v@[q])@ == ghost_views@[q],
            i <= v@.len(),
            r@ == joined(ghost_views@.take(i as int)),
        decreases v@.len() - i,
    {
        if i > 0 {
            crate::strutil::push_char(&mut r, '\n');
        }
        r.append(v[i].as_str());
        i = i + 1;
        proof {
            assert(ghost_views@.take(i as int) =~= ghost_views@.take(i - 1).push(
                ghost_views@[i - 1],
            ));
            lemma_joined_push(ghost_views@.take(i - 1), ghost_views@[i - 1]);
            assert(r@ =~= joined(ghost_views@.take(i as int)));
        }
    }
    proof {
        assert(ghost_views@.take(v@.len() as int) =~= ghost_views@);
    }
    r
}

/// The inclusive line range an anchor stands for here: its new-side
/// range when present, else its old-side range, else `(0, 0)`.
pub open spec fn anchor_range(a: LineAnchor) -> (u32, u32) {
    match a.new_range {
        Some(r) => r,
        None => match a.old_range {
            Some(r) => r,
            None => (0u32, 0u32),
        },
    }
}

/// Extract the context of an annotation from a delta: the lines of the
/// anchored range with diff prefixes, the lines within `padding` lines
/// around that range, and the header of the first hunk the range hits.
#[verifier::rlimit(100)]
pub fn extract_context(delta: &FileDelta, anchor: &LineAnchor, comment: &str, padding: usize) -> (r:
    TemplateContext)
    requires
        padding <= u32::MAX,
        anchor_range(*anchor).1 + padding <= u32::MAX,
    ensures
        ({
            let (start, end) = anchor_range(*anchor);
            let pad_start = if start >= padding as u32 {
                (start - padding as u32) as u32
            } else {
                0u32
            };
            let pad_end = (end + padding as u32) as u32;
            &&& r.filename@ == anchor.file_path@
            &&& r.line_start == start
            &&& r.line_end == end
            &&& r.diff_content@ == joined(all_in_range(delta.hunks@, start, end, 0))
            &&& r.context@ == joined(
                all_in_padding(delta.hunks@, pad_start, pad_end, start, end, 0),
            )
            &&& r.comments@ == comment@
            &&& r.hunk_header@ == first_hit_header(delta.hunks@, start, end, 0)
        }),
{
    let (start, end) = match anchor.new_range {
        Some(rg) => rg,
        None => match anchor.old_range {
            Some(rg) => rg,
            None => (0, 0),
        },
    };
    let pad32: u32 = padding as u32;
    let padded_start: u32 = if start >= pad32 {
        start - pad32
    } else {
        0
    };
    let padded_end: u32 = end + pad32;

    let ghost hunks = delta.hunks@;
    let mut diff_lines: Vec<String> = Vec::new();
    let ghost mut diff_views: Seq<Seq<char>> = Seq::empty();
    let mut context_lines: Vec<String> = Vec::new();
    let ghost mut ctx_views: Seq<Seq<char>> = Seq::empty();
    let mut hunk_header = String::new();
    let mut have_header = false;

    let mut h: usize = 0;
    while h < delta.hunks.len()
        invariant
            h <= hunks.len(),
            hunks == delta.hunks@,
            diff_views.len() == diff_lines@.len(),
            forall|q: int|
                0 <= q < diff_lines@.len() ==> (#[trigger] diff_lines@[q])@ == diff_views[q],
            diff_views + all_in_range(hunks, start, end, h as int) == all_in_range(
                hunks,
                start,
                end,
                0,
            ),
            ctx_views.len() == context_lines@.len(),
            forall|q: int|
                0 <= q < context_lines@.len() ==> (#[trigger] context_lines@[q])@ == ctx_views[q],
            ctx_views + all_in_padding(hunks, padded_start, padded_end, start, end, h as int)
                == all_in_padding(hunks, padded_start, padded_end, start, end, 0),
            have_header ==> hunk_header@ == first_hit_header(hunks, start, end, 0),
            !have_header ==> hunk_header@.len() == 0,
            !have_header ==> first_hit_header(hunks, start, end, 0) == first_hit_header(
                hunks,
                start,
                end,
                h as int,
            ),
        decreases hunks.len() - h,
    {
        let hunk = &delta.hunks[h];
        let ghost lines = hunk.lines@;
        let ghost base = diff_views.len() as int;
        let mut found_in_hunk = false;
        let mut li: usize = 0;
        while li < hunk.lines.len()
            invariant
                li <= lines.len(),
                h < hunks.len(),
                hunks == delta.hunks@,
                hunk == hunks[h as int],
                lines == hunk.lines@,
                diff_views.len() == diff_lines@.len(),
                forall|q: int|
                    0 <= q < diff_lines@.len() ==> (#[trigger] diff_lines@[q])@ == diff_views[q],
                diff_views + lines_in_range(lines, start, end, li as int) + all_in_range(
                    hunks,
                    start,
                    end,
                    h + 1,
                ) == all_in_range(hunks, start, end, 0),
                ctx_views.len() == context_lines@.len(),
                forall|q: int|
                    0 <= q < context_lines@.len() ==> (#[trigger] context_lines@[q])@
                        == ctx_views[q],
                ctx_views + lines_in_padding(lines, padded_start, padded_end, start, end, li as int)
                    + all_in_padding(hunks, padded_start, padded_end, start, end, h + 1)
                    == all_in_padding(hunks, padded_start, padded_end, start, end, 0),
                base <= diff_views.len(),
                found_in_hunk == (diff_views.len() > base),
                base + lines_in_range(lines, start, end, 0).len() - lines_in_range(
                    lines,
                    start,
                    end,
                    li as int,
                ).len() == diff_views.len(),
                have_header ==> hunk_header@ == first_hit_header(hunks, start, end, 0),
                !have_header ==> hunk_header@.len() == 0,
                !have_header ==> first_hit_header(hunks, start, end, 0) == first_hit_header(
                    hunks,
                    start,
                    end,
                    h as int,
                ),
            decreases lines.len() - li,
        {
            let l = &hunk.lines[li];
            let lineno: u32 = match l.new_lineno {
                Some(n) => n,
                None => match l.old_lineno {
                    Some(n) => n,
                    None => 0,
                },
            };
            proof {
                assert(lineno == line_pos(lines[li as int]));
            }
            let in_range = start <= lineno && lineno <= end;
            let in_padded = padded_start <= lineno && lineno <= padded_end;

            if in_range {
                found_in_hunk = true;
                let mut rendered = String::new();
                let prefix: char = match l.origin {
                    DiffLineOrigin::Addition => '+',
                    DiffLineOrigin::Deletion => '-',
                    DiffLineOrigin::Context => ' ',
                };
                crate::strutil::push_char(&mut rendered, prefix);
                rendered.append(trim_end_str(l.content.as_str()).as_str());
                proof {
                    assert(rendered@ =~= rendered_line(lines[li as int]));
                }
                diff_lines.push(rendered);
                proof {
                    diff_views = diff_views.push(rendered_line(lines[li as int]));
                }
            }
            if in_padded && !in_range {
                let mut rendered = String::new();
                let prefix: char = match l.origin {
                    DiffLineOrigin::Addition => '+',
                    DiffLineOrigin::Deletion => '-',
                    DiffLineOrigin::Context => ' ',
                };
                crate::strutil::push_char(&mut rendered, prefix);
                rendered.append(trim_end_str(l.content.as_str()).as_str());
                proof {
                    assert(rendered@ =~= rendered_line(lines[li as int]));
                }
                context_lines.push(rendered);
                proof {
                    ctx_views = ctx_views.push(rendered_line(lines[li as int]));
                }
            }
            li = li + 1;
            proof {
                if in_range {
                    assert(lines_in_range(lines, start, end, li - 1) == seq![
                        rendered_line(lines[li - 1]),
                    ] + lines_in_range(lines, start, end, li as int));
                    assert(diff_views + lines_in_range(lines, start, end, li as int) =~= diff_views.drop_last()
                        + lines_in_range(lines, start, end, li - 1));
                } else {
                    assert(lines_in_range(lines, start, end, li - 1) == lines_in_range(
                        lines,
                        start,
                        end,
                        li as int,
                    ));
                }
                if in_padded && !in_range {
                    assert(lines_in_padding(lines, padded_start, padded_end, start, end, li - 1)
                        == seq![rendered_line(lines[li - 1])] + lines_in_padding(
                        lines,
                        padded_start,
                        padded_end,
                        start,
                        end,
                        li as int,
                    ));
                    assert(ctx_views + lines_in_padding(
                        lines,
                        padded_start,
                        padded_end,
                        start,
                        end,
                        li as int,
                    ) =~= ctx_views.drop_last() + lines_in_padding(
                        lines,
                        padded_start,
                        padded_end,
                        start,
                        end,
                        li - 1,
                    ));
                } else {
                    assert(lines_in_padding(lines, padded_start, padded_end, start, end, li - 1)
                        == lines_in_padding(lines, padded_start, padded_end, start, end, li as int));
                }
            }
        }
        if found_in_hunk && !have_header {
            hunk_header = hunk.header.clone();
            have_header = true;
            proof {
                assert(lines_in_range(lines, start, end, li as int).len() == 0);
                assert(hunk_hits(lines, start, end));
                assert(first_hit_header(hunks, start, end, h as int) == hunks[h as int].header@);
            }
        } else {
            proof {
                assert(lines_in_range(lines, start, end, li as int).len() == 0);
                if !have_header {
                    assert(!hunk_hits(lines, start, end));
                    assert(first_hit_header(hunks, start, end, h as int) == first_hit_header(
                        hunks,
                        start,
                        end,
                        h + 1,
                    ));
                }
            }
        }
        h = h + 1;
    }
    proof {
        assert(all_in_range(hunks, start, end, h as int) =~= Seq::<Seq<char>>::empty());
        assert(diff_views =~= all_in_range(hunks, start, end, 0));
        assert(all_in_padding(hunks, padded_start, padded_end, start, end, h as int) =~= Seq::<
            Seq<char>,
        >::empty());
        assert(ctx_views =~= all_in_padding(hunks, padded_start, padded_end, start, end, 0));
        if !have_header {
            assert(first_hit_header(hunks, start, end, h as int) =~= Seq::<char>::empty());
            assert(hunk_header@ =~= first_hit_header(hunks, start, end, 0));
        }
    }

    TemplateContext {
        filename: anchor.file_path.clone(),
        line_start: start,
        line_end: end,
        diff_content: join_lines(&diff_lines, Ghost(diff_views)),
        context: join_lines(&context_lines, Ghost(ctx_views)),
        comments: comment.to_owned(),
        hunk_header,
    }
}

} // verus!
