//! The synchronized line-wrapping layer: one logical row becomes one or
//! more fixed-width visual rows. Content is modelled as styled spans —
//! runs of characters sharing one style key — and wrapping is proved to
//! preserve the per-character style assignment. In dual-pane mode the two
//! sides of one logical row are padded to the same visual height, so the
//! panes stay vertically aligned.

use vstd::prelude::*;

use crate::strutil::dec_digits;
use crate::strutil::make_spaces;
use crate::strutil::push_char;
use crate::strutil::right_align;
use crate::strutil::right_align_string;
use crate::strutil::spaces;
use crate::strutil::u32_to_string;

verus! {

/// A line number right-aligned in a field of `width` characters, or that
/// many spaces when there is none.
pub fn format_lineno(lineno: Option<u32>, width: usize) -> (r: String)
    ensures
        r@ == match lineno {
            Some(n) => right_align(dec_digits(n as nat), width as nat),
            None => spaces(width as nat),
        },
{
    match lineno {
        Some(n) => right_align_string(u32_to_string(n), width),
        None => make_spaces(width),
    }
}

/// A gutter with its trailing cell: an annotation marker when one is
/// present there, a space otherwise.
pub fn format_gutter_with_marker(gutter: &str, ann_marker: bool) -> (r: String)
    ensures
        r@ == gutter@.push(
            if ann_marker {
                '\u{2502}'
            } else {
                ' '
            },
        ),
{
    let mut r = gutter.to_owned();
    if ann_marker {
        push_char(&mut r, '\u{2502}');
    } else {
        push_char(&mut r, ' ');
    }
    r
}

/// A run of characters drawn with one style. The style is an opaque key;
/// the renderer decides what it looks like.
#[derive(Clone, Debug, PartialEq, Eq)]
pub struct StyledSpan {
    pub text: Vec<char>,
    pub style: u64,
}

/// One logical or visual row: a gutter span followed by content spans.
#[derive(Clone, Debug, PartialEq, Eq)]
pub struct StyledLine {
    pub spans: Vec<StyledSpan>,
}

/// The cells of a span: each character paired with the span's style.
pub open spec fn span_cells(s: StyledSpan) -> Seq<(char, u64)> {
    Seq::new(s.text@.len(), |i: int| (s.text@[i], s.style))
}

/// The cells of a span sequence, in order.
pub open spec fn cells_of_spans(spans: Seq<StyledSpan>) -> Seq<(char, u64)>
    decreases spans.len(),
{
    if spans.len() == 0 {
        Seq::empty()
    } else {
        span_cells(spans[0]) + cells_of_spans(spans.drop_first())
    }
}

pub proof fn lemma_cells_push(spans: Seq<StyledSpan>, s: StyledSpan)
    ensures
        cells_of_spans(spans.push(s)) == cells_of_spans(spans) + span_cells(s),
    decreases spans.len(),
{
    if spans.len() == 0 {
        reveal_with_fuel(cells_of_spans, 3);
        assert(spans.push(s)[0] == s);
        assert(spans.push(s).drop_first() =~= Seq::<StyledSpan>::empty());
        assert(cells_of_spans(Seq::<StyledSpan>::empty()) =~= Seq::<(char, u64)>::empty());
        assert(cells_of_spans(spans.push(s)) =~= span_cells(s));
        assert(cells_of_spans(spans) + span_cells(s) =~= span_cells(s));
    } else {
        assert(spans.push(s).drop_first() =~= spans.drop_first().push(s));
        lemma_cells_push(spans.drop_first(), s);
        assert(cells_of_spans(spans.push(s)) =~= cells_of_spans(spans) + span_cells(s));
    }
}

/// Character width of a whole line, gutter included.
pub open spec fn line_width(line: StyledLine) -> nat {
    cells_of_spans(line.spans@).len()
}

/// The content cells of a line: everything after the gutter span.
pub open spec fn content_cells(line: StyledLine) -> Seq<(char, u64)> {
    cells_of_spans(line.spans@.skip(1))
}

/// Characters available for content once the gutter is reserved.
pub open spec fn content_width_of(width: nat, gutter_width: nat) -> nat {
    if width > gutter_width {
        (width - gutter_width) as nat
    } else {
        0
    }
}

/// How many visual rows a logical row occupies at the given width: one if
/// wrapping is off or the row fits, else the ceiling of content length
/// over content width.
pub open spec fn wrap_count(line: StyledLine, width: nat, gutter_width: nat, wrap_enabled: bool) -> nat {
    let cw = content_width_of(width, gutter_width);
    if !wrap_enabled || width == 0 || cw == 0 || line_width(line) <= width {
        1
    } else if content_cells(line).len() == 0 {
        1
    } else {
        ((content_cells(line).len() + cw - 1) / (cw as int)) as nat
    }
}

/// The continuation gutter: spaces and a hook marker, in the gutter style.
pub open spec fn is_cont_gutter(s: StyledSpan, gutter_width: nat, style: u64) -> bool {
    &&& s.text@ == spaces((if gutter_width > 0 {
        gutter_width - 1
    } else {
        0
    }) as nat).push('\u{21aa}')
    &&& s.style == style
}

/// The characters of all spans from `from` on, paired with their styles.
fn flatten_spans(spans: &Vec<StyledSpan>, from: usize) -> (cells: Vec<(char, u64)>)
    requires
        from <= spans@.len(),
    ensures
        cells@ == cells_of_spans(spans@.skip(from as int)),
{
    let mut cells: Vec<(char, u64)> = Vec::new();
    let mut s = from;
    proof {
        assert(spans@.subrange(from as int, from as int) =~= Seq::<StyledSpan>::empty());
        assert(cells@ =~= cells_of_spans(spans@.subrange(from as int, from as int)));
    }
    while s < spans.len()
        invariant
            from <= s <= spans@.len(),
            cells@ == cells_of_spans(spans@.subrange(from as int, s as int)),
        decreases spans@.len() - s,
    {
        let span = &spans[s];
        let mut c: usize = 0;
        let ghost cells0 = cells@;
        while c < span.text.len()
            invariant
                0 <= c <= span.text@.len(),
                span == spans@[s as int],
                cells@ == cells0 + span_cells(*span).take(c as int),
            decreases span.text@.len() - c,
        {
            cells.push((span.text[c], span.style));
            c = c + 1;
            proof {
                assert(cells@ =~= cells0 + span_cells(*span).take(c as int));
            }
        }
        proof {
            assert(span_cells(*span).take(span.text@.len() as int) =~= span_cells(*span));
            lemma_cells_push(spans@.subrange(from as int, s as int), spans@[s as int]);
            assert(spans@.subrange(from as int, s + 1) =~= spans@.subrange(
                from as int,
                s as int,
            ).push(spans@[s as int]));
        }
        s = s + 1;
    }
    proof {
        assert(spans@.subrange(from as int, spans@.len() as int) =~= spans@.skip(from as int));
    }
    cells
}

/// Group the cells `[from, to)` back into spans, coalescing neighbours
/// that share a style.
fn chunk_spans(cells: &Vec<(char, u64)>, from: usize, to: usize) -> (out: Vec<StyledSpan>)
    requires
        from <= to <= cells@.len(),
    ensures
        cells_of_spans(out@) == cells@.subrange(from as int, to as int),
{
    let mut out: Vec<StyledSpan> = Vec::new();
    if from >= to {
        proof {
            assert(cells@.subrange(from as int, to as int) =~= Seq::<(char, u64)>::empty());
            assert(cells_of_spans(out@) =~= cells@.subrange(from as int, to as int));
        }
        return out;
    }
    let mut current_text: Vec<char> = Vec::new();
    let mut current_style: u64 = cells[from].1;
    let mut i = from;
    while i < to
        invariant
            from <= i <= to <= cells@.len(),
            cells_of_spans(out@) + Seq::new(
                current_text@.len(),
                |q: int| (current_text@[q], current_style),
            ) == cells@.subrange(from as int, i as int),
        decreases to - i,
    {
        let (ch, st) = cells[i];
        if st == current_style {
            current_text.push(ch);
        } else {
            if current_text.len() > 0 {
                let ghost flushed = StyledSpan { text: current_text, style: current_style };
                proof {
                    lemma_cells_push(out@, flushed);
                    assert(span_cells(flushed) =~= Seq::new(
                        current_text@.len(),
                        |q: int| (current_text@[q], current_style),
                    ));
                }
                out.push(StyledSpan { text: current_text, style: current_style });
                current_text = Vec::new();
            }
            current_style = st;
            current_text.push(ch);
        }
        i = i + 1;
        proof {
            assert(cells@.subrange(from as int, i as int) =~= cells@.subrange(
                from as int,
                i - 1,
            ).push(cells@[i - 1]));
            assert(cells_of_spans(out@) + Seq::new(
                current_text@.len(),
                |q: int| (current_text@[q], current_style),
            ) =~= cells@.subrange(from as int, i as int));
        }
    }
    if current_text.len() > 0 {
        let ghost flushed = StyledSpan { text: current_text, style: current_style };
        proof {
            lemma_cells_push(out@, flushed);
            assert(span_cells(flushed) =~= Seq::new(
                current_text@.len(),
                |q: int| (current_text@[q], current_style),
            ));
        }
        out.push(StyledSpan { text: current_text, style: current_style });
    }
    proof {
        assert(cells_of_spans(out@) =~= cells@.subrange(from as int, to as int));
    }
    out
}

/// Cells that visual row `t` of a wrapped line must show: the `t`-th
/// chunk of `content_width` content cells (the last chunk may be short).
pub open spec fn chunk_of(content: Seq<(char, u64)>, cw: int, t: int) -> Seq<(char, u64)> {
    content.subrange(
        t * cw,
        if (t + 1) * cw <= content.len() {
            (t + 1) * cw
        } else {
            content.len() as int
        },
    )
}

/// What wrapping one logical row must produce: a row that fits (or a call
/// with wrapping off) comes back unchanged as a single visual row; else
/// the first span stays as the gutter of the first visual row, every
/// later visual row carries a continuation gutter in the gutter's style,
/// and the content cells are dealt out in order, `width - gutter_width`
/// per row, styles preserved per character.
pub open spec fn wrap_rows_ok(
    line: StyledLine,
    width: nat,
    gutter_width: nat,
    wrap_enabled: bool,
    rows: Seq<StyledLine>,
) -> bool {
    let cw = content_width_of(width, gutter_width) as int;
    let content = content_cells(line);
    &&& rows.len() == wrap_count(line, width, gutter_width, wrap_enabled)
    &&& ((!wrap_enabled || width == 0 || cw == 0 || line_width(line) <= width) ==> rows == seq![
        line,
    ])
    &&& ((wrap_enabled && width > 0 && cw > 0 && line_width(line) > width) ==> {
        &&& line.spans@.len() > 0
        &&& (forall|t: int| 0 <= t < rows.len() ==> (#[trigger] rows[t]).spans@.len() >= 1)
        &&& (forall|t: int|
            0 <= t < rows.len() ==> cells_of_spans((#[trigger] rows[t]).spans@.skip(1)) == chunk_of(
                content,
                cw,
                t,
            ))
        &&& rows[0].spans@[0] == line.spans@[0]
        &&& (forall|t: int|
            1 <= t < rows.len() ==> is_cont_gutter(
                (#[trigger] rows[t]).spans@[0],
                gutter_width,
                line.spans@[0].style,
            ))
    })
}

/// Split one logical row into visual rows of at most `width` characters.
#[verifier::rlimit(100)]
pub fn wrap_single_line(line: StyledLine, width: usize, gutter_width: usize, wrap_enabled: bool) -> (r: Vec<StyledLine>)
    requires
        line_width(line) <= usize::MAX,
    ensures
        wrap_rows_ok(line, width as nat, gutter_width as nat, wrap_enabled, r@),
{
    let ghost l0 = line;
    if !wrap_enabled || width == 0 {
        let mut r: Vec<StyledLine> = Vec::new();
        r.push(line);
        proof {
            assert(r@ =~= seq![l0]);
        }
        return r;
    }
    let content_width = if width > gutter_width {
        width - gutter_width
    } else {
        0
    };
    if content_width == 0 {
        let mut r: Vec<StyledLine> = Vec::new();
        r.push(line);
        proof {
            assert(r@ =~= seq![l0]);
        }
        return r;
    }
    let lw = measure_line(&line);
    if lw <= width {
        let mut r: Vec<StyledLine> = Vec::new();
        r.push(line);
        proof {
            assert(r@ =~= seq![l0]);
        }
        return r;
    }
    proof {
        if line.spans@.len() == 0 {
            assert(line_width(l0) == 0);
        }
    }
    let mut spans = line.spans;
    let gutter = spans.remove(0);
    proof {
        assert(spans@ =~= l0.spans@.skip(1));
    }
    let cells = flatten_spans(&spans, 0);
    proof {
        assert(spans@.skip(0) =~= spans@);
        assert(cells@ == content_cells(l0));
    }
    let total = cells.len();
    if total == 0 {
        let mut gspans: Vec<StyledSpan> = Vec::new();
        gspans.push(gutter);
        let mut r: Vec<StyledLine> = Vec::new();
        r.push(StyledLine { spans: gspans });
        proof {
            assert(r@[0].spans@ =~= seq![l0.spans@[0]]);
            assert(r@[0].spans@.skip(1) =~= Seq::<StyledSpan>::empty());
            assert(chunk_of(content_cells(l0), content_width as int, 0) =~= Seq::<
                (char, u64),
            >::empty());
            assert(cells_of_spans(r@[0].spans@.skip(1)) =~= chunk_of(
                content_cells(l0),
                content_width as int,
                0,
            ));
        }
        return r;
    }

    // Continuation gutter: spaces with a trailing hook marker.
    let mut cont_text: Vec<char> = Vec::new();
    let pad = if gutter_width > 0 {
        gutter_width - 1
    } else {
        0
    };
    let mut p: usize = 0;
    while p < pad
        invariant
            p <= pad,
            cont_text@ == spaces(p as nat),
        decreases pad - p,
    {
        cont_text.push(' ');
        p = p + 1;
        proof {
            assert(cont_text@ =~= spaces(p as nat));
        }
    }
    cont_text.push('\u{21aa}');
    proof {
        assert(cont_text@ =~= spaces(pad as nat).push('\u{21aa}'));
    }

    let count = 1 + (total - 1) / content_width;
    let ghost cw = content_width as int;
    proof {
        assert(count == wrap_count(l0, width as nat, gutter_width as nat, wrap_enabled)) by {
            assert((total + cw - 1) / cw == 1 + (total - 1) / cw) by (nonlinear_arith)
                requires
                    cw >= 1,
                    total >= 1,
            ;
        }
    }
    let mut r: Vec<StyledLine> = Vec::new();

    // First visual row: the original gutter, then the first chunk.
    let gutter_style = gutter.style;
    let end0 = if total > content_width {
        content_width
    } else {
        total
    };
    let mut chunk = chunk_spans(&cells, 0, end0);
    let mut row_spans: Vec<StyledSpan> = Vec::new();
    row_spans.push(gutter);
    let ghost chunk0 = chunk@;
    row_spans.append(&mut chunk);
    let ghost rs0 = row_spans@;
    r.push(StyledLine { spans: row_spans });
    proof {
        assert(rs0.skip(1) =~= chunk0);
        assert(chunk_of(cells@, cw, 0) == cells@.subrange(0, end0 as int)) by (nonlinear_arith)
            requires
                cw >= 1,
                total == cells@.len(),
                end0 == (if total > cw {
                    cw
                } else {
                    total as int
                }),
        ;
        assert(cells_of_spans(r@[0].spans@.skip(1)) == chunk_of(cells@, cw, 0));
        assert(r@[0].spans@[0] == l0.spans@[0]);
    }

    let mut t: usize = 1;
    while t < count
        invariant
            1 <= t <= count,
            count == 1 + (total - 1) / (content_width as int),
            cw == content_width as int,
            content_width >= 1,
            total == cells@.len(),
            total >= 1,
            cells@ == content_cells(l0),
            l0.spans@.len() > 0,
            gutter_style == l0.spans@[0].style,
            cont_text@ == spaces((if gutter_width > 0 {
                (gutter_width - 1) as int
            } else {
                0
            }) as nat).push('\u{21aa}'),
            r@.len() == t,
            forall|q: int| 0 <= q < t ==> (#[trigger] r@[q]).spans@.len() >= 1,
            forall|q: int|
                0 <= q < t ==> cells_of_spans((#[trigger] r@[q]).spans@.skip(1)) == chunk_of(
                    cells@,
                    cw,
                    q,
                ),
            r@[0].spans@[0] == l0.spans@[0],
            forall|q: int|
                1 <= q < t ==> is_cont_gutter(
                    (#[trigger] r@[q]).spans@[0],
                    gutter_width as nat,
                    l0.spans@[0].style,
                ),
        decreases count - t,
    {
        proof {
            assert(t * cw <= total - 1 && t * cw >= 0) by (nonlinear_arith)
                requires
                    cw >= 1,
                    total >= 1,
                    0 <= t <= (total - 1) / cw,
            ;
        }
        let start = t * content_width;
        let end = if total - start > content_width {
            start + content_width
        } else {
            total
        };
        let mut chunk = chunk_spans(&cells, start, end);
        let mut row_spans: Vec<StyledSpan> = Vec::new();
        let mut cont_copy: Vec<char> = Vec::new();
        let mut p: usize = 0;
        while p < cont_text.len()
            invariant
                p <= cont_text@.len(),
                cont_copy@ == cont_text@.subrange(0, p as int),
            decreases cont_text@.len() - p,
        {
            cont_copy.push(cont_text[p]);
            p = p + 1;
            proof {
                assert(cont_copy@ =~= cont_text@.subrange(0, p as int));
            }
        }
        proof {
            assert(cont_copy@ =~= cont_text@);
        }
        row_spans.push(StyledSpan { text: cont_copy, style: gutter_style });
        let ghost chunkv = chunk@;
        row_spans.append(&mut chunk);
        let ghost rs = row_spans@;
        r.push(StyledLine { spans: row_spans });
        proof {
            assert(rs.skip(1) =~= chunkv);
            assert(end as int == if (t + 1) * cw <= total {
                (t + 1) * cw
            } else {
                total as int
            }) by (nonlinear_arith)
                requires
                    cw >= 1,
                    start == t * cw,
                    total == cells@.len(),
                    end == (if total - start > cw {
                        start + cw
                    } else {
                        total as int
                    }),
            ;
            assert(cells_of_spans(r@[t as int].spans@.skip(1)) == chunk_of(cells@, cw, t as int));
            assert(is_cont_gutter(
                r@[t as int].spans@[0],
                gutter_width as nat,
                l0.spans@[0].style,
            ));
        }
        t = t + 1;
    }
    r
}

/// Character width of a line, gutter included.
pub fn measure_line(line: &StyledLine) -> (w: usize)
    requires
        line_width(*line) <= usize::MAX,
    ensures
        w == line_width(*line),
{
    let cells = flatten_spans(&line.spans, 0);
    proof {
        assert(line.spans@.skip(0) =~= line.spans@);
    }
    cells.len()
}

/// Every line of the sequence has a width a `usize` can hold.
pub open spec fn lines_measurable(ls: Seq<StyledLine>) -> bool {
    forall|i: int| 0 <= i < ls.len() ==> line_width(#[trigger] ls[i]) <= usize::MAX
}

/// Visual height of one logical row pair in the synchronized split view:
/// the taller side wins, the shorter side is blank-padded up to it.
pub open spec fn pair_height(
    l: StyledLine,
    r: StyledLine,
    width: nat,
    gutter_width: nat,
    wrap_enabled: bool,
) -> nat {
    let lh = wrap_count(l, width, gutter_width, wrap_enabled);
    let rh = wrap_count(r, width, gutter_width, wrap_enabled);
    if lh >= rh {
        lh
    } else {
        rh
    }
}

/// Total visual height of the row pairs from index `i` on.
pub open spec fn sync_height_from(
    ls: Seq<StyledLine>,
    rs: Seq<StyledLine>,
    width: nat,
    gutter_width: nat,
    wrap_enabled: bool,
    i: int,
) -> nat
    decreases ls.len() - i,
{
    if i < 0 || i >= ls.len() || i >= rs.len() {
        0
    } else {
        pair_height(ls[i], rs[i], width, gutter_width, wrap_enabled) + sync_height_from(
            ls,
            rs,
            width,
            gutter_width,
            wrap_enabled,
            i + 1,
        )
    }
}

/// Total visual height of the single-pane rows from index `i` on.
pub open spec fn height_from(
    ls: Seq<StyledLine>,
    width: nat,
    gutter_width: nat,
    wrap_enabled: bool,
    i: int,
) -> nat
    decreases ls.len() - i,
{
    if i < 0 || i >= ls.len() {
        0
    } else {
        wrap_count(ls[i], width, gutter_width, wrap_enabled) + height_from(
            ls,
            width,
            gutter_width,
            wrap_enabled,
            i + 1,
        )
    }
}

/// Whether `out` is the `o`-th visual row of wrapping `line`: the line
/// itself when it passes through unsplit, else the right gutter (the
/// original on row zero, the continuation gutter after) followed by the
/// `o`-th chunk of the line's content cells.
pub open spec fn is_wrap_row(
    line: StyledLine,
    width: nat,
    gutter_width: nat,
    wrap_enabled: bool,
    o: int,
    out: StyledLine,
) -> bool {
    let cw = content_width_of(width, gutter_width) as int;
    if !wrap_enabled || width == 0 || cw == 0 || line_width(line) <= width {
        out == line
    } else {
        &&& out.spans@.len() >= 1
        &&& cells_of_spans(out.spans@.skip(1)) == chunk_of(content_cells(line), cw, o)
        &&& (o == 0 ==> out.spans@[0] == line.spans@[0])
        &&& (o >= 1 ==> is_cont_gutter(out.spans@[0], gutter_width, line.spans@[0].style))
    }
}

/// Whether `out` is the `o`-th visual row of one side of a synchronized
/// pair padded to height `h`: a wrap row while the side still has
/// content, a blank row beyond it.
pub open spec fn is_padded_wrap_row(
    line: StyledLine,
    width: nat,
    gutter_width: nat,
    wrap_enabled: bool,
    o: int,
    out: StyledLine,
) -> bool {
    if o < wrap_count(line, width, gutter_width, wrap_enabled) {
        is_wrap_row(line, width, gutter_width, wrap_enabled, o, out)
    } else {
        out.spans@.len() == 0
    }
}

/// A wrap output's row `o` is that row of the line.
pub proof fn lemma_wrap_rows_ok_row(
    line: StyledLine,
    width: nat,
    gutter_width: nat,
    wrap_enabled: bool,
    rows: Seq<StyledLine>,
    o: int,
)
    requires
        wrap_rows_ok(line, width, gutter_width, wrap_enabled, rows),
        0 <= o < rows.len(),
    ensures
        is_wrap_row(line, width, gutter_width, wrap_enabled, o, rows[o]),
{
}

/// Window position `t` holds the located visual row: the chunk at the
/// offset where visual index `start + t` falls inside its logical row.
pub open spec fn window_row_at(
    ls: Seq<StyledLine>,
    width: nat,
    gutter_width: nat,
    wrap_enabled: bool,
    start: int,
    t: int,
    out_row: StyledLine,
) -> bool {
    let loc = locate(ls, width, gutter_width, wrap_enabled, start + t, 0);
    &&& 0 <= loc.0 < ls.len()
    &&& 0 <= loc.1 < wrap_count(ls[loc.0], width, gutter_width, wrap_enabled)
    &&& is_wrap_row(ls[loc.0], width, gutter_width, wrap_enabled, loc.1, out_row)
}

/// The window output is exactly the visual rows `[start, start+len)` of
/// the wrapped sequence: row `t` is the located chunk of the logical row
/// the visual index `start + t` falls into.
pub open spec fn windowed_rows_ok(
    ls: Seq<StyledLine>,
    width: nat,
    gutter_width: nat,
    wrap_enabled: bool,
    start: int,
    out: Seq<StyledLine>,
) -> bool {
    forall|t: int|
        0 <= t < out.len() ==> window_row_at(
            ls,
            width,
            gutter_width,
            wrap_enabled,
            start,
            t,
            #[trigger] out[t],
        )
}

/// Window position `t` holds the located pair: both sides show the
/// offset where visual index `start + t` falls inside its logical row
/// pair, the shorter side blank-padded.
pub open spec fn window_pair_at(
    ls: Seq<StyledLine>,
    rs: Seq<StyledLine>,
    width: nat,
    gutter_width: nat,
    wrap_enabled: bool,
    start: int,
    t: int,
    left_row: StyledLine,
    right_row: StyledLine,
) -> bool {
    let loc = locate_pair(ls, rs, width, gutter_width, wrap_enabled, start + t, 0);
    &&& 0 <= loc.0 < ls.len()
    &&& loc.0 < rs.len()
    &&& 0 <= loc.1 < pair_height(ls[loc.0], rs[loc.0], width, gutter_width, wrap_enabled)
    &&& is_padded_wrap_row(ls[loc.0], width, gutter_width, wrap_enabled, loc.1, left_row)
    &&& is_padded_wrap_row(rs[loc.0], width, gutter_width, wrap_enabled, loc.1, right_row)
}

/// The two window outputs are exactly the visual rows `[start, start+len)`
/// of the blank-padded synchronized sequence.
pub open spec fn windowed_pairs_ok(
    ls: Seq<StyledLine>,
    rs: Seq<StyledLine>,
    width: nat,
    gutter_width: nat,
    wrap_enabled: bool,
    start: int,
    left_out: Seq<StyledLine>,
    right_out: Seq<StyledLine>,
) -> bool {
    forall|t: int|
        0 <= t < left_out.len() && t < right_out.len() ==> window_pair_at(
            ls,
            rs,
            width,
            gutter_width,
            wrap_enabled,
            start,
            t,
            #[trigger] left_out[t],
            right_out[t],
        )
}

/// Which logical row and row-internal offset the visual index `v` lands
/// on, walking single-pane rows from index `i`.
pub open spec fn locate(
    ls: Seq<StyledLine>,
    width: nat,
    gutter_width: nat,
    wrap_enabled: bool,
    v: int,
    i: int,
) -> (int, int)
    decreases ls.len() - i,
{
    if i < 0 || i >= ls.len() {
        (i, v)
    } else if v < wrap_count(ls[i], width, gutter_width, wrap_enabled) {
        (i, v)
    } else {
        locate(
            ls,
            width,
            gutter_width,
            wrap_enabled,
            v - wrap_count(ls[i], width, gutter_width, wrap_enabled),
            i + 1,
        )
    }
}

/// Which logical row pair and row-internal offset the visual index `v`
/// lands on, walking synchronized row pairs from index `i`.
pub open spec fn locate_pair(
    ls: Seq<StyledLine>,
    rs: Seq<StyledLine>,
    width: nat,
    gutter_width: nat,
    wrap_enabled: bool,
    v: int,
    i: int,
) -> (int, int)
    decreases ls.len() - i,
{
    if i < 0 || i >= ls.len() || i >= rs.len() {
        (i, v)
    } else if v < pair_height(ls[i], rs[i], width, gutter_width, wrap_enabled) {
        (i, v)
    } else {
        locate_pair(
            ls,
            rs,
            width,
            gutter_width,
            wrap_enabled,
            v - pair_height(ls[i], rs[i], width, gutter_width, wrap_enabled),
            i + 1,
        )
    }
}

proof fn lemma_height_from_mono(
    ls: Seq<StyledLine>,
    width: nat,
    gutter_width: nat,
    wrap_enabled: bool,
    a: int,
    b: int,
)
    requires
        0 <= a <= b,
    ensures
        height_from(ls, width, gutter_width, wrap_enabled, a) >= height_from(
            ls,
            width,
            gutter_width,
            wrap_enabled,
            b,
        ),
    decreases b - a,
{
    if a < b {
        lemma_height_from_mono(ls, width, gutter_width, wrap_enabled, a + 1, b);
    }
}

proof fn lemma_sync_height_mono(
    ls: Seq<StyledLine>,
    rs: Seq<StyledLine>,
    width: nat,
    gutter_width: nat,
    wrap_enabled: bool,
    a: int,
    b: int,
)
    requires
        0 <= a <= b,
    ensures
        sync_height_from(ls, rs, width, gutter_width, wrap_enabled, a) >= sync_height_from(
            ls,
            rs,
            width,
            gutter_width,
            wrap_enabled,
            b,
        ),
    decreases b - a,
{
    if a < b {
        lemma_sync_height_mono(ls, rs, width, gutter_width, wrap_enabled, a + 1, b);
    }
}

/// A visual index that falls `o` rows into logical row `i` locates there.
pub proof fn lemma_locate_at(
    ls: Seq<StyledLine>,
    width: nat,
    gutter_width: nat,
    wrap_enabled: bool,
    i: int,
    o: int,
    j: int,
)
    requires
        0 <= j <= i < ls.len(),
        0 <= o < wrap_count(ls[i], width, gutter_width, wrap_enabled),
    ensures
        locate(
            ls,
            width,
            gutter_width,
            wrap_enabled,
            height_from(ls, width, gutter_width, wrap_enabled, j) - height_from(
                ls,
                width,
                gutter_width,
                wrap_enabled,
                i,
            ) + o,
            j,
        ) == (i, o),
    decreases i - j,
{
    if j < i {
        lemma_height_from_mono(ls, width, gutter_width, wrap_enabled, j + 1, i);
        lemma_locate_at(ls, width, gutter_width, wrap_enabled, i, o, j + 1);
    }
}

/// A visual index that falls `o` rows into logical row pair `i` locates
/// there.
pub proof fn lemma_locate_pair_at(
    ls: Seq<StyledLine>,
    rs: Seq<StyledLine>,
    width: nat,
    gutter_width: nat,
    wrap_enabled: bool,
    i: int,
    o: int,
    j: int,
)
    requires
        ls.len() == rs.len(),
        0 <= j <= i < ls.len(),
        0 <= o < pair_height(ls[i], rs[i], width, gutter_width, wrap_enabled),
    ensures
        locate_pair(
            ls,
            rs,
            width,
            gutter_width,
            wrap_enabled,
            sync_height_from(ls, rs, width, gutter_width, wrap_enabled, j) - sync_height_from(
                ls,
                rs,
                width,
                gutter_width,
                wrap_enabled,
                i,
            ) + o,
            j,
        ) == (i, o),
    decreases i - j,
{
    if j < i {
        lemma_sync_height_mono(ls, rs, width, gutter_width, wrap_enabled, j + 1, i);
        lemma_locate_pair_at(ls, rs, width, gutter_width, wrap_enabled, i, o, j + 1);
    }
}

/// The visual rows a window `[start, start + height)` holds, out of
/// `total` available: never more than `height`, and fewer only when the
/// content ends first.
pub open spec fn window_len(total: int, start: int, height: int) -> int {
    let avail = if total - start >= 0 {
        total - start
    } else {
        0
    };
    if avail <= height {
        avail
    } else {
        height
    }
}

/// Wrap the two sides of one logical row and pad the shorter side with
/// blank rows, so the row occupies the same visual height on both sides.
pub fn wrap_pair(
    left: StyledLine,
    right: StyledLine,
    width: usize,
    gutter_width: usize,
    wrap_enabled: bool,
) -> (r: (Vec<StyledLine>, Vec<StyledLine>))
    requires
        line_width(left) <= usize::MAX,
        line_width(right) <= usize::MAX,
    ensures
        r.0@.len() == r.1@.len(),
        r.0@.len() == pair_height(left, right, width as nat, gutter_width as nat, wrap_enabled),
        wrap_rows_ok(
            left,
            width as nat,
            gutter_width as nat,
            wrap_enabled,
            r.0@.take(wrap_count(left, width as nat, gutter_width as nat, wrap_enabled) as int),
        ),
        wrap_rows_ok(
            right,
            width as nat,
            gutter_width as nat,
            wrap_enabled,
            r.1@.take(wrap_count(right, width as nat, gutter_width as nat, wrap_enabled) as int),
        ),
        forall|t: int|
            wrap_count(left, width as nat, gutter_width as nat, wrap_enabled) <= t < r.0@.len()
                ==> (#[trigger] r.0@[t]).spans@.len() == 0,
        forall|t: int|
            wrap_count(right, width as nat, gutter_width as nat, wrap_enabled) <= t < r.1@.len()
                ==> (#[trigger] r.1@[t]).spans@.len() == 0,
        forall|o: int|
            0 <= o < r.0@.len() ==> is_padded_wrap_row(
                left,
                width as nat,
                gutter_width as nat,
                wrap_enabled,
                o,
                #[trigger] r.0@[o],
            ),
        forall|o: int|
            0 <= o < r.1@.len() ==> is_padded_wrap_row(
                right,
                width as nat,
                gutter_width as nat,
                wrap_enabled,
                o,
                #[trigger] r.1@[o],
            ),
{
    let ghost left0 = left;
    let ghost right0 = right;
    let mut lw = wrap_single_line(left, width, gutter_width, wrap_enabled);
    let mut rw = wrap_single_line(right, width, gutter_width, wrap_enabled);
    let h = if lw.len() >= rw.len() {
        lw.len()
    } else {
        rw.len()
    };
    let ghost lw0 = lw@;
    let ghost rw0 = rw@;
    while lw.len() < h
        invariant
            lw@.len() <= h,
            lw@.take(lw0.len() as int) == lw0,
            lw0.len() <= lw@.len(),
            forall|t: int| lw0.len() <= t < lw@.len() ==> (#[trigger] lw@[t]).spans@.len() == 0,
        decreases h - lw@.len(),
    {
        lw.push(StyledLine { spans: Vec::new() });
        proof {
            assert(lw@.take(lw0.len() as int) =~= lw0);
        }
    }
    while rw.len() < h
        invariant
            rw@.len() <= h,
            rw@.take(rw0.len() as int) == rw0,
            rw0.len() <= rw@.len(),
            forall|t: int| rw0.len() <= t < rw@.len() ==> (#[trigger] rw@[t]).spans@.len() == 0,
        decreases h - rw@.len(),
    {
        rw.push(StyledLine { spans: Vec::new() });
        proof {
            assert(rw@.take(rw0.len() as int) =~= rw0);
        }
    }
    proof {
        let wn = width as nat;
        let gn = gutter_width as nat;
        let wcl = wrap_count(left0, wn, gn, wrap_enabled) as int;
        let wcr = wrap_count(right0, wn, gn, wrap_enabled) as int;
        assert forall|o: int| 0 <= o < lw@.len() implies is_padded_wrap_row(
            left0,
            wn,
            gn,
            wrap_enabled,
            o,
            #[trigger] lw@[o],
        ) by {
            if o < wcl {
                assert(lw@[o] == lw@.take(wcl)[o]);
                lemma_wrap_rows_ok_row(left0, wn, gn, wrap_enabled, lw@.take(wcl), o);
            }
        }
        assert forall|o: int| 0 <= o < rw@.len() implies is_padded_wrap_row(
            right0,
            wn,
            gn,
            wrap_enabled,
            o,
            #[trigger] rw@[o],
        ) by {
            if o < wcr {
                assert(rw@[o] == rw@.take(wcr)[o]);
                lemma_wrap_rows_ok_row(right0, wn, gn, wrap_enabled, rw@.take(wcr), o);
            }
        }
    }
    (lw, rw)
}

/// Visual heights of each logical row and their running offsets, for
/// scroll arithmetic.
pub struct VisualRowMetrics {
    pub row_offsets: Vec<usize>,
    pub row_heights: Vec<usize>,
    pub total_rows: usize,
}

/// Visual height of one split row when the two panes have widths of
/// their own.
pub open spec fn split_row_height(
    l: StyledLine,
    r: StyledLine,
    left_width: nat,
    right_width: nat,
    gutter_width: nat,
) -> nat {
    let lh = wrap_count(l, left_width, gutter_width, true);
    let rh = wrap_count(r, right_width, gutter_width, true);
    if lh >= rh {
        lh
    } else {
        rh
    }
}

/// Total split visual height from row `i` on, per-pane widths.
pub open spec fn split_total_from(
    ls: Seq<StyledLine>,
    rs: Seq<StyledLine>,
    left_width: nat,
    right_width: nat,
    gutter_width: nat,
    i: int,
) -> nat
    decreases ls.len() - i,
{
    if i < 0 || i >= ls.len() || i >= rs.len() {
        0
    } else {
        split_row_height(ls[i], rs[i], left_width, right_width, gutter_width) + split_total_from(
            ls,
            rs,
            left_width,
            right_width,
            gutter_width,
            i + 1,
        )
    }
}

/// How many visual rows a logical row takes, without building them.
pub fn wrap_count_of(line: &StyledLine, width: usize, gutter_width: usize, wrap_enabled: bool) -> (c: usize)
    requires
        line_width(*line) <= usize::MAX,
    ensures
        c == wrap_count(*line, width as nat, gutter_width as nat, wrap_enabled),
{
    if !wrap_enabled || width == 0 {
        return 1;
    }
    let content_width = if width > gutter_width {
        width - gutter_width
    } else {
        0
    };
    if content_width == 0 {
        return 1;
    }
    let lw = measure_line(line);
    if lw <= width {
        return 1;
    }
    proof {
        if line.spans@.len() == 0 {
            assert(line_width(*line) == 0);
        }
    }
    let first_len = line.spans[0].text.len();
    let total = lw - first_len;
    proof {
        assert(line.spans@.drop_first() =~= line.spans@.skip(1));
        assert(content_cells(*line).len() + first_len == line_width(*line));
    }
    if total == 0 {
        return 1;
    }
    let count = 1 + (total - 1) / content_width;
    proof {
        let cw = content_width as int;
        assert((total + cw - 1) / cw == 1 + (total - 1) / cw) by (nonlinear_arith)
            requires
                cw >= 1,
                total >= 1,
        ;
    }
    count
}

/// Wrap the left and right split-view lines in lock step, then return the
/// visual-row window `[start_visual, start_visual + height)`. Each logical
/// row occupies the same number of visual rows on both sides, so the two
/// returned sequences always have equal length; the window holds `height`
/// rows unless the content ends first, and never pads past content end.
#[verifier::rlimit(100)]
pub fn wrap_split_lines_synchronized_with_scroll(
    left_lines: Vec<StyledLine>,
    right_lines: Vec<StyledLine>,
    width: usize,
    gutter_width: usize,
    wrap_enabled: bool,
    start_visual: usize,
    height: usize,
) -> (r: (Vec<StyledLine>, Vec<StyledLine>))
    requires
        left_lines@.len() == right_lines@.len(),
        lines_measurable(left_lines@),
        lines_measurable(right_lines@),
    ensures
        r.0@.len() == r.1@.len(),
        height == 0 ==> r.0@.len() == 0,
        (height > 0 && (!wrap_enabled || width == 0)) ==> {
            let n = left_lines@.len() as int;
            let lo = if start_visual as int <= n {
                start_visual as int
            } else {
                n
            };
            let hi = if start_visual + height <= n {
                start_visual + height
            } else {
                n
            };
            r.0@ == left_lines@.subrange(lo, hi) && r.1@ == right_lines@.subrange(lo, hi)
        },
        (height > 0 && wrap_enabled && width > 0) ==> r.0@.len() == window_len(
            sync_height_from(
                left_lines@,
                right_lines@,
                width as nat,
                gutter_width as nat,
                wrap_enabled,
                0,
            ) as int,
            start_visual as int,
            height as int,
        ),
        (wrap_enabled && width > 0) ==> windowed_pairs_ok(
            left_lines@,
            right_lines@,
            width as nat,
            gutter_width as nat,
            wrap_enabled,
            start_visual as int,
            r.0@,
            r.1@,
        ),
{
    let ghost l0 = left_lines@;
    let ghost r0 = right_lines@;
    let ghost wn: nat = width as nat;
    let ghost gn: nat = gutter_width as nat;
    let mut left_lines = left_lines;
    let mut right_lines = right_lines;
    let mut left_result: Vec<StyledLine> = Vec::new();
    let mut right_result: Vec<StyledLine> = Vec::new();
    if height == 0 {
        return (left_result, right_result);
    }
    if !wrap_enabled || width == 0 {
        let mut skipped: usize = 0;
        while skipped < start_visual && left_lines.len() > 0
            invariant
                l0.len() == r0.len(),
                skipped <= start_visual,
                left_lines@ == l0.skip(skipped as int),
                right_lines@ == r0.skip(skipped as int),
                skipped as int <= l0.len(),
            decreases start_visual - skipped,
        {
            left_lines.remove(0);
            right_lines.remove(0);
            skipped = skipped + 1;
            proof {
                assert(left_lines@ =~= l0.skip(skipped as int));
                assert(right_lines@ =~= r0.skip(skipped as int));
            }
        }
        let ghost lo: int = skipped as int;
        proof {
            if skipped < start_visual {
                assert(left_lines@.len() == 0);
                assert(skipped as int == l0.len());
            }
            assert(lo == if start_visual as int <= l0.len() {
                start_visual as int
            } else {
                l0.len() as int
            });
            assert(left_result@ =~= l0.subrange(lo, lo));
            assert(right_result@ =~= r0.subrange(lo, lo));
        }
        let mut taken: usize = 0;
        while taken < height && left_lines.len() > 0
            invariant
                l0.len() == r0.len(),
                0 <= lo,
                lo + taken <= l0.len(),
                taken <= height,
                left_lines@ == l0.skip(lo + taken),
                right_lines@ == r0.skip(lo + taken),
                left_result@ == l0.subrange(lo, lo + taken),
                right_result@ == r0.subrange(lo, lo + taken),
            decreases height - taken,
        {
            proof {
                assert(left_lines@.len() == l0.len() - lo - taken);
                assert(right_lines@.len() == r0.len() - lo - taken);
                assert(left_lines@[0] == l0[lo + taken]);
                assert(right_lines@[0] == r0[lo + taken]);
            }
            let l = left_lines.remove(0);
            let rr = right_lines.remove(0);
            left_result.push(l);
            right_result.push(rr);
            taken = taken + 1;
            proof {
                assert(left_lines@ =~= l0.skip(lo + taken));
                assert(right_lines@ =~= r0.skip(lo + taken));
                assert(left_result@ =~= l0.subrange(lo, lo + taken));
                assert(right_result@ =~= r0.subrange(lo, lo + taken));
            }
        }
        proof {
            let n = l0.len() as int;
            let hi = if start_visual + height <= n {
                (start_visual + height) as int
            } else {
                n
            };
            assert(lo + taken == hi);
        }
        return (left_result, right_result);
    }

    let ghost total: int = sync_height_from(l0, r0, wn, gn, wrap_enabled, 0) as int;
    let mut remaining_skip = start_visual;
    let mut remaining_height = height;
    let ghost mut i: int = 0;

    while left_lines.len() > 0 && remaining_height > 0
        invariant
            l0.len() == r0.len(),
            0 <= i <= l0.len(),
            left_lines@ == l0.skip(i),
            right_lines@ == r0.skip(i),
            lines_measurable(l0),
            lines_measurable(r0),
            total == sync_height_from(l0, r0, wn, gn, wrap_enabled, 0) as int,
            wn == width as nat,
            gn == gutter_width as nat,
            width > 0,
            wrap_enabled,
            left_result@.len() == right_result@.len(),
            remaining_height == height - left_result@.len(),
            remaining_skip as int == {
                let consumed = total - sync_height_from(l0, r0, wn, gn, wrap_enabled, i);
                if start_visual as int - consumed >= 0 {
                    start_visual as int - consumed
                } else {
                    0
                }
            },
            left_result@.len() as int == {
                let consumed = total - sync_height_from(l0, r0, wn, gn, wrap_enabled, i);
                let avail = if consumed - start_visual >= 0 {
                    consumed - start_visual
                } else {
                    0
                };
                if avail <= height as int {
                    avail
                } else {
                    height as int
                }
            },
            windowed_pairs_ok(
                l0,
                r0,
                wn,
                gn,
                wrap_enabled,
                start_visual as int,
                left_result@,
                right_result@,
            ),
        decreases l0.len() - i,
    {
        let l = left_lines.remove(0);
        let rline = right_lines.remove(0);
        proof {
            assert(l == l0[i]);
            assert(rline == r0[i]);
            assert(left_lines@ =~= l0.skip(i + 1));
            assert(right_lines@ =~= r0.skip(i + 1));
            assert(line_width(l0[i]) <= usize::MAX);
            assert(line_width(r0[i]) <= usize::MAX);
        }
        let (mut lw, mut rw) = wrap_pair(l, rline, width, gutter_width, wrap_enabled);
        let ghost lw0 = lw@;
        let ghost rw0 = rw@;
        let h = lw.len();
        proof {
            assert(h as nat == pair_height(l0[i], r0[i], wn, gn, wrap_enabled));
            assert(sync_height_from(l0, r0, wn, gn, wrap_enabled, i) == pair_height(
                l0[i],
                r0[i],
                wn,
                gn,
                wrap_enabled,
            ) + sync_height_from(l0, r0, wn, gn, wrap_enabled, i + 1));
        }
        if remaining_skip >= h {
            remaining_skip = remaining_skip - h;
            proof {
                i = i + 1;
            }
            continue;
        }

        let mut s: usize = 0;
        let start_off = remaining_skip;
        while s < start_off
            invariant
                s <= start_off,
                start_off < h,
                h == lw0.len(),
                h == rw0.len(),
                lw@ == lw0.skip(s as int),
                rw@ == rw0.skip(s as int),
            decreases start_off - s,
        {
            lw.remove(0);
            rw.remove(0);
            s = s + 1;
            proof {
                assert(lw@ =~= lw0.skip(s as int));
                assert(rw@ =~= rw0.skip(s as int));
            }
        }
        remaining_skip = 0;
        let ghost emitted0 = left_result@.len() as int;
        let ghost consumed = total - sync_height_from(l0, r0, wn, gn, wrap_enabled, i);
        let mut e: usize = 0;
        while lw.len() > 0 && remaining_height > 0
            invariant
                l0.len() == r0.len(),
                0 <= i < l0.len(),
                lines_measurable(l0),
                lines_measurable(r0),
                total == sync_height_from(l0, r0, wn, gn, wrap_enabled, 0) as int,
                wn == width as nat,
                gn == gutter_width as nat,
                width > 0,
                wrap_enabled,
                h == lw0.len(),
                h == rw0.len(),
                h as nat == pair_height(l0[i], r0[i], wn, gn, wrap_enabled),
                forall|o: int|
                    0 <= o < h ==> is_padded_wrap_row(
                        l0[i],
                        wn,
                        gn,
                        wrap_enabled,
                        o,
                        #[trigger] lw0[o],
                    ),
                forall|o: int|
                    0 <= o < h ==> is_padded_wrap_row(
                        r0[i],
                        wn,
                        gn,
                        wrap_enabled,
                        o,
                        #[trigger] rw0[o],
                    ),
                start_off < h,
                e <= h - start_off,
                lw@ == lw0.skip(start_off + e),
                rw@ == rw0.skip(start_off + e),
                consumed == total - sync_height_from(l0, r0, wn, gn, wrap_enabled, i),
                start_off as int == (if start_visual as int - consumed >= 0 {
                    start_visual as int - consumed
                } else {
                    0int
                }),
                emitted0 == (if consumed - start_visual >= 0 {
                    if consumed - start_visual <= height as int {
                        consumed - start_visual
                    } else {
                        height as int
                    }
                } else {
                    0int
                }),
                left_result@.len() == right_result@.len(),
                left_result@.len() as int == emitted0 + e,
                remaining_height == height - left_result@.len(),
                windowed_pairs_ok(
                    l0,
                    r0,
                    wn,
                    gn,
                    wrap_enabled,
                    start_visual as int,
                    left_result@,
                    right_result@,
                ),
            decreases lw@.len(),
        {
            let ghost t0 = left_result@.len() as int;
            let ghost o = start_off + e;
            proof {
                assert(lw@[0] == lw0[o as int]);
                assert(rw@[0] == rw0[o as int]);
                assert(start_visual + t0 == consumed + o) by {
                    if start_visual as int - consumed >= 0 {
                        assert(start_off as int == start_visual as int - consumed);
                        assert(emitted0 == 0);
                    } else {
                        assert(start_off == 0);
                        assert(emitted0 < height as int);
                        assert(emitted0 == consumed - start_visual);
                    }
                }
                lemma_locate_pair_at(l0, r0, wn, gn, wrap_enabled, i, o as int, 0);
            }
            let ghost res0l = left_result@;
            let ghost res0r = right_result@;
            let lv = lw.remove(0);
            let rv = rw.remove(0);
            left_result.push(lv);
            right_result.push(rv);
            proof {
                assert(lw@ =~= lw0.skip(start_off + e + 1));
                assert(rw@ =~= rw0.skip(start_off + e + 1));
                assert(locate_pair(l0, r0, wn, gn, wrap_enabled, start_visual + t0, 0) == (
                i,
                o as int,
                ));
                assert(left_result@[t0] == lw0[o as int]);
                assert(right_result@[t0] == rw0[o as int]);
                assert forall|t: int|
                    0 <= t < left_result@.len() && t < right_result@.len() implies window_pair_at(
                    l0,
                    r0,
                    wn,
                    gn,
                    wrap_enabled,
                    start_visual as int,
                    t,
                    #[trigger] left_result@[t],
                    right_result@[t],
                ) by {
                    if t < t0 {
                        assert(left_result@[t] == res0l[t]);
                        assert(right_result@[t] == res0r[t]);
                        assert(window_pair_at(
                            l0,
                            r0,
                            wn,
                            gn,
                            wrap_enabled,
                            start_visual as int,
                            t,
                            res0l[t],
                            res0r[t],
                        ));
                    } else {
                        assert(t == t0);
                        assert(is_padded_wrap_row(l0[i], wn, gn, wrap_enabled, o as int, lw0[o as int]));
                        assert(is_padded_wrap_row(r0[i], wn, gn, wrap_enabled, o as int, rw0[o as int]));
                    }
                }
            }
            remaining_height = remaining_height - 1;
            e = e + 1;
        }
        proof {
            i = i + 1;
        }
    }
    proof {
        if left_lines@.len() == 0 {
            assert(i == l0.len());
            assert(sync_height_from(l0, r0, wn, gn, wrap_enabled, i) == 0);
        } else {
            assert(remaining_height == 0);
            assert(left_result@.len() == height);
            assert(sync_height_from(l0, r0, wn, gn, wrap_enabled, i) >= 0);
        }
    }
    (left_result, right_result)
}

/// Wrap single-pane lines and return the visual-row window
/// `[start_visual, start_visual + height)`: `height` rows unless the
/// content ends first, never padded past content end. The row straddling
/// the scroll boundary contributes only its tail visual rows.
#[verifier::rlimit(100)]
pub fn wrap_lines_for_display_with_scroll(
    lines: Vec<StyledLine>,
    width: usize,
    gutter_width: usize,
    wrap_enabled: bool,
    start_visual: usize,
    height: usize,
) -> (r: Vec<StyledLine>)
    requires
        lines_measurable(lines@),
    ensures
        height == 0 ==> r@.len() == 0,
        height > 0 ==> r@.len() == window_len(
            height_from(lines@, width as nat, gutter_width as nat, wrap_enabled, 0) as int,
            start_visual as int,
            height as int,
        ),
        windowed_rows_ok(
            lines@,
            width as nat,
            gutter_width as nat,
            wrap_enabled,
            start_visual as int,
            r@,
        ),
{
    let ghost l0 = lines@;
    let ghost wn: nat = width as nat;
    let ghost gn: nat = gutter_width as nat;
    let mut lines = lines;
    let mut result: Vec<StyledLine> = Vec::new();
    if height == 0 {
        return result;
    }
    let ghost total: int = height_from(l0, wn, gn, wrap_enabled, 0) as int;
    let mut remaining_skip = start_visual;
    let mut remaining_height = height;
    let ghost mut i: int = 0;

    while lines.len() > 0 && remaining_height > 0
        invariant
            0 <= i <= l0.len(),
            lines@ == l0.skip(i),
            lines_measurable(l0),
            total == height_from(l0, wn, gn, wrap_enabled, 0) as int,
            wn == width as nat,
            gn == gutter_width as nat,
            remaining_height == height - result@.len(),
            remaining_skip as int == {
                let consumed = total - height_from(l0, wn, gn, wrap_enabled, i);
                if start_visual as int - consumed >= 0 {
                    start_visual as int - consumed
                } else {
                    0
                }
            },
            result@.len() as int == {
                let consumed = total - height_from(l0, wn, gn, wrap_enabled, i);
                let avail = if consumed - start_visual >= 0 {
                    consumed - start_visual
                } else {
                    0
                };
                if avail <= height as int {
                    avail
                } else {
                    height as int
                }
            },
            windowed_rows_ok(l0, wn, gn, wrap_enabled, start_visual as int, result@),
        decreases l0.len() - i,
    {
        let l = lines.remove(0);
        proof {
            assert(l == l0[i]);
            assert(lines@ =~= l0.skip(i + 1));
            assert(line_width(l0[i]) <= usize::MAX);
        }
        let mut wrapped = wrap_single_line(l, width, gutter_width, wrap_enabled);
        let ghost w0 = wrapped@;
        let h = wrapped.len();
        proof {
            assert(h as nat == wrap_count(l0[i], wn, gn, wrap_enabled));
            assert(height_from(l0, wn, gn, wrap_enabled, i) == wrap_count(l0[i], wn, gn, wrap_enabled)
                + height_from(l0, wn, gn, wrap_enabled, i + 1));
        }
        if remaining_skip >= h {
            remaining_skip = remaining_skip - h;
            proof {
                i = i + 1;
            }
            continue;
        }
        let mut s: usize = 0;
        let start_off = remaining_skip;
        while s < start_off
            invariant
                s <= start_off,
                start_off < h,
                h == w0.len(),
                wrapped@ == w0.skip(s as int),
            decreases start_off - s,
        {
            wrapped.remove(0);
            s = s + 1;
            proof {
                assert(wrapped@ =~= w0.skip(s as int));
            }
        }
        remaining_skip = 0;
        let ghost emitted0 = result@.len() as int;
        let ghost consumed = total - height_from(l0, wn, gn, wrap_enabled, i);
        let mut e: usize = 0;
        while wrapped.len() > 0 && remaining_height > 0
            invariant
                0 <= i < l0.len(),
                lines_measurable(l0),
                total == height_from(l0, wn, gn, wrap_enabled, 0) as int,
                wn == width as nat,
                gn == gutter_width as nat,
                h == w0.len(),
                h as nat == wrap_count(l0[i], wn, gn, wrap_enabled),
                wrap_rows_ok(l0[i], wn, gn, wrap_enabled, w0),
                start_off < h,
                e <= h - start_off,
                wrapped@ == w0.skip(start_off + e),
                consumed == total - height_from(l0, wn, gn, wrap_enabled, i),
                start_off as int == (if start_visual as int - consumed >= 0 {
                    start_visual as int - consumed
                } else {
                    0int
                }),
                emitted0 == (if consumed - start_visual >= 0 {
                    if consumed - start_visual <= height as int {
                        consumed - start_visual
                    } else {
                        height as int
                    }
                } else {
                    0int
                }),
                result@.len() as int == emitted0 + e,
                remaining_height == height - result@.len(),
                windowed_rows_ok(l0, wn, gn, wrap_enabled, start_visual as int, result@),
            decreases wrapped@.len(),
        {
            let ghost t0 = result@.len() as int;
            let ghost o = start_off + e;
            proof {
                assert(wrapped@[0] == w0[o as int]);
                assert(start_visual + t0 == consumed + o) by {
                    if start_visual as int - consumed >= 0 {
                        assert(start_off as int == start_visual as int - consumed);
                        assert(emitted0 == 0);
                    } else {
                        assert(start_off == 0);
                        assert(emitted0 < height as int);
                        assert(emitted0 == consumed - start_visual);
                    }
                }
                lemma_locate_at(l0, wn, gn, wrap_enabled, i, o as int, 0);
                lemma_wrap_rows_ok_row(l0[i], wn, gn, wrap_enabled, w0, o as int);
            }
            let ghost res0 = result@;
            let v = wrapped.remove(0);
            result.push(v);
            proof {
                assert(wrapped@ =~= w0.skip(start_off + e + 1));
                assert(locate(l0, wn, gn, wrap_enabled, start_visual + t0, 0) == (i, o as int));
                assert(result@[t0] == w0[o as int]);
                assert forall|t: int| 0 <= t < result@.len() implies window_row_at(
                    l0,
                    wn,
                    gn,
                    wrap_enabled,
                    start_visual as int,
                    t,
                    #[trigger] result@[t],
                ) by {
                    if t < t0 {
                        assert(result@[t] == res0[t]);
                        assert(window_row_at(
                            l0,
                            wn,
                            gn,
                            wrap_enabled,
                            start_visual as int,
                            t,
                            res0[t],
                        ));
                    } else {
                        assert(t == t0);
                        assert(is_wrap_row(l0[i], wn, gn, wrap_enabled, o as int, w0[o as int]));
                    }
                }
            }
            remaining_height = remaining_height - 1;
            e = e + 1;
        }
        proof {
            i = i + 1;
        }
    }
    proof {
        if lines@.len() == 0 {
            assert(i == l0.len());
            assert(height_from(l0, wn, gn, wrap_enabled, i) == 0);
        }
    }
    result
}

/// Per-row visual heights and offsets for the split view.
#[verifier::rlimit(100)]
pub fn compute_split_visual_row_metrics(
    left_lines: &Vec<StyledLine>,
    right_lines: &Vec<StyledLine>,
    left_width: usize,
    right_width: usize,
    gutter_width: usize,
) -> (m: VisualRowMetrics)
    requires
        left_lines@.len() == right_lines@.len(),
        lines_measurable(left_lines@),
        lines_measurable(right_lines@),
        split_total_from(
            left_lines@,
            right_lines@,
            left_width as nat,
            right_width as nat,
            gutter_width as nat,
            0,
        ) <= usize::MAX,
    ensures
        m.row_offsets@.len() == left_lines@.len(),
        m.row_heights@.len() == left_lines@.len(),
        m.total_rows as nat == split_total_from(
            left_lines@,
            right_lines@,
            left_width as nat,
            right_width as nat,
            gutter_width as nat,
            0,
        ),
        forall|q: int|
            0 <= q < left_lines@.len() ==> (#[trigger] m.row_heights@[q]) as nat == split_row_height(
                left_lines@[q],
                right_lines@[q],
                left_width as nat,
                right_width as nat,
                gutter_width as nat,
            ),
        forall|q: int|
            0 <= q < left_lines@.len() ==> (#[trigger] m.row_offsets@[q]) as int == split_total_from(
                left_lines@,
                right_lines@,
                left_width as nat,
                right_width as nat,
                gutter_width as nat,
                0,
            ) - split_total_from(
                left_lines@,
                right_lines@,
                left_width as nat,
                right_width as nat,
                gutter_width as nat,
                q,
            ),
{
    let ghost ls = left_lines@;
    let ghost rs = right_lines@;
    let ghost lwn: nat = left_width as nat;
    let ghost rwn: nat = right_width as nat;
    let ghost gn: nat = gutter_width as nat;
    let ghost total_spec: int = split_total_from(ls, rs, lwn, rwn, gn, 0) as int;
    let mut row_offsets: Vec<usize> = Vec::new();
    let mut row_heights: Vec<usize> = Vec::new();
    let mut total_rows: usize = 0;
    let mut q: usize = 0;
    proof {
        lemma_split_total_nonneg(ls, rs, lwn, rwn, gn, 0);
    }
    while q < left_lines.len()
        invariant
            ls.len() == rs.len(),
            ls == left_lines@,
            rs == right_lines@,
            lines_measurable(ls),
            lines_measurable(rs),
            0 <= q <= ls.len(),
            total_spec == split_total_from(ls, rs, lwn, rwn, gn, 0) as int,
            total_spec <= usize::MAX,
            lwn == left_width as nat,
            rwn == right_width as nat,
            gn == gutter_width as nat,
            row_offsets@.len() == q,
            row_heights@.len() == q,
            total_rows as int == total_spec - split_total_from(ls, rs, lwn, rwn, gn, q as int),
            forall|p: int|
                0 <= p < q ==> (#[trigger] row_heights@[p]) as nat == split_row_height(
                    ls[p],
                    rs[p],
                    lwn,
                    rwn,
                    gn,
                ),
            forall|p: int|
                0 <= p < q ==> (#[trigger] row_offsets@[p]) as int == total_spec
                    - split_total_from(ls, rs, lwn, rwn, gn, p),
        decreases ls.len() - q,
    {
        proof {
            assert(split_total_from(ls, rs, lwn, rwn, gn, q as int) == split_row_height(
                ls[q as int],
                rs[q as int],
                lwn,
                rwn,
                gn,
            ) + split_total_from(ls, rs, lwn, rwn, gn, q + 1));
            lemma_split_total_nonneg(ls, rs, lwn, rwn, gn, q + 1);
        }
        let lh = wrap_count_of(&left_lines[q], left_width, gutter_width, true);
        let rh = wrap_count_of(&right_lines[q], right_width, gutter_width, true);
        let row_height = if lh >= rh {
            lh
        } else {
            rh
        };
        row_offsets.push(total_rows);
        row_heights.push(row_height);
        total_rows = total_rows + row_height;
        q = q + 1;
    }
    VisualRowMetrics { row_offsets, row_heights, total_rows }
}

pub proof fn lemma_split_total_nonneg(
    ls: Seq<StyledLine>,
    rs: Seq<StyledLine>,
    lw: nat,
    rw: nat,
    gw: nat,
    i: int,
)
    ensures
        split_total_from(ls, rs, lw, rw, gw, i) >= 0,
{
}

/// Per-row visual heights and offsets for the unified view.
#[verifier::rlimit(100)]
pub fn compute_unified_visual_row_metrics(
    lines: &Vec<StyledLine>,
    width: usize,
    gutter_width: usize,
) -> (m: VisualRowMetrics)
    requires
        lines_measurable(lines@),
        height_from(lines@, width as nat, gutter_width as nat, true, 0) <= usize::MAX,
    ensures
        m.row_offsets@.len() == lines@.len(),
        m.row_heights@.len() == lines@.len(),
        m.total_rows as nat == height_from(lines@, width as nat, gutter_width as nat, true, 0),
        forall|q: int|
            0 <= q < lines@.len() ==> (#[trigger] m.row_heights@[q]) as nat == wrap_count(
                lines@[q],
                width as nat,
                gutter_width as nat,
                true,
            ),
        forall|q: int|
            0 <= q < lines@.len() ==> (#[trigger] m.row_offsets@[q]) as int == height_from(
                lines@,
                width as nat,
                gutter_width as nat,
                true,
                0,
            ) - height_from(lines@, width as nat, gutter_width as nat, true, q),
{
    let ghost ls = lines@;
    let ghost wn: nat = width as nat;
    let ghost gn: nat = gutter_width as nat;
    let ghost total_spec: int = height_from(ls, wn, gn, true, 0) as int;
    let mut row_offsets: Vec<usize> = Vec::new();
    let mut row_heights: Vec<usize> = Vec::new();
    let mut total_rows: usize = 0;
    let mut q: usize = 0;
    while q < lines.len()
        invariant
            ls == lines@,
            lines_measurable(ls),
            0 <= q <= ls.len(),
            total_spec == height_from(ls, wn, gn, true, 0) as int,
            total_spec <= usize::MAX,
            wn == width as nat,
            gn == gutter_width as nat,
            row_offsets@.len() == q,
            row_heights@.len() == q,
            total_rows as int == total_spec - height_from(ls, wn, gn, true, q as int),
            forall|p: int|
                0 <= p < q ==> (#[trigger] row_heights@[p]) as nat == wrap_count(ls[p], wn, gn, true),
            forall|p: int|
                0 <= p < q ==> (#[trigger] row_offsets@[p]) as int == total_spec - height_from(
                    ls,
                    wn,
                    gn,
                    true,
                    p,
                ),
        decreases ls.len() - q,
    {
        proof {
            assert(height_from(ls, wn, gn, true, q as int) == wrap_count(ls[q as int], wn, gn, true)
                + height_from(ls, wn, gn, true, q + 1));
        }
        let row_height = wrap_count_of(&lines[q], width, gutter_width, true);
        row_offsets.push(total_rows);
        row_heights.push(row_height);
        total_rows = total_rows + row_height;
        q = q + 1;
    }
    VisualRowMetrics { row_offsets, row_heights, total_rows }
}

} // verus!
