//! A small editable text buffer with a cursor, as used by the search and
//! comment inputs. The buffer is modelled as a character sequence with a
//! cursor position in character space.

use vstd::prelude::*;

use crate::strutil::string_from_chars;

verus! {

/// The White_Space characters, as Unicode defines them.
pub open spec fn is_whitespace_char(c: char) -> bool {
    ||| c == '\u{9}'
    ||| c == '\u{a}'
    ||| c == '\u{b}'
    ||| c == '\u{c}'
    ||| c == '\u{d}'
    ||| c == ' '
    ||| c == '\u{85}'
    ||| c == '\u{a0}'
    ||| c == '\u{1680}'
    ||| ('\u{2000}' <= c && c <= '\u{200a}')
    ||| c == '\u{2028}'
    ||| c == '\u{2029}'
    ||| c == '\u{202f}'
    ||| c == '\u{205f}'
    ||| c == '\u{3000}'
}

/// Whether `c` is a White_Space character.
pub fn is_whitespace(c: char) -> (r: bool)
    ensures
        r == is_whitespace_char(c),
{
    c == '\u{9}' || c == '\u{a}' || c == '\u{b}' || c == '\u{c}' || c == '\u{d}' || c == ' ' || c
        == '\u{85}' || c == '\u{a0}' || c == '\u{1680}' || ('\u{2000}' <= c && c <= '\u{200a}') || c
        == '\u{2028}' || c == '\u{2029}' || c == '\u{202f}' || c == '\u{205f}' || c == '\u{3000}'
}

/// Length of `s` once trailing whitespace is dropped.
pub open spec fn trim_end_len(s: Seq<char>) -> int
    decreases s.len(),
{
    if s.len() == 0 {
        0
    } else if is_whitespace_char(s[s.len() - 1]) {
        trim_end_len(s.drop_last())
    } else {
        s.len() as int
    }
}

/// One past the last whitespace character of `s`, or zero.
pub open spec fn after_last_ws(s: Seq<char>) -> int
    decreases s.len(),
{
    if s.len() == 0 {
        0
    } else if is_whitespace_char(s[s.len() - 1]) {
        s.len() as int
    } else {
        after_last_ws(s.drop_last())
    }
}

pub proof fn lemma_trim_end_len_bounds(s: Seq<char>)
    ensures
        0 <= trim_end_len(s) <= s.len(),
    decreases s.len(),
{
    if s.len() > 0 && is_whitespace_char(s[s.len() - 1]) {
        lemma_trim_end_len_bounds(s.drop_last());
    }
}

pub proof fn lemma_after_last_ws_bounds(s: Seq<char>)
    ensures
        0 <= after_last_ws(s) <= s.len(),
    decreases s.len(),
{
    if s.len() > 0 && !is_whitespace_char(s[s.len() - 1]) {
        lemma_after_last_ws_bounds(s.drop_last());
    }
}

/// Where a backward word delete from the end of `before` stops: skip the
/// trailing whitespace, then go back to just after the next whitespace.
pub open spec fn word_start_of(before: Seq<char>) -> int {
    after_last_ws(before.take(trim_end_len(before)))
}

/// `s` with its trailing whitespace dropped.
pub fn trim_end_str(s: &str) -> (r: String)
    ensures
        r@ == s@.take(trim_end_len(s@)),
{
    let chars = crate::strutil::chars_of(s);
    let mut t = chars.len();
    proof {
        assert(s@.take(t as int) =~= s@);
    }
    while t > 0 && is_whitespace(chars[t - 1])
        invariant
            t <= chars@.len(),
            chars@ == s@,
            trim_end_len(s@) == trim_end_len(s@.take(t as int)),
        decreases t,
    {
        proof {
            let p = s@.take(t as int);
            assert(p[p.len() - 1] == s@[t - 1]);
            assert(p.drop_last() =~= s@.take(t - 1));
        }
        t = t - 1;
    }
    proof {
        let p = s@.take(t as int);
        if t > 0 {
            assert(p[p.len() - 1] == s@[t - 1]);
        }
        assert(trim_end_len(p) == p.len());
        assert(trim_end_len(s@) == t);
    }
    let mut out: Vec<char> = Vec::new();
    let mut i: usize = 0;
    while i < t
        invariant
            i <= t <= chars@.len(),
            chars@ == s@,
            out@ == s@.subrange(0, i as int),
        decreases t - i,
    {
        out.push(chars[i]);
        i = i + 1;
        proof {
            assert(out@ =~= s@.subrange(0, i as int));
        }
    }
    string_from_chars(&out)
}

/// An editable line of text with a cursor, in character space.
#[derive(Debug)]
pub struct TextBuffer {
    chars: Vec<char>,
    /// Cursor position, always within `0 ..= chars.len()`.
    cursor: usize,
}

impl TextBuffer {
    /// The characters the buffer holds.
    pub closed spec fn text_spec(&self) -> Seq<char> {
        self.chars@
    }

    /// The cursor, as a character index.
    pub closed spec fn cursor_spec(&self) -> int {
        self.cursor as int
    }

    /// The cursor never leaves the text.
    pub closed spec fn wf(&self) -> bool {
        self.cursor <= self.chars@.len()
    }

    /// What well-formedness means for callers: the cursor is a valid
    /// character index into the text.
    pub proof fn lemma_wf_bounds(&self)
        requires
            self.wf(),
        ensures
            0 <= self.cursor_spec() <= self.text_spec().len(),
    {
    }

    /// An empty buffer with the cursor at the start.
    pub fn new() -> (r: TextBuffer)
        ensures
            r.text_spec() == Seq::<char>::empty(),
            r.cursor_spec() == 0,
            r.wf(),
    {
        TextBuffer { chars: Vec::new(), cursor: 0 }
    }

    /// A buffer pre-filled with `s`, cursor at the end.
    pub fn from(s: &str) -> (r: TextBuffer)
        ensures
            r.text_spec() == s@,
            r.cursor_spec() == s@.len(),
            r.wf(),
    {
        let chars = crate::strutil::chars_of(s);
        let cursor = chars.len();
        TextBuffer { chars, cursor }
    }

    /// The text as a string.
    pub fn text(&self) -> (r: String)
        ensures
            r@ == self.text_spec(),
    {
        string_from_chars(&self.chars)
    }

    /// Whether the buffer holds no text.
    pub fn is_empty(&self) -> (r: bool)
        ensures
            r == (self.text_spec().len() == 0),
    {
        self.chars.len() == 0
    }

    /// Drop all text and reset the cursor.
    pub fn clear(&mut self)
        ensures
            final(self).text_spec() == Seq::<char>::empty(),
            final(self).cursor_spec() == 0,
            final(self).wf(),
    {
        self.chars.clear();
        self.cursor = 0;
    }

    /// Replace the entire text, cursor at the end.
    pub fn set(&mut self, s: &str)
        ensures
            final(self).text_spec() == s@,
            final(self).cursor_spec() == s@.len(),
            final(self).wf(),
    {
        self.chars = crate::strutil::chars_of(s);
        self.cursor = self.chars.len();
    }

    /// The cursor as a character index, for rendering.
    pub fn cursor_char_index(&self) -> (r: usize)
        ensures
            r == self.cursor_spec(),
    {
        self.cursor
    }

    /// Insert a character at the cursor position.
    pub fn insert_char(&mut self, c: char)
        requires
            old(self).wf(),
            old(self).text_spec().len() < usize::MAX,
        ensures
            final(self).text_spec() == old(self).text_spec().insert(old(self).cursor_spec(), c),
            final(self).cursor_spec() == old(self).cursor_spec() + 1,
            final(self).wf(),
    {
        self.chars.insert(self.cursor, c);
        self.cursor = self.cursor + 1;
    }

    /// Delete the character before the cursor, if any.
    pub fn delete_back(&mut self)
        requires
            old(self).wf(),
        ensures
            old(self).cursor_spec() == 0 ==> *final(self) == *old(self),
            old(self).cursor_spec() > 0 ==> {
                &&& final(self).text_spec() == old(self).text_spec().remove(
                    old(self).cursor_spec() - 1,
                )
                &&& final(self).cursor_spec() == old(self).cursor_spec() - 1
            },
            final(self).wf(),
    {
        if self.cursor == 0 {
            return ;
        }
        self.chars.remove(self.cursor - 1);
        self.cursor = self.cursor - 1;
    }

    /// Delete the word before the cursor, shell style: skip trailing
    /// whitespace, then delete back to just after the next whitespace.
    pub fn delete_word_back(&mut self)
        requires
            old(self).wf(),
        ensures
            ({
                let before = old(self).text_spec().take(old(self).cursor_spec());
                let ws = word_start_of(before);
                &&& final(self).text_spec() == before.take(ws) + old(self).text_spec().skip(
                    old(self).cursor_spec(),
                )
                &&& final(self).cursor_spec() == ws
                &&& final(self).wf()
            }),
    {
        let ghost before = self.chars@.take(self.cursor as int);
        proof {
            lemma_trim_end_len_bounds(before);
            lemma_after_last_ws_bounds(before.take(trim_end_len(before)));
        }
        // Skip the trailing whitespace before the cursor.
        let mut t = self.cursor;
        proof {
            assert(before.take(t as int) =~= before);
        }
        while t > 0 && is_whitespace(self.chars[t - 1])
            invariant
                t <= self.cursor,
                old(self) == self,
                self.cursor <= self.chars@.len(),
                before == self.chars@.take(self.cursor as int),
                trim_end_len(before) == trim_end_len(before.take(t as int)),
            decreases t,
        {
            proof {
                let p = before.take(t as int);
                assert(p[p.len() - 1] == self.chars@[t - 1]);
                assert(p.drop_last() =~= before.take(t - 1));
            }
            t = t - 1;
        }
        proof {
            let p = before.take(t as int);
            if t > 0 {
                assert(p[p.len() - 1] == self.chars@[t - 1]);
            }
            assert(trim_end_len(p) == p.len());
            assert(trim_end_len(before) == t);
        }
        // Find the start of the word.
        let ghost trimmed = before.take(trim_end_len(before));
        let mut w = t;
        proof {
            assert(trimmed.take(w as int) =~= trimmed);
        }
        while w > 0 && !is_whitespace(self.chars[w - 1])
            invariant
                w <= t,
                t <= self.cursor,
                old(self) == self,
                self.cursor <= self.chars@.len(),
                before == self.chars@.take(self.cursor as int),
                trimmed == before.take(t as int),
                after_last_ws(trimmed) == after_last_ws(trimmed.take(w as int)),
            decreases w,
        {
            proof {
                let p = trimmed.take(w as int);
                assert(p[p.len() - 1] == self.chars@[w - 1]);
                assert(p.drop_last() =~= trimmed.take(w - 1));
            }
            w = w - 1;
        }
        proof {
            let p = trimmed.take(w as int);
            if w > 0 {
                assert(p[p.len() - 1] == self.chars@[w - 1]);
                assert(after_last_ws(p) == p.len());
            }
            assert(after_last_ws(trimmed) == w);
            assert(word_start_of(before) == w);
        }
        // Drain `[w, cursor)`.
        let ghost chars0 = self.chars@;
        let ghost cur0 = self.cursor as int;
        let mut kept: Vec<char> = Vec::new();
        let mut i: usize = 0;
        while i < w
            invariant
                i <= w,
                w <= chars0.len(),
                chars0 == self.chars@,
                kept@ == chars0.take(i as int),
            decreases w - i,
        {
            kept.push(self.chars[i]);
            i = i + 1;
            proof {
                assert(kept@ =~= chars0.take(i as int));
            }
        }
        let mut j = self.cursor;
        while j < self.chars.len()
            invariant
                cur0 <= j <= chars0.len(),
                w <= cur0,
                chars0 == self.chars@,
                self.cursor as int == cur0,
                kept@ == chars0.take(w as int) + chars0.subrange(cur0, j as int),
            decreases chars0.len() - j,
        {
            kept.push(self.chars[j]);
            j = j + 1;
            proof {
                assert(kept@ =~= chars0.take(w as int) + chars0.subrange(cur0, j as int));
            }
        }
        self.chars = kept;
        self.cursor = w;
        proof {
            assert(before.take(w as int) =~= chars0.take(w as int));
            assert(chars0.subrange(cur0, chars0.len() as int) =~= chars0.skip(cur0));
            assert(self.chars@ =~= before.take(w as int) + chars0.skip(cur0));
        }
    }

    /// Move the cursor one character left.
    pub fn move_left(&mut self)
        requires
            old(self).wf(),
        ensures
            final(self).text_spec() == old(self).text_spec(),
            final(self).cursor_spec() == (if old(self).cursor_spec() > 0 {
                old(self).cursor_spec() - 1
            } else {
                0int
            }),
            final(self).wf(),
    {
        if self.cursor > 0 {
            self.cursor = self.cursor - 1;
        }
    }

    /// Move the cursor one character right.
    pub fn move_right(&mut self)
        requires
            old(self).wf(),
        ensures
            final(self).text_spec() == old(self).text_spec(),
            final(self).cursor_spec() == (if old(self).cursor_spec() < old(
                self,
            ).text_spec().len() {
                old(self).cursor_spec() + 1
            } else {
                old(self).cursor_spec()
            }),
            final(self).wf(),
    {
        if self.cursor < self.chars.len() {
            self.cursor = self.cursor + 1;
        }
    }

    /// Move the cursor to the start of the text.
    pub fn move_home(&mut self)
        ensures
            final(self).text_spec() == old(self).text_spec(),
            final(self).cursor_spec() == 0,
            final(self).wf(),
    {
        self.cursor = 0;
    }

    /// Move the cursor to the end of the text.
    pub fn move_end(&mut self)
        ensures
            final(self).text_spec() == old(self).text_spec(),
            final(self).cursor_spec() == old(self).text_spec().len(),
            final(self).wf(),
    {
        self.cursor = self.chars.len();
    }
}

} // verus!
