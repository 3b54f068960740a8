//! Small verified string helpers shared across the crate: character
//! extraction, decimal formatting, padding, lexicographic order, and the
//! one case-folding wrapper the search features rely on.

use vstd::prelude::*;

verus! {

/// Relies on `String::push`: appends exactly one character to the string.
#[verifier::external_body]
pub fn push_char(s: &mut String, c: char)
    ensures
        final(s)@ == old(s)@.push(c),
{
    s.push(c)
}

/// The characters of `s`, as a vector.
pub fn chars_of(s: &str) -> (r: Vec<char>)
    ensures
        r@ == s@,
{
    let n = s.unicode_len();
    let mut r: Vec<char> = Vec::new();
    let mut i: usize = 0;
    while i < n
        invariant
            n == s@.len(),
            i <= n,
            r@ == s@.subrange(0, i as int),
        decreases n - i,
    {
        r.push(s.get_char(i));
        i = i + 1;
        proof {
            assert(r@ =~= s@.subrange(0, i as int));
        }
    }
    proof {
        assert(r@ =~= s@);
    }
    r
}

/// A string holding exactly the characters of `v`.
pub fn string_from_chars(v: &Vec<char>) -> (r: String)
    ensures
        r@ == v@,
{
    let mut r = String::new();
    let mut i: usize = 0;
    while i < v.len()
        invariant
            i <= v@.len(),
            r@ == v@.subrange(0, i as int),
        decreases v@.len() - i,
    {
        push_char(&mut r, v[i]);
        i = i + 1;
        proof {
            assert(r@ =~= v@.subrange(0, i as int));
        }
    }
    proof {
        assert(r@ =~= v@);
    }
    r
}

/// `width` spaces.
pub open spec fn spaces(width: nat) -> Seq<char> {
    Seq::new(width, |i: int| ' ')
}

/// A string of `width` spaces.
pub fn make_spaces(width: usize) -> (r: String)
    ensures
        r@ == spaces(width as nat),
{
    let mut r = String::new();
    let mut i: usize = 0;
    while i < width
        invariant
            i <= width,
            r@ == spaces(i as nat),
        decreases width - i,
    {
        push_char(&mut r, ' ');
        i = i + 1;
        proof {
            assert(r@ =~= spaces(i as nat));
        }
    }
    r
}

/// The decimal digit character for `d` (which must be below ten).
pub open spec fn digit_char(d: nat) -> char
    recommends
        d < 10,
{
    ((d + 48) as u8) as char
}

/// Decimal digits of `n`, most significant first.
pub open spec fn dec_digits(n: nat) -> Seq<char>
    decreases n,
{
    if n < 10 {
        seq![digit_char(n)]
    } else {
        dec_digits(n / 10).push(digit_char(n % 10))
    }
}

/// Decimal rendering of `n`, as `n.to_string()` would give it.
pub fn u64_to_string(n: u64) -> (r: String)
    ensures
        r@ == dec_digits(n as nat),
    decreases n,
{
    if n < 10 {
        let d: u8 = (n as u8) + 48;
        let c: char = d as char;
        let mut r = String::new();
        push_char(&mut r, c);
        proof {
            assert(r@ =~= dec_digits(n as nat));
        }
        r
    } else {
        let mut r = u64_to_string(n / 10);
        let d: u8 = ((n % 10) as u8) + 48;
        push_char(&mut r, d as char);
        r
    }
}

/// Decimal rendering of a `u32`.
pub fn u32_to_string(n: u32) -> (r: String)
    ensures
        r@ == dec_digits(n as nat),
{
    u64_to_string(n as u64)
}

/// Decimal rendering of a `usize`.
pub fn usize_to_string(n: usize) -> (r: String)
    ensures
        r@ == dec_digits(n as nat),
{
    u64_to_string(n as u64)
}

/// `s` right-aligned to `width` with spaces; longer strings are unchanged.
pub open spec fn right_align(s: Seq<char>, width: nat) -> Seq<char> {
    if s.len() >= width {
        s
    } else {
        spaces((width - s.len()) as nat) + s
    }
}

/// Right-align `s` in a field of `width` characters.
pub fn right_align_string(s: String, width: usize) -> (r: String)
    ensures
        r@ == right_align(s@, width as nat),
{
    let n = s.as_str().unicode_len();
    if n >= width {
        s
    } else {
        let mut r = make_spaces(width - n);
        r.append(s.as_str());
        r
    }
}

/// Lexicographic order on character sequences, by code point.
pub open spec fn seq_lt(a: Seq<char>, b: Seq<char>) -> bool
    decreases a.len(),
{
    if b.len() == 0 {
        false
    } else if a.len() == 0 {
        true
    } else if a[0] < b[0] {
        true
    } else if b[0] < a[0] {
        false
    } else {
        seq_lt(a.skip(1), b.skip(1))
    }
}

/// Non-strict companion of `seq_lt`.
pub open spec fn seq_le(a: Seq<char>, b: Seq<char>) -> bool {
    seq_lt(a, b) || a == b
}

/// Lexicographic order is irreflexive and asymmetric.
pub proof fn lemma_seq_lt_asym(a: Seq<char>, b: Seq<char>)
    ensures
        seq_lt(a, b) ==> !seq_lt(b, a),
        !seq_lt(a, a),
    decreases a.len() + b.len(),
{
    if a.len() > 0 && b.len() > 0 {
        lemma_seq_lt_asym(a.skip(1), b.skip(1));
    } else if a.len() > 0 {
        lemma_seq_lt_asym(a.skip(1), b);
    }
}

/// Any two character sequences are ordered or equal.
pub proof fn lemma_seq_lt_total(a: Seq<char>, b: Seq<char>)
    ensures
        seq_lt(a, b) || seq_lt(b, a) || a == b,
    decreases a.len(),
{
    if a.len() == 0 && b.len() == 0 {
        assert(a =~= b);
    } else if a.len() > 0 && b.len() > 0 {
        if !(a[0] < b[0]) && !(b[0] < a[0]) {
            assert(a[0] == b[0]);
            lemma_seq_lt_total(a.skip(1), b.skip(1));
            if a.skip(1) == b.skip(1) {
                assert(a.skip(1).len() == a.len() - 1);
                assert(b.skip(1).len() == b.len() - 1);
                assert(a.len() == b.len());
                assert forall|i: int| 0 <= i < a.len() implies a[i] == b[i] by {
                    if i >= 1 {
                        assert(a.skip(1)[i - 1] == a[i]);
                        assert(b.skip(1)[i - 1] == b[i]);
                    }
                }
                assert(a =~= b);
            }
        }
    }
}

/// Lexicographic order is transitive.
pub proof fn lemma_seq_lt_trans(a: Seq<char>, b: Seq<char>, c: Seq<char>)
    requires
        seq_lt(a, b),
        seq_lt(b, c),
    ensures
        seq_lt(a, c),
    decreases a.len() + b.len() + c.len(),
{
    if c.len() == 0 {
    } else if b.len() == 0 {
    } else if a.len() == 0 {
    } else {
        if a[0] < b[0] {
            if b[0] < c[0] {
            } else if c[0] < b[0] {
                assert(!seq_lt(b, c));
            } else {
                assert(a[0] < c[0]);
            }
        } else if b[0] < a[0] {
            assert(!seq_lt(a, b));
        } else {
            if b[0] < c[0] {
                assert(a[0] < c[0]);
            } else if c[0] < b[0] {
                assert(!seq_lt(b, c));
            } else {
                lemma_seq_lt_trans(a.skip(1), b.skip(1), c.skip(1));
            }
        }
    }
}

/// Whether `a` comes strictly before `b` in lexicographic order.
pub fn str_lt(a: &str, b: &str) -> (r: bool)
    ensures
        r == seq_lt(a@, b@),
{
    let an = a.unicode_len();
    let bn = b.unicode_len();
    let mut i: usize = 0;
    proof {
        assert(a@.skip(0) =~= a@);
        assert(b@.skip(0) =~= b@);
    }
    loop
        invariant
            an == a@.len(),
            bn == b@.len(),
            i <= an,
            i <= bn,
            a@.subrange(0, i as int) == b@.subrange(0, i as int),
            seq_lt(a@, b@) == seq_lt(a@.skip(i as int), b@.skip(i as int)),
        decreases an - i,
    {
        if i >= bn {
            proof {
                assert(b@.skip(i as int).len() == 0);
            }
            return false;
        }
        if i >= an {
            proof {
                assert(a@.skip(i as int).len() == 0);
                assert(b@.skip(i as int).len() > 0);
            }
            return true;
        }
        let ac = a.get_char(i);
        let bc = b.get_char(i);
        if ac < bc {
            proof {
                assert(a@.skip(i as int)[0] == ac);
                assert(b@.skip(i as int)[0] == bc);
            }
            return true;
        }
        if bc < ac {
            proof {
                assert(a@.skip(i as int)[0] == ac);
                assert(b@.skip(i as int)[0] == bc);
            }
            return false;
        }
        proof {
            assert(ac == bc);
            assert(a@.skip(i as int)[0] == ac);
            assert(b@.skip(i as int)[0] == bc);
            assert(a@.skip(i as int).skip(1) =~= a@.skip(i as int + 1));
            assert(b@.skip(i as int).skip(1) =~= b@.skip(i as int + 1));
            assert(a@.subrange(0, i as int + 1) =~= b@.subrange(0, i as int + 1));
        }
        i = i + 1;
    }
}

/// Whether `a` and `b` hold the same characters.
pub fn str_eq(a: &str, b: &str) -> (r: bool)
    ensures
        r == (a@ == b@),
{
    let an = a.unicode_len();
    let bn = b.unicode_len();
    if an != bn {
        proof {
            assert(a@ != b@) by {
                assert(a@.len() != b@.len());
            }
        }
        return false;
    }
    let mut i: usize = 0;
    while i < an
        invariant
            an == a@.len(),
            bn == b@.len(),
            an == bn,
            i <= an,
            a@.subrange(0, i as int) == b@.subrange(0, i as int),
        decreases an - i,
    {
        let ac = a.get_char(i);
        let bc = b.get_char(i);
        if ac != bc {
            proof {
                assert(a@[i as int] != b@[i as int]);
            }
            return false;
        }
        proof {
            assert(ac == bc);
            assert(a@.subrange(0, i as int + 1) =~= b@.subrange(0, i as int + 1));
        }
        i = i + 1;
    }
    proof {
        assert(a@ =~= a@.subrange(0, an as int));
        assert(b@ =~= b@.subrange(0, bn as int));
        assert(a@ =~= b@);
    }
    true
}

/// What `str::to_lowercase` returns: a pure function of the characters.
pub uninterp spec fn lower_of(s: Seq<char>) -> Seq<char>;

/// Relies on `str::to_lowercase`: Unicode lowercasing, a function of the
/// characters alone.
#[verifier::external_body]
pub fn to_lowercase(s: &str) -> (r: String)
    ensures
        r@ == lower_of(s@),
{
    s.to_lowercase()
}

} // verus!
