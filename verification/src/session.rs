//! Where a session file lives and how stored annotation records are
//! interpreted. Reading and writing the files is the storage
//! collaborator's business; the naming scheme and the record upgrade
//! rules are pure and live here.

use vstd::prelude::*;

use crate::strutil::push_char;
use crate::strutil::chars_of;
use crate::strutil::string_from_chars;

verus! {

/// Characters a target label may not carry into a file name.
pub open spec fn sanitized_char(c: char) -> char {
    if c == '/' || c == '\\' || c == ':' || c == ' ' {
        '_'
    } else {
        c
    }
}

/// The target label with path-hostile characters replaced by `_`.
pub open spec fn sanitized(label: Seq<char>) -> Seq<char> {
    label.map(|i: int, c: char| sanitized_char(c))
}

/// Replace `/`, `\`, `:` and spaces in a target label by underscores.
pub fn sanitize_target_label(label: &str) -> (r: String)
    ensures
        r@ == sanitized(label@),
{
    let chars = chars_of(label);
    let mut out: Vec<char> = Vec::new();
    let mut i: usize = 0;
    while i < chars.len()
        invariant
            i <= chars@.len(),
            chars@ == label@,
            out@ == sanitized(label@).take(i as int),
        decreases chars@.len() - i,
    {
        let c = chars[i];
        if c == '/' || c == '\\' || c == ':' || c == ' ' {
            out.push('_');
        } else {
            out.push(c);
        }
        i = i + 1;
        proof {
            assert(out@ =~= sanitized(label@).take(i as int));
        }
    }
    proof {
        assert(out@ =~= sanitized(label@));
    }
    string_from_chars(&out)
}

/// The session directory below a repository root.
pub fn session_dir(repo_path: &str) -> (r: String)
    ensures
        r@ == repo_path@ + "/.mdiff"@,
{
    let mut r = repo_path.to_owned();
    r.append("/.mdiff");
    r
}

/// The session file for one comparison target below a repository root.
pub fn session_file(repo_path: &str, target_label: &str) -> (r: String)
    ensures
        r@ == repo_path@ + "/.mdiff"@ + "/session_"@ + sanitized(target_label@) + ".json"@,
{
    let mut r = session_dir(repo_path);
    r.append("/session_");
    r.append(sanitize_target_label(target_label).as_str());
    r.append(".json");
    r
}

/// Abbreviate a path below the home directory to `~/...`; other paths
/// come back unchanged.
pub fn abbreviate_path(path: &str, home: Option<&str>) -> (r: String)
    ensures
        ({
            match home {
                Some(h) => {
                    if path@ == h@ {
                        r@ == "~/"@
                    } else if path@.len() > h@.len() && path@.take(h@.len() as int) == h@
                        && path@[h@.len() as int] == '/' {
                        r@ == "~/"@ + path@.skip(h@.len() as int + 1)
                    } else {
                        r@ == path@
                    }
                },
                None => r@ == path@,
            }
        }),
{
    let h = match home {
        Some(h) => h,
        None => {
            return path.to_owned();
        },
    };
    let pc = chars_of(path);
    let hc = chars_of(h);
    let pn = pc.len();
    let hn = hc.len();
    if pn < hn {
        proof {
            assert(path@ != h@);
            assert(!(path@.len() > h@.len()));
        }
        return path.to_owned();
    }
    let mut i: usize = 0;
    while i < hn
        invariant
            home == Some(h),
            pc@ == path@,
            hc@ == h@,
            pn == path@.len(),
            hn == h@.len(),
            hn <= pn,
            i <= hn,
            forall|q: int| 0 <= q < i ==> path@[q] == h@[q],
        decreases hn - i,
    {
        if pc[i] != hc[i] {
            proof {
                assert(path@[i as int] != h@[i as int]);
                if path@ == h@ {
                    assert(false);
                }
                if path@.take(h@.len() as int) == h@ {
                    assert(path@.take(h@.len() as int)[i as int] == h@[i as int]);
                    assert(false);
                }
            }
            return path.to_owned();
        }
        i = i + 1;
    }
    proof {
        assert(path@.take(h@.len() as int) =~= h@);
    }
    if pn == hn {
        proof {
            assert(path@ =~= h@);
        }
        return String::from_str("~/");
    }
    if pc[hn] != '/' {
        proof {
            assert(path@ != h@) by {
                assert(path@.len() != h@.len());
            }
        }
        return path.to_owned();
    }
    let mut r = String::from_str("~/");
    let mut j = hn + 1;
    while j < pn
        invariant
            pc@ == path@,
            pn == path@.len(),
            hn + 1 <= j <= pn,
            r@ == "~/"@ + path@.subrange(hn + 1, j as int),
        decreases pn - j,
    {
        push_char(&mut r, pc[j]);
        j = j + 1;
        proof {
            assert(r@ =~= "~/"@ + path@.subrange(hn + 1, j as int));
        }
    }
    proof {
        assert(path@.subrange(hn + 1, pn as int) =~= path@.skip(hn + 1));
        assert(path@ != h@) by {
            assert(path@.len() != h@.len());
        }
    }
    r
}

/// Whether a stored session matches what the loader asked for: a known
/// format version and the same target label.
pub fn session_accepted(version: u32, stored_label: &str, target_label: &str) -> (r: bool)
    ensures
        r == ((version == 1 || version == 2) && stored_label@ == target_label@),
{
    (version == 1 || version == 2) && crate::strutil::str_eq(stored_label, target_label)
}

/// The anchor ranges a stored record stands for. A version-1 record has
/// one inclusive range without an old/new distinction: it is upgraded to
/// a new-range-only anchor, the start defaulting to line one and the end
/// to the start. A version-2 record carries both ranges explicitly, each
/// present only when both of its bounds are.
pub fn migrate_entry_ranges(
    version: u32,
    old_start: Option<u32>,
    old_end: Option<u32>,
    new_start: Option<u32>,
    new_end: Option<u32>,
    line_start: Option<u32>,
    line_end: Option<u32>,
) -> (r: (Option<(u32, u32)>, Option<(u32, u32)>))
    ensures
        version == 1 ==> {
            let ls = match line_start {
                Some(v) => v,
                None => 1u32,
            };
            let le = match line_end {
                Some(v) => v,
                None => ls,
            };
            r == (None::<(u32, u32)>, Some((ls, le)))
        },
        version != 1 ==> {
            let o = match (old_start, old_end) {
                (Some(a), Some(b)) => Some((a, b)),
                _ => None,
            };
            let n = match (new_start, new_end) {
                (Some(a), Some(b)) => Some((a, b)),
                _ => None,
            };
            r == (o, n)
        },
{
    if version == 1 {
        let ls = match line_start {
            Some(v) => v,
            None => 1,
        };
        let le = match line_end {
            Some(v) => v,
            None => ls,
        };
        (None, Some((ls, le)))
    } else {
        let o = match (old_start, old_end) {
            (Some(a), Some(b)) => Some((a, b)),
            _ => None,
        };
        let n = match (new_start, new_end) {
            (Some(a), Some(b)) => Some((a, b)),
            _ => None,
        };
        (o, n)
    }
}

} // verus!
