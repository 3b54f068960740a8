//! Syntax-highlighting support data: mapping a file path to a language
//! name and the ordered list of highlight capture names. Building the
//! actual grammar configurations is the highlighting collaborator's
//! business.

use vstd::prelude::*;

use crate::strutil::str_eq;
use crate::strutil::string_from_chars;

verus! {

/// The language a known file extension belongs to.
pub open spec fn language_of_extension(ext: Seq<char>) -> Option<Seq<char>> {
    if ext == "rs"@ {
        Some("rust"@)
    } else if ext == "js"@ || ext == "jsx"@ || ext == "mjs"@ || ext == "cjs"@ {
        Some("javascript"@)
    } else if ext == "ts"@ || ext == "tsx"@ {
        Some("typescript"@)
    } else if ext == "py"@ || ext == "pyi"@ {
        Some("python"@)
    } else if ext == "json"@ || ext == "jsonc"@ {
        Some("json"@)
    } else if ext == "toml"@ {
        Some("toml"@)
    } else if ext == "css"@ {
        Some("css"@)
    } else if ext == "html"@ || ext == "htm"@ {
        Some("html"@)
    } else if ext == "go"@ {
        Some("go"@)
    } else if ext == "rb"@ || ext == "rake"@ || ext == "gemspec"@ {
        Some("ruby"@)
    } else if ext == "sh"@ || ext == "bash"@ || ext == "zsh"@ {
        Some("bash"@)
    } else if ext == "yml"@ || ext == "yaml"@ {
        Some("yaml"@)
    } else {
        None
    }
}

/// The language a well-known file name belongs to.
pub open spec fn language_of_filename(name: Seq<char>) -> Option<Seq<char>> {
    if name == "Makefile"@ || name == "makefile"@ || name == "GNUmakefile"@ || name
        == "Dockerfile"@ {
        Some("bash"@)
    } else if name == "Gemfile"@ || name == "Rakefile"@ {
        Some("ruby"@)
    } else {
        None
    }
}

/// The language a known extension maps to, or `None`.
pub fn lookup_extension(ext: &str) -> (r: Option<&'static str>)
    ensures
        r matches Some(l) ==> Some(l@) == language_of_extension(ext@),
        r is None ==> language_of_extension(ext@) is None,
{
    if str_eq(ext, "rs") {
        Some("rust")
    } else if str_eq(ext, "js") || str_eq(ext, "jsx") || str_eq(ext, "mjs") || str_eq(ext, "cjs") {
        Some("javascript")
    } else if str_eq(ext, "ts") || str_eq(ext, "tsx") {
        Some("typescript")
    } else if str_eq(ext, "py") || str_eq(ext, "pyi") {
        Some("python")
    } else if str_eq(ext, "json") || str_eq(ext, "jsonc") {
        Some("json")
    } else if str_eq(ext, "toml") {
        Some("toml")
    } else if str_eq(ext, "css") {
        Some("css")
    } else if str_eq(ext, "html") || str_eq(ext, "htm") {
        Some("html")
    } else if str_eq(ext, "go") {
        Some("go")
    } else if str_eq(ext, "rb") || str_eq(ext, "rake") || str_eq(ext, "gemspec") {
        Some("ruby")
    } else if str_eq(ext, "sh") || str_eq(ext, "bash") || str_eq(ext, "zsh") {
        Some("bash")
    } else if str_eq(ext, "yml") || str_eq(ext, "yaml") {
        Some("yaml")
    } else {
        None
    }
}

/// The file-name part of a path: everything after the last `/`.
pub open spec fn file_name_of(path: Seq<char>) -> Seq<char>
    decreases path.len(),
{
    if path.len() == 0 {
        path
    } else if path[path.len() - 1] == '/' {
        Seq::empty()
    } else {
        file_name_of(path.drop_last()).push(path[path.len() - 1])
    }
}

/// The extension of a file name: what follows the last dot, provided the
/// dot is not the leading character.
pub open spec fn extension_of(name: Seq<char>) -> Option<Seq<char>>
    decreases name.len(),
{
    if name.len() <= 1 {
        None
    } else if name[name.len() - 1] == '.' {
        None
    } else {
        extension_suffix(name, name.len() - 1)
    }
}

/// The suffix of `name` after the last dot strictly before `e`, when one
/// exists past position zero.
pub open spec fn extension_suffix(name: Seq<char>, e: int) -> Option<Seq<char>>
    decreases e,
{
    if e <= 0 {
        None
    } else if name[e - 1] == '.' {
        if e - 1 == 0 {
            None
        } else {
            Some(name.subrange(e, name.len() as int))
        }
    } else {
        extension_suffix(name, e - 1)
    }
}

/// Detect the language of a file from its extension, falling back to a
/// few well-known file names.
pub fn detect_language(path: &str) -> (r: Option<&'static str>)
    ensures
        ({
            let name = file_name_of(path@);
            let by_ext = match extension_of(name) {
                Some(e) => language_of_extension(e),
                None => None,
            };
            match by_ext {
                Some(l) => r matches Some(x) && x@ == l,
                None => match language_of_filename(name) {
                    Some(l) => r matches Some(x) && x@ == l,
                    None => r is None,
                },
            }
        }),
{
    let chars = crate::strutil::chars_of(path);
    // File name: everything after the last '/'.
    let mut start = chars.len();
    proof {
        assert(path@.take(path@.len() as int) =~= path@);
        assert(path@.skip(path@.len() as int) =~= Seq::<char>::empty());
        assert(file_name_of(path@) =~= file_name_of(path@.take(start as int)) + path@.skip(
            start as int,
        ));
    }
    while start > 0 && chars[start - 1] != '/'
        invariant
            start <= chars@.len(),
            chars@ == path@,
            file_name_of(path@) == file_name_of(path@.take(start as int)) + path@.skip(
                start as int,
            ),
        decreases start,
    {
        start = start - 1;
        proof {
            lemma_file_name_step(path@, start as int);
            assert(file_name_of(path@.take(start as int)).push(path@[start as int]) + path@.skip(
                start + 1,
            ) =~= file_name_of(path@.take(start as int)) + path@.skip(start as int));
        }
    }
    proof {
        if start > 0 {
            assert(file_name_of(path@.take(start as int)) =~= Seq::<char>::empty()) by {
                assert(path@.take(start as int)[start - 1] == '/');
            }
        } else {
            assert(path@.take(0) =~= Seq::<char>::empty());
        }
        assert(file_name_of(path@) =~= path@.skip(start as int));
    }
    let name_vec = copy_range(&chars, start, chars.len());
    proof {
        assert(name_vec@ =~= path@.skip(start as int));
    }
    let name = string_from_chars(&name_vec);
    // Extension: what follows the last dot, unless it leads the name.
    let n = name_vec.len();
    let ghost nm = name_vec@;
    let ext: Option<String> = if n <= 1 || name_vec[n - 1] == '.' {
        None
    } else {
        let mut e = n - 1;
        while e > 0 && name_vec[e - 1] != '.'
            invariant
                0 <= e <= n - 1,
                n == nm.len(),
                nm == name_vec@,
                n > 1,
                nm[n - 1] != '.',
                extension_of(nm) == extension_suffix(nm, e as int),
            decreases e,
        {
            e = e - 1;
        }
        if e == 0 {
            None
        } else if e == 1 {
            None
        } else {
            let ev = copy_range(&name_vec, e, n);
            proof {
                assert(ev@ =~= nm.subrange(e as int, nm.len() as int));
            }
            Some(string_from_chars(&ev))
        }
    };
    match ext {
        Some(e) => {
            match lookup_extension(e.as_str()) {
                Some(l) => Some(l),
                None => lookup_filename(name.as_str()),
            }
        },
        None => lookup_filename(name.as_str()),
    }
}

/// The language a well-known file name maps to, or `None`.
fn lookup_filename(name: &str) -> (r: Option<&'static str>)
    ensures
        r matches Some(l) ==> Some(l@) == language_of_filename(name@),
        r is None ==> language_of_filename(name@) is None,
{
    if str_eq(name, "Makefile") || str_eq(name, "makefile") || str_eq(name, "GNUmakefile") || str_eq(
        name,
        "Dockerfile",
    ) {
        Some("bash")
    } else if str_eq(name, "Gemfile") || str_eq(name, "Rakefile") {
        Some("ruby")
    } else {
        None
    }
}

/// The characters `[from, to)` of `v`.
fn copy_range(v: &Vec<char>, from: usize, to: usize) -> (r: Vec<char>)
    requires
        from <= to <= v@.len(),
    ensures
        r@ == v@.subrange(from as int, to as int),
{
    let mut r: Vec<char> = Vec::new();
    let mut i = from;
    while i < to
        invariant
            from <= i <= to <= v@.len(),
            r@ == v@.subrange(from as int, i as int),
        decreases to - i,
    {
        r.push(v[i]);
        i = i + 1;
        proof {
            assert(r@ =~= v@.subrange(from as int, i as int));
        }
    }
    r
}

proof fn lemma_file_name_step(path: Seq<char>, start: int)
    requires
        0 <= start < path.len(),
        path[start] != '/',
    ensures
        file_name_of(path.take(start + 1)) == file_name_of(path.take(start)).push(path[start]),
{
    let p = path.take(start + 1);
    assert(p[p.len() - 1] == path[start]);
    assert(p.drop_last() =~= path.take(start));
}

/// All recognized highlight capture names, in tree-sitter order: the
/// index into this list is the highlight id.
pub fn highlight_names_vec() -> (r: Vec<String>)
    ensures
        r@.len() == 26,
        r@[0]@ == "attribute"@,
        r@[1]@ == "comment"@,
        r@[2]@ == "constant"@,
        r@[3]@ == "constant.builtin"@,
        r@[4]@ == "constructor"@,
        r@[5]@ == "escape"@,
        r@[6]@ == "function"@,
        r@[7]@ == "function.builtin"@,
        r@[8]@ == "function.method"@,
        r@[9]@ == "keyword"@,
        r@[10]@ == "label"@,
        r@[11]@ == "number"@,
        r@[12]@ == "operator"@,
        r@[13]@ == "property"@,
        r@[14]@ == "punctuation"@,
        r@[15]@ == "punctuation.bracket"@,
        r@[16]@ == "punctuation.delimiter"@,
        r@[17]@ == "punctuation.special"@,
        r@[18]@ == "string"@,
        r@[19]@ == "string.special"@,
        r@[20]@ == "tag"@,
        r@[21]@ == "type"@,
        r@[22]@ == "type.builtin"@,
        r@[23]@ == "variable"@,
        r@[24]@ == "variable.builtin"@,
        r@[25]@ == "variable.parameter"@,
{
    let mut r: Vec<String> = Vec::new();
    r.push(String::from_str("attribute"));
    r.push(String::from_str("comment"));
    r.push(String::from_str("constant"));
    r.push(String::from_str("constant.builtin"));
    r.push(String::from_str("constructor"));
    r.push(String::from_str("escape"));
    r.push(String::from_str("function"));
    r.push(String::from_str("function.builtin"));
    r.push(String::from_str("function.method"));
    r.push(String::from_str("keyword"));
    r.push(String::from_str("label"));
    r.push(String::from_str("number"));
    r.push(String::from_str("operator"));
    r.push(String::from_str("property"));
    r.push(String::from_str("punctuation"));
    r.push(String::from_str("punctuation.bracket"));
    r.push(String::from_str("punctuation.delimiter"));
    r.push(String::from_str("punctuation.special"));
    r.push(String::from_str("string"));
    r.push(String::from_str("string.special"));
    r.push(String::from_str("tag"));
    r.push(String::from_str("type"));
    r.push(String::from_str("type.builtin"));
    r.push(String::from_str("variable"));
    r.push(String::from_str("variable.builtin"));
    r.push(String::from_str("variable.parameter"));
    r
}

} // verus!
