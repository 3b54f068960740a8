//! Prompt templates: `{variable}` placeholders substituted left to right,
//! every occurrence, one variable at a time.

use vstd::prelude::*;

use crate::strutil::chars_of;
use crate::strutil::dec_digits;
use crate::strutil::string_from_chars;
use crate::strutil::u32_to_string;

verus! {

/// Replace every occurrence of `pat` in `s` with `sub`, leftmost first,
/// non-overlapping. An empty pattern changes nothing.
pub open spec fn replace_all(s: Seq<char>, pat: Seq<char>, sub: Seq<char>) -> Seq<char>
    decreases s.len(),
{
    if pat.len() == 0 {
        s
    } else if s.len() < pat.len() {
        s
    } else if s.take(pat.len() as int) == pat {
        sub + replace_all(s.skip(pat.len() as int), pat, sub)
    } else {
        s.take(1) + replace_all(s.skip(1), pat, sub)
    }
}

/// Whether `pat` occurs in `sc` at position `i`.
fn matches_at(sc: &Vec<char>, pat: &Vec<char>, i: usize) -> (r: bool)
    requires
        i + pat@.len() <= sc@.len(),
    ensures
        r == (sc@.subrange(i as int, i + pat@.len()) == pat@),
{
    let sn = sc.len();
    let pn = pat.len();
    let mut k: usize = 0;
    while k < pn
        invariant
            sn == sc@.len(),
            pn == pat@.len(),
            i + pn <= sn,
            k <= pn,
            forall|q: int| 0 <= q < k ==> sc@[i + q] == pat@[q],
        decreases pn - k,
    {
        if sc[i + k] != pat[k] {
            proof {
                assert(sc@.subrange(i as int, i + pat@.len())[k as int] != pat@[k as int]);
            }
            return false;
        }
        k = k + 1;
    }
    proof {
        assert(sc@.subrange(i as int, i + pat@.len()) =~= pat@);
    }
    true
}

/// `replace_all`, executable over strings.
pub fn replace_all_str(s: &str, pat: &str, sub: &str) -> (r: String)
    ensures
        r@ == replace_all(s@, pat@, sub@),
{
    let sc = chars_of(s);
    let pc = chars_of(pat);
    let bc = chars_of(sub);
    if pc.len() == 0 {
        return string_from_chars(&sc);
    }
    let mut out: Vec<char> = Vec::new();
    let mut i: usize = 0;
    proof {
        assert(sc@.skip(0) =~= sc@);
    }
    while i < sc.len()
        invariant
            sc@ == s@,
            pc@ == pat@,
            bc@ == sub@,
            pc@.len() > 0,
            i <= sc@.len(),
            out@ + replace_all(sc@.skip(i as int), pat@, sub@) == replace_all(s@, pat@, sub@),
        decreases sc@.len() - i,
    {
        let rest = sc.len() - i;
        if rest >= pc.len() && matches_at(&sc, &pc, i) {
            proof {
                assert(sc@.skip(i as int).take(pat@.len() as int) =~= sc@.subrange(
                    i as int,
                    i + pat@.len(),
                ));
                assert(sc@.skip(i as int).skip(pat@.len() as int) =~= sc@.skip(i + pat@.len()));
            }
            let mut k: usize = 0;
            let ghost out0 = out@;
            while k < bc.len()
                invariant
                    k <= bc@.len(),
                    out@ == out0 + bc@.take(k as int),
                decreases bc@.len() - k,
            {
                out.push(bc[k]);
                k = k + 1;
                proof {
                    assert(out@ =~= out0 + bc@.take(k as int));
                }
            }
            proof {
                assert(out@ =~= out0 + bc@);
                assert(out@ + replace_all(sc@.skip(i + pat@.len()), pat@, sub@) =~= out0
                    + replace_all(sc@.skip(i as int), pat@, sub@));
            }
            i = i + pc.len();
        } else {
            proof {
                assert(sc@.skip(i as int).len() == sc@.len() - i);
                if sc@.skip(i as int).len() >= pat@.len() {
                    assert(sc@.skip(i as int).take(pat@.len() as int) =~= sc@.subrange(
                        i as int,
                        i + pat@.len(),
                    ));
                }
                assert(sc@.skip(i as int).take(1) =~= seq![sc@[i as int]]);
                assert(sc@.skip(i as int).skip(1) =~= sc@.skip(i + 1));
            }
            let ghost out0 = out@;
            out.push(sc[i]);
            proof {
                assert(out@ =~= out0 + sc@.skip(i as int).take(1));
                assert(out@ + replace_all(sc@.skip(i + 1), pat@, sub@) =~= out0 + replace_all(
                    sc@.skip(i as int),
                    pat@,
                    sub@,
                ));
            }
            i = i + 1;
        }
    }
    proof {
        assert(sc@.skip(i as int).len() == 0);
        assert(replace_all(sc@.skip(i as int), pat@, sub@) =~= sc@.skip(i as int));
        assert(out@ =~= out@ + replace_all(sc@.skip(i as int), pat@, sub@));
    }
    string_from_chars(&out)
}

/// Context variables available for template substitution.
#[derive(Debug)]
pub struct TemplateContext {
    pub filename: String,
    pub line_start: u32,
    pub line_end: u32,
    pub diff_content: String,
    pub context: String,
    pub comments: String,
    pub hunk_header: String,
}

/// What `render_template` produces: each placeholder substituted in turn.
pub open spec fn rendered_spec(template: Seq<char>, ctx: TemplateContext) -> Seq<char> {
    let s1 = replace_all(template, "{filename}"@, ctx.filename@);
    let s2 = replace_all(s1, "{line_start}"@, dec_digits(ctx.line_start as nat));
    let s3 = replace_all(s2, "{line_end}"@, dec_digits(ctx.line_end as nat));
    let s4 = replace_all(s3, "{diff_content}"@, ctx.diff_content@);
    let s5 = replace_all(s4, "{context}"@, ctx.context@);
    let s6 = replace_all(s5, "{comments}"@, ctx.comments@);
    replace_all(s6, "{hunk_header}"@, ctx.hunk_header@)
}

/// Render a template by substituting `{variable}` placeholders, one
/// variable after the other.
pub fn render_template(template: &str, ctx: &TemplateContext) -> (r: String)
    ensures
        r@ == rendered_spec(template@, *ctx),
{
    let s1 = replace_all_str(template, "{filename}", ctx.filename.as_str());
    let s2 = replace_all_str(s1.as_str(), "{line_start}", u32_to_string(ctx.line_start).as_str());
    let s3 = replace_all_str(s2.as_str(), "{line_end}", u32_to_string(ctx.line_end).as_str());
    let s4 = replace_all_str(s3.as_str(), "{diff_content}", ctx.diff_content.as_str());
    let s5 = replace_all_str(s4.as_str(), "{context}", ctx.context.as_str());
    let s6 = replace_all_str(s5.as_str(), "{comments}", ctx.comments.as_str());
    replace_all_str(s6.as_str(), "{hunk_header}", ctx.hunk_header.as_str())
}

/// The shell command that runs an agent: the command template with the
/// model name and the rendered prompt substituted; single quotes in the
/// prompt are escaped for safe shell embedding.
pub open spec fn agent_command_spec(
    command_template: Seq<char>,
    model: Seq<char>,
    prompt: Seq<char>,
) -> Seq<char> {
    let escaped = replace_all(prompt, "'"@, "'\\''"@);
    replace_all(replace_all(command_template, "{model}"@, model), "{rendered_prompt}"@, escaped)
}

/// Build the shell command for an agent run.
pub fn build_agent_command(command_template: &str, model: &str, prompt: &str) -> (r: String)
    ensures
        r@ == agent_command_spec(command_template@, model@, prompt@),
{
    let escaped_prompt = replace_all_str(prompt, "'", "'\\''");
    let with_model = replace_all_str(command_template, "{model}", model);
    replace_all_str(with_model.as_str(), "{rendered_prompt}", escaped_prompt.as_str())
}

} // verus!
