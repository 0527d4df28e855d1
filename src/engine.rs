//! The renderer: a minijinja environment with the library's filters, strict about
//! undefined names. Render errors name the template line they point at.
use vstd::prelude::*;
use crate::iteration::{split_from, piece_bounds};
use crate::text::chars_of;

verus! {

#[verifier::external_type_specification]
#[verifier::external_body]
pub struct ExEnvironment<'s>(minijinja::Environment<'s>);

#[verifier::external_type_specification]
#[verifier::external_body]
pub struct ExValue(serde_json::Value);

/// Relies on `minijinja::Environment::new`, `set_undefined_behavior` and `add_filter` /
/// `add_function`: an environment that fails on undefined names and offers the case
/// filters and `uuid_generate`.
#[verifier::external_body]
fn strict_environment() -> (r: minijinja::Environment<'static>) {
    let mut env = minijinja::Environment::new();
    env.set_undefined_behavior(minijinja::UndefinedBehavior::Strict);
    env.add_filter("camelcase", crate::filters::camelcase);
    env.add_filter("pascalcase", crate::filters::pascalcase);
    env.add_filter("snakecase", crate::filters::snakecase);
    env.add_filter("kebabcase", crate::filters::kebabcase);
    env.add_filter("screamingsnakecase", crate::filters::screamingsnakecase);
    env.add_filter("uuid_generate", crate::filters::uuid_generate);
    env.add_function("uuid_generate", crate::filters::uuid_generate);
    env
}

/// Relies on `minijinja::Environment::add_global`, with the value converted by
/// `minijinja::Value::from_serialize`.
#[verifier::external_body]
fn set_global(env: &mut minijinja::Environment<'static>, name: String, value: serde_json::Value) {
    env.add_global(name, minijinja::Value::from_serialize(&value));
}

/// Relies on `minijinja::Environment::render_str`: the rendered text, or the error's
/// message and the template line it points at. Rendering may draw random UUIDs, so
/// nothing is stated of the text.
#[verifier::external_body]
fn render_with(env: &minijinja::Environment<'static>, source: &str, context: &serde_json::Value) -> (r: Result<
    String,
    (String, Option<usize>),
>) {
    env.render_str(source, context).map_err(|e| (e.to_string(), e.line()))
}

pub open spec fn strip_cr(l: Seq<char>) -> Seq<char> {
    if l.len() > 0 && l.last() == '\r' {
        l.drop_last()
    } else {
        l
    }
}

/// The `k`-th line of `t` (from zero): lines end at `\n` or `\r\n`, and a last line
/// counts only when it is not empty.
pub open spec fn nth_line(t: Seq<char>, k: int) -> Option<Seq<char>> {
    let ps = split_from(t, seq!['\n'], 0);
    if 0 <= k < ps.len() - 1 {
        Some(strip_cr(ps[k]))
    } else if k == ps.len() - 1 && ps[k].len() > 0 {
        Some(ps[k])
    } else {
        None
    }
}

/// A render error's message, followed, when it names a line, by a line break and that
/// line of the template (nothing when the template has no such line).
pub open spec fn error_text(message: Seq<char>, line: Option<usize>, template: Seq<char>) -> Seq<char> {
    match line {
        None => message,
        Some(l) => message + seq!['\n'] + match (if l >= 1 {
            nth_line(template, l - 1)
        } else {
            None
        }) {
            Some(s) => s,
            None => Seq::empty(),
        },
    }
}

fn source_line(template: &str, k: usize) -> (r: Option<String>)
    ensures
        match r {
            Some(s) => nth_line(template@, k as int) == Some(s@),
            None => nth_line(template@, k as int) is None,
        },
{
    let t = chars_of(template);
    let nl: Vec<char> = vec!['\n'];
    let bounds = piece_bounds(&t, &nl);
    let ghost ps = split_from(t@, nl@, 0);
    assert(nl@ == seq!['\n']);
    let n = bounds.len();
    if n == 0 || k >= n {
        return None;
    }
    let (a, b) = bounds[k];
    assert(ps[k as int] == t@.subrange(a as int, b as int));
    if k + 1 < n {
        if b > a && t[b - 1] == '\r' {
            assert(ps[k as int].last() == '\r');
            assert(ps[k as int].drop_last() =~= t@.subrange(a as int, b - 1));
            Some(template.substring_char(a, b - 1).to_owned())
        } else {
            Some(template.substring_char(a, b).to_owned())
        }
    } else if b > a {
        Some(template.substring_char(a, b).to_owned())
    } else {
        None
    }
}

/// The text of a render error: `message`, then, when `line` is given, a line break and
/// that line (counted from one) of `template`.
pub fn render_error_message(message: &str, line: Option<usize>, template: &str) -> (r: String)
    ensures
        r@ == error_text(message@, line, template@),
{
    let mut out = message.to_owned();
    match line {
        None => out,
        Some(l) => {
            let nl = "\n";
            proof {
                reveal_strlit("\n");
            }
            out.append(nl);
            if l >= 1 {
                if let Some(s) = source_line(template, l - 1) {
                    out.append(s.as_str());
                    return out;
                }
            }
            assert(out@ =~= error_text(message@, line, template@));
            out
        },
    }
}

/// Renders template text against a context.
pub struct TemplateEngine {
    env: minijinja::Environment<'static>,
}

impl TemplateEngine {
    pub fn new() -> Self {
        TemplateEngine { env: strict_environment() }
    }

    /// Makes `value` available to every template under `name`.
    pub fn add_global(&mut self, name: String, value: serde_json::Value) {
        set_global(&mut self.env, name, value);
    }

    /// The rendered text, or the renderer's message enriched with the offending line.
    pub fn render_string(&self, template_str: &str, context: &serde_json::Value) -> (r: Result<String, String>)
        ensures
            r matches Err(e) ==> exists|m: Seq<char>, l: Option<usize>| e@ == error_text(m, l, template_str@),
    {
        match render_with(&self.env, template_str, context) {
            Ok(s) => Ok(s),
            Err((m, line)) => Err(render_error_message(m.as_str(), line, template_str)),
        }
    }
}

} // verus!
