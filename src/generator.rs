//! The decisions of the generation pipeline: what a template entry is, which name it
//! renders to, and what becomes of each file. The walk over the template tree, the
//! rendering and the file system stay with the caller, which carries out the plan.
use vstd::prelude::*;
use crate::manual_sections::{
    ManualSectionManager, SectionError, SectionFault, validation_verdict, preserved,
};
use crate::injection::{
    apply, collected, injection_blocks, no_overlap, applied, InjectionError, InjectionFault,
};
use crate::selection::ends_with;
use crate::text::{chars_of, occurs};

verus! {

/// What a template entry is, by its kind and suffix.
#[derive(Debug, Clone, Copy, PartialEq, Eq, Structural)]
pub enum TemplateKind {
    Directory,
    /// `X.j2`: rendered, then merged with the manual sections of the previous output.
    Renderable,
    /// `X.inj`: rendered, then injected into the previous output.
    Injection,
    /// Anything else: copied byte for byte.
    Plain,
}

pub open spec fn j2_suffix() -> Seq<char> {
    ".j2"@
}

pub open spec fn inj_suffix() -> Seq<char> {
    ".inj"@
}

pub open spec fn kind_of(name: Seq<char>, is_dir: bool) -> TemplateKind {
    if is_dir {
        TemplateKind::Directory
    } else if ends_with(name, j2_suffix()) {
        TemplateKind::Renderable
    } else if ends_with(name, inj_suffix()) {
        TemplateKind::Injection
    } else {
        TemplateKind::Plain
    }
}

/// The name template of an entry: a directory's name, a file's name without its
/// `.j2` or `.inj` suffix; plain files keep their name unrendered.
pub open spec fn name_template(name: Seq<char>, kind: TemplateKind) -> Option<Seq<char>> {
    match kind {
        TemplateKind::Directory => Some(name),
        TemplateKind::Renderable => Some(name.subrange(0, name.len() - 3)),
        TemplateKind::Injection => Some(name.subrange(0, name.len() - 4)),
        TemplateKind::Plain => None,
    }
}

fn suffix_is(t: &Vec<char>, s: &Vec<char>) -> (r: bool)
    ensures
        r == ends_with(t@, s@),
{
    s.len() <= t.len() && occurs(t, t.len() - s.len(), s)
}

pub fn classify(name: &str, is_dir: bool) -> (r: TemplateKind)
    ensures
        r == kind_of(name@, is_dir),
{
    if is_dir {
        return TemplateKind::Directory;
    }
    let t = chars_of(name);
    let j2 = chars_of(".j2");
    let inj = chars_of(".inj");
    if suffix_is(&t, &j2) {
        TemplateKind::Renderable
    } else if suffix_is(&t, &inj) {
        TemplateKind::Injection
    } else {
        TemplateKind::Plain
    }
}

/// The name to render for an entry of kind `kind`, or `None` when it is not rendered.
pub fn output_name_template(name: &str, kind: TemplateKind) -> (r: Option<String>)
    requires
        kind == kind_of(name@, kind == TemplateKind::Directory),
    ensures
        match r {
            Some(s) => name_template(name@, kind) == Some(s@),
            None => name_template(name@, kind) is None,
        },
{
    proof {
        reveal_strlit(".j2");
        reveal_strlit(".inj");
    }
    match kind {
        TemplateKind::Directory => Some(name.to_owned()),
        TemplateKind::Renderable => {
            let n = name.unicode_len();
            Some(name.substring_char(0, n - 3).to_owned())
        },
        TemplateKind::Injection => {
            let n = name.unicode_len();
            Some(name.substring_char(0, n - 4).to_owned())
        },
        TemplateKind::Plain => None,
    }
}

/// What the caller does with the output file.
#[derive(Debug, Clone, Copy, PartialEq, Eq, Structural)]
pub enum Effect {
    /// Write `content` to the output path, creating its directory first.
    WriteFile,
    /// Copy the template file to the output path, creating its directory first.
    CopyFile,
    /// Touch nothing: a dry run reports what it would have done.
    Nothing,
}

/// The outcome of one file.
#[derive(Debug, Clone)]
pub struct FilePlan {
    pub effect: Effect,
    /// The final text, for rendered and injected files.
    pub content: Option<String>,
    /// Injection blocks that matched nothing.
    pub warnings: Vec<String>,
}

/// Why one file failed, in mathematical terms.
pub enum FileFault {
    Section(SectionFault),
    Injection(InjectionFault),
    Other,
}

#[derive(Debug, Clone)]
pub enum GenerationError {
    TemplateNotFound(String),
    Render(String),
    Section(SectionError),
    Injection(InjectionError),
    Filesystem(String),
}

impl GenerationError {
    pub open spec fn view(&self) -> FileFault {
        match self {
            GenerationError::Section(e) => FileFault::Section(e.kind@),
            GenerationError::Injection(e) => FileFault::Injection(e@),
            _ => FileFault::Other,
        }
    }
}

/// The failure of a file of kind `kind`, rendered to `rendered`, against the previous
/// output `prior`; `None` when it succeeds. A dry run fails exactly where a live one does.
pub open spec fn file_fault(
    kind: TemplateKind,
    rendered: Seq<char>,
    prior: Option<Seq<char>>,
    s: Seq<char>,
    e: Seq<char>,
) -> Option<FileFault> {
    match kind {
        TemplateKind::Renderable => match validation_verdict(rendered, prior, s, e) {
            Some(f) => Some(FileFault::Section(f)),
            None => None,
        },
        TemplateKind::Injection => match prior {
            Some(p) => match collected(injection_blocks(rendered, 0), Some(p)) {
                Err(f) => Some(FileFault::Injection(f)),
                Ok(c) => if no_overlap(c.0) {
                    None
                } else {
                    Some(FileFault::Injection(InjectionFault::Overlap))
                },
            },
            None => None,
        },
        _ => None,
    }
}

pub open spec fn effect_of(kind: TemplateKind, dry_run: bool) -> Effect {
    if dry_run {
        Effect::Nothing
    } else if kind == TemplateKind::Plain {
        Effect::CopyFile
    } else {
        Effect::WriteFile
    }
}

/// Decides what becomes of one template file. A renderable file is validated against the
/// previous output and keeps its manual sections; an injection file is merged into the
/// previous output when there is one, else passes through as rendered; any other file is
/// copied. Under `dry_run` nothing is to be touched, and the same failures come.
pub fn plan_file(
    sections: &ManualSectionManager,
    kind: TemplateKind,
    template_path: &str,
    rendered: &str,
    prior: Option<&str>,
    dry_run: bool,
) -> (r: Result<FilePlan, GenerationError>)
    requires
        kind != TemplateKind::Directory,
    ensures
        ({
            let pv = match prior {
                Some(p) => Some(p@),
                None => None,
            };
            let fault = file_fault(kind, rendered@, pv, sections.start(), sections.end());
            match r {
                Err(err) => fault == Some(err@),
                Ok(plan) => fault is None && plan.effect == effect_of(kind, dry_run) && match kind {
                    TemplateKind::Renderable => plan.warnings@.len() == 0 && (plan.content matches Some(c) && c@
                        == match pv {
                        Some(p) => preserved(rendered@, p, sections.start(), sections.end()),
                        None => rendered@,
                    }),
                    TemplateKind::Injection => match pv {
                        None => plan.warnings@.len() == 0 && (plan.content matches Some(c) && c@ == rendered@),
                        Some(p) => (collected(injection_blocks(rendered@, 0), Some(p)) matches Ok(c) && (
                        plan.content matches Some(text) && applied(p, c.0, text@))
                            && plan.warnings@.map_values(|w: String| w@) == c.1),
                    },
                    _ => plan.content is None && plan.warnings@.len() == 0,
                },
            }
        }),
{
    let effect = if dry_run {
        Effect::Nothing
    } else if kind == TemplateKind::Plain {
        Effect::CopyFile
    } else {
        Effect::WriteFile
    };
    match kind {
        TemplateKind::Renderable => {
            match sections.validate_sections(template_path, rendered, prior) {
                Err(err) => Err(GenerationError::Section(err)),
                Ok(()) => {
                    let content = match prior {
                        Some(p) => sections.preserve_sections(rendered, p),
                        None => rendered.to_owned(),
                    };
                    Ok(FilePlan { effect, content: Some(content), warnings: Vec::new() })
                },
            }
        },
        TemplateKind::Injection => {
            match prior {
                None => Ok(FilePlan { effect, content: Some(rendered.to_owned()), warnings: Vec::new() }),
                Some(p) => match apply(rendered, Some(p)) {
                    Err(err) => Err(GenerationError::Injection(err)),
                    Ok(out) => Ok(FilePlan { effect, content: Some(out.text), warnings: out.warnings }),
                },
            }
        },
        _ => Ok(FilePlan { effect, content: None, warnings: Vec::new() }),
    }
}

} // verus!
