//! Configuration values that the generator and its mergers are built from.
use vstd::prelude::*;
use crate::text::{chars_of, occurrences, occurrence_positions, trimmed, trim_bounds, lemma_first_occurrence};
use crate::iteration::in_sep;

verus! {

/// The markers that delimit manual sections.
#[derive(Debug, Clone)]
pub struct ManualSectionConfig {
    pub start_marker: String,
    pub end_marker: String,
}

pub open spec fn default_start_text() -> Seq<char> {
    "MANUAL SECTION START"@
}

pub open spec fn default_end_text() -> Seq<char> {
    "MANUAL SECTION END"@
}

pub fn default_manual_start() -> (r: String)
    ensures
        r@ == default_start_text(),
{
    String::from_str("MANUAL SECTION START")
}

pub fn default_manual_end() -> (r: String)
    ensures
        r@ == default_end_text(),
{
    String::from_str("MANUAL SECTION END")
}

impl Default for ManualSectionConfig {
    fn default() -> (r: Self)
        ensures
            r.start_marker@ == default_start_text(),
            r.end_marker@ == default_end_text(),
    {
        ManualSectionConfig { start_marker: default_manual_start(), end_marker: default_manual_end() }
    }
}

/// An extra data file loaded into the context under `key`.
#[derive(Debug, Clone)]
pub struct ExtraDataConfig {
    pub key: String,
    pub path: String,
    pub required: bool,
}

/// Settings shared by all formatters.
#[derive(Debug, Clone)]
pub struct FormatDefaults {
    pub ignore_patterns: Vec<String>,
    pub preserve_manual_sections: bool,
}

impl Default for FormatDefaults {
    fn default() -> (r: Self)
        ensures
            r.ignore_patterns@.len() == 0,
            r.preserve_manual_sections,
    {
        FormatDefaults { ignore_patterns: Vec::new(), preserve_manual_sections: default_preserve_manual() }
    }
}

/// An external formatter: a command run with `args`, content on its standard input.
#[derive(Debug, Clone)]
pub struct FormatterConfig {
    pub formatter_type: String,
    pub command: Option<String>,
    pub args: Option<Vec<String>>,
    pub enabled: bool,
}

/// A formatter under the file pattern it applies to.
#[derive(Debug, Clone)]
pub struct FormatterEntry {
    pub pattern: String,
    pub config: FormatterConfig,
}

/// Formatting settings; formatters are tried in order.
#[derive(Debug, Clone)]
pub struct FormatConfig {
    pub enabled: bool,
    pub formatters: Vec<FormatterEntry>,
    pub defaults: FormatDefaults,
}

impl Default for FormatConfig {
    fn default() -> (r: Self)
        ensures
            !r.enabled,
            r.formatters@.len() == 0,
            r.defaults.ignore_patterns@.len() == 0,
            r.defaults.preserve_manual_sections,
    {
        FormatConfig { enabled: false, formatters: Vec::new(), defaults: FormatDefaults::default() }
    }
}

/// One set of templates: a folder rendered into an output directory, optionally once
/// per item of an iteration.
#[derive(Debug, Clone)]
pub struct TemplateSet {
    pub name: Option<String>,
    pub folder: String,
    pub output: Option<String>,
    pub iterate: Option<String>,
    pub enabled: bool,
}

pub fn default_flatten_data() -> (r: bool)
    ensures
        r,
{
    true
}

pub fn default_preserve_manual() -> (r: bool)
    ensures
        r,
{
    true
}

pub fn default_enabled() -> (r: bool)
    ensures
        r,
{
    true
}

/// A loop variable and the expression it ranges over.
#[derive(Debug, Clone)]
pub struct IterationInfo {
    pub var: String,
    pub expr: String,
}

#[derive(Debug, Clone)]
pub enum ConfigError {
    Io(String),
    Yaml(String),
    InvalidIteration(String),
}

/// The `(var, expr)` of `t`: defined when `t` holds exactly one ` in `.
pub open spec fn iteration_of(t: Seq<char>) -> Option<(Seq<char>, Seq<char>)> {
    let occ = occurrences(t, in_sep(), 0);
    if occ.len() != 1 {
        None
    } else {
        Some((trimmed(t.subrange(0, occ[0])), trimmed(t.subrange(occ[0] + 4, t.len() as int))))
    }
}

/// Parses `<var> in <expr>`.
pub fn parse_iteration(iterate: &str) -> (r: Result<IterationInfo, ConfigError>)
    ensures
        match r {
            Ok(info) => iteration_of(iterate@) == Some((info.var@, info.expr@)),
            Err(ConfigError::InvalidIteration(s)) => iteration_of(iterate@) is None && s@ == iterate@,
            Err(_) => false,
        },
{
    let t = chars_of(iterate);
    let ins: Vec<char> = vec![' ', 'i', 'n', ' '];
    let occ = occurrence_positions(&t, &ins);
    if occ.len() != 1 {
        return Err(ConfigError::InvalidIteration(iterate.to_owned()));
    }
    let p = occ[0];
    proof {
        lemma_first_occurrence(t@, ins@, 0);
        assert(occurrences(t@, ins@, 0)[0] == p as int);
    }
    let (a, b) = trim_bounds(&t, 0, p);
    let (c, d) = trim_bounds(&t, p + 4, t.len());
    Ok(IterationInfo { var: iterate.substring_char(a, b).to_owned(), expr: iterate.substring_char(c, d).to_owned() })
}

} // verus!
