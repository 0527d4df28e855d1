//! Choosing an external formatter for a file, and shielding manual sections from it:
//! after the formatter has run, every section is put back as it stood before.
use vstd::prelude::*;
use crate::config::{FormatConfig, FormatterConfig, FormatterEntry};
use crate::manual_sections::{ManualSectionManager, replaced_text, block_table, table_view};
use crate::sections::blocks;
use crate::selection::{starts_with, ends_with};
use crate::text::{chars_of, first_occurrence, find_from, occurs};

verus! {

/// `p` without its leading `*` characters.
pub open spec fn strip_stars(p: Seq<char>) -> Seq<char>
    decreases p.len(),
{
    if p.len() > 0 && p[0] == '*' {
        strip_stars(p.drop_first())
    } else {
        p
    }
}

/// An ignore pattern applies when the name holds it, or ends with it once its leading
/// stars are gone.
pub open spec fn ignored_by(name: Seq<char>, p: Seq<char>) -> bool {
    first_occurrence(name, p, 0) is Some || ends_with(name, strip_stars(p))
}

/// `*.ext` applies to names ending in `.ext`; any other pattern to names ending in it.
pub open spec fn applies_to(name: Seq<char>, pattern: Seq<char>) -> bool {
    if starts_with(pattern, seq!['*', '.']) {
        ends_with(name, pattern.subrange(1, pattern.len() as int))
    } else {
        name == pattern || ends_with(name, pattern)
    }
}

/// The index of the first enabled formatter whose pattern applies to `name`.
pub open spec fn chosen(fs: Seq<FormatterEntry>, name: Seq<char>, from: int) -> Option<int>
    decreases fs.len() - from,
{
    if from < 0 || from >= fs.len() {
        None
    } else if fs[from].config.enabled && applies_to(name, fs[from].pattern@) {
        Some(from)
    } else {
        chosen(fs, name, from + 1)
    }
}

pub open spec fn command_type() -> Seq<char> {
    "command"@
}

/// The command line of a formatter: only `command` formatters with a command have one.
pub open spec fn command_line(c: FormatterConfig) -> Option<(Seq<char>, Seq<Seq<char>>)> {
    if c.formatter_type@ == command_type() && c.command is Some {
        Some(
            (
                c.command->0@,
                match c.args {
                    Some(a) => a@.map_values(|s: String| s@),
                    None => Seq::empty(),
                },
            ),
        )
    } else {
        None
    }
}

pub struct FormatterManager {
    config: FormatConfig,
    manual_section_manager: ManualSectionManager,
}

/// The first position at or after `i` that holds no `*`.
fn skip_stars(p: &Vec<char>, i: usize) -> (r: usize)
    requires
        i <= p.len(),
    ensures
        i <= r <= p.len(),
        p@.subrange(r as int, p@.len() as int) == strip_stars(p@.subrange(i as int, p@.len() as int)),
    decreases p.len() - i,
{
    if i < p.len() && p[i] == '*' {
        assert(p@.subrange(i as int, p@.len() as int).drop_first() =~= p@.subrange(i + 1, p@.len() as int));
        skip_stars(p, i + 1)
    } else {
        i
    }
}

/// Whether `t` ends with `p[from..]`.
fn tail_is(t: &Vec<char>, p: &Vec<char>, from: usize) -> (r: bool)
    requires
        from <= p.len(),
    ensures
        r == ends_with(t@, p@.subrange(from as int, p@.len() as int)),
{
    let k = p.len() - from;
    if k > t.len() {
        return false;
    }
    let base = t.len() - k;
    let mut j: usize = 0;
    while j < k
        invariant
            k == p.len() - from,
            base == t.len() - k,
            from <= p.len(),
            j <= k,
            forall|q: int| 0 <= q < j ==> #[trigger] t@[base + q] == p@[from + q],
        decreases k - j,
    {
        if t[base + j] != p[from + j] {
            assert(t@.subrange(base as int, base + k)[j as int] != p@.subrange(from as int, p@.len() as int)[j as int]);
            return false;
        }
        j = j + 1;
    }
    assert forall|q: int| 0 <= q < k implies t@.subrange(base as int, base + k)[q] == p@.subrange(
        from as int,
        p@.len() as int,
    )[q] by {
        assert(t@[base + q] == p@[from + q]);
    }
    assert(t@.subrange(base as int, base + k) =~= p@.subrange(from as int, p@.len() as int));
    true
}

fn copy_strings(v: &Vec<String>) -> (r: Vec<String>)
    ensures
        r@.map_values(|s: String| s@) == v@.map_values(|s: String| s@),
{
    let mut r: Vec<String> = Vec::new();
    let mut i: usize = 0;
    while i < v.len()
        invariant
            i <= v.len(),
            r@.len() == i,
            forall|k: int| 0 <= k < i ==> (#[trigger] r@[k])@ == v@[k]@,
        decreases v.len() - i,
    {
        let ghost old_r = r@;
        let c = v[i].clone();
        r.push(c);
        assert(r@ == old_r.push(v@[i as int]));
        i = i + 1;
    }
    assert(r@.map_values(|s: String| s@) =~= v@.map_values(|s: String| s@));
    r
}

impl FormatterManager {
    pub closed spec fn format_config(&self) -> FormatConfig {
        self.config
    }

    pub closed spec fn sections(&self) -> ManualSectionManager {
        self.manual_section_manager
    }

    pub fn new(config: FormatConfig, manual_section_manager: ManualSectionManager) -> (r: Self)
        ensures
            r.format_config() == config,
            r.sections() == manual_section_manager,
    {
        FormatterManager { config, manual_section_manager }
    }

    /// Whether an ignore pattern applies to `filename`.
    pub fn should_ignore(&self, filename: &str) -> (r: bool)
        ensures
            r == exists|i: int|
                0 <= i < self.format_config().defaults.ignore_patterns@.len() && ignored_by(
                    filename@,
                    #[trigger] self.format_config().defaults.ignore_patterns@[i]@,
                ),
    {
        let t = chars_of(filename);
        let pats = &self.config.defaults.ignore_patterns;
        let mut i: usize = 0;
        while i < pats.len()
            invariant
                t@ == filename@,
                pats == &self.config.defaults.ignore_patterns,
                i <= pats.len(),
                forall|k: int| 0 <= k < i ==> !ignored_by(filename@, #[trigger] pats@[k]@),
            decreases pats.len() - i,
        {
            let p = chars_of(pats[i].as_str());
            let inside = find_from(&t, &p, 0).is_some();
            let s = skip_stars(&p, 0);
            assert(p@.subrange(0, p@.len() as int) =~= p@);
            let ends = tail_is(&t, &p, s);
            if inside || ends {
                assert(ignored_by(filename@, self.format_config().defaults.ignore_patterns@[i as int]@));
                return true;
            }
            assert(!ignored_by(filename@, pats@[i as int]@));
            i = i + 1;
        }
        false
    }

    /// Whether formatter pattern `pattern` applies to `filename`.
    pub fn matches_pattern(&self, filename: &str, pattern: &str) -> (r: bool)
        ensures
            r == applies_to(filename@, pattern@),
    {
        let t = chars_of(filename);
        let p = chars_of(pattern);
        let star_dot: Vec<char> = vec!['*', '.'];
        assert(p@.subrange(0, p@.len() as int) =~= p@);
        if occurs(&p, 0, &star_dot) {
            tail_is(&t, &p, 1)
        } else {
            let same = t.len() == p.len() && occurs(&t, 0, &p);
            assert(same ==> t@.subrange(0, p@.len() as int) =~= t@);
            assert(t@ == p@ ==> t@.subrange(0, p@.len() as int) =~= t@);
            same || tail_is(&t, &p, 0)
        }
    }

    /// The first enabled formatter whose pattern applies to `filename`.
    pub fn get_formatter_for_file(&self, filename: &str) -> (r: Option<&FormatterConfig>)
        ensures
            match chosen(self.format_config().formatters@, filename@, 0) {
                Some(i) => r == Some(&self.format_config().formatters@[i].config),
                None => r is None,
            },
    {
        let fs = &self.config.formatters;
        let mut i: usize = 0;
        while i < fs.len()
            invariant
                fs == &self.config.formatters,
                i <= fs.len(),
                chosen(fs@, filename@, 0) == chosen(fs@, filename@, i as int),
            decreases fs.len() - i,
        {
            if fs[i].config.enabled && self.matches_pattern(filename, fs[i].pattern.as_str()) {
                return Some(&fs[i].config);
            }
            i = i + 1;
        }
        None
    }

    /// The command line to run on `filename`'s content, when formatting is enabled, no
    /// ignore pattern applies, and the chosen formatter is a command.
    pub fn formatter_command(&self, filename: &str) -> (r: Option<(String, Vec<String>)>)
        ensures
            ({
                let c = self.format_config();
                let ignored = exists|i: int|
                    0 <= i < c.defaults.ignore_patterns@.len() && ignored_by(
                        filename@,
                        #[trigger] c.defaults.ignore_patterns@[i]@,
                    );
                let want = if !c.enabled || ignored {
                    None
                } else {
                    match chosen(c.formatters@, filename@, 0) {
                        Some(i) => command_line(c.formatters@[i].config),
                        None => None,
                    }
                };
                match r {
                    Some((cmd, args)) => want == Some((cmd@, args@.map_values(|s: String| s@))),
                    None => want is None,
                }
            }),
    {
        if !self.config.enabled || self.should_ignore(filename) {
            return None;
        }
        match self.get_formatter_for_file(filename) {
            None => None,
            Some(f) => {
                let kind = String::from_str("command");
                if f.formatter_type == kind {
                    match &f.command {
                        Some(cmd) => {
                            let args = match &f.args {
                                Some(a) => copy_strings(a),
                                None => Vec::new(),
                            };
                            assert(f.args is None ==> args@.map_values(|s: String| s@) =~= Seq::<Seq<char>>::empty());
                            Some((cmd.clone(), args))
                        },
                        None => None,
                    }
                } else {
                    None
                }
            },
        }
    }

    /// The content to keep after the formatter ran on `content`: its output, or `content`
    /// itself when it failed (`None`); with section preservation on, every manual
    /// section of the output is replaced by the one of `content` with its id.
    pub fn finish_format(&self, content: &str, formatted: Option<String>) -> (r: String)
        ensures
            ({
                let s = self.sections().start();
                let e = self.sections().end();
                match formatted {
                    None => r@ == content@,
                    Some(f) => if self.format_config().defaults.preserve_manual_sections {
                        r@ == replaced_text(f@, blocks(f@, s, e, 0), block_table(content@, blocks(content@, s, e, 0)), false)
                    } else {
                        r@ == f@
                    },
                }
            }),
    {
        match formatted {
            None => content.to_owned(),
            Some(f) => {
                if self.config.defaults.preserve_manual_sections {
                    let stash = self.manual_section_manager.extract_blocks(content);
                    self.manual_section_manager.restore_blocks(f.as_str(), &stash)
                } else {
                    f
                }
            },
        }
    }
}

} // verus!
