//! Manual sections: named regions of generated text that hold hand-written code.
//!
//! A section opens with a header line `<start marker>: <id>` and closes at the
//! next end marker. This module finds sections, validates their structure, and
//! carries their contents from a previous output into a fresh one.
use vstd::prelude::*;
use crate::config::ManualSectionConfig;
use crate::sections::{
    section_ids, next_header, next_header_exec, lemma_next_header, blocks, scan_blocks, lemma_blocks,
    spans_ordered, SectionSpan,
};
use crate::text::{chars_of, occurrences, occurrence_positions};

verus! {

/// What is wrong with the sections of a text, in mathematical terms.
pub enum SectionFault {
    Duplicate(Seq<Seq<char>>),
    Unbalanced(nat, nat),
    Nested,
    Dangling,
    Lost(Seq<char>),
}

/// The kind of a manual-section validation failure.
#[derive(Debug, Clone)]
pub enum SectionErrorKind {
    /// Ids that repeat an earlier header's id, in order of appearance.
    DuplicateSectionId(Vec<String>),
    /// The numbers of start and end markers differ.
    UnbalancedMarkers { starts: usize, ends: usize },
    /// A start marker appears inside an open section.
    NestedSection,
    /// An end marker appears with no open section.
    DanglingEnd,
    /// A section of the previous output has no counterpart in the new one.
    LostSection(String),
}

pub open spec fn ids_view(v: Seq<String>) -> Seq<Seq<char>> {
    v.map_values(|x: String| x@)
}

impl SectionErrorKind {
    pub open spec fn view(&self) -> SectionFault {
        match self {
            SectionErrorKind::DuplicateSectionId(ids) => SectionFault::Duplicate(ids_view(ids@)),
            SectionErrorKind::UnbalancedMarkers { starts, ends } => SectionFault::Unbalanced(
                *starts as nat,
                *ends as nat,
            ),
            SectionErrorKind::NestedSection => SectionFault::Nested,
            SectionErrorKind::DanglingEnd => SectionFault::Dangling,
            SectionErrorKind::LostSection(id) => SectionFault::Lost(id@),
        }
    }
}

/// A validation failure, with the name of the text it was found in.
#[derive(Debug, Clone)]
pub struct SectionError {
    pub file: String,
    pub kind: SectionErrorKind,
}

/// Walks the start and end marker positions in order of position (a start before an
/// end at the same position), tracking whether a section is open.
pub open spec fn structure_walk(st: Seq<int>, en: Seq<int>, open: bool) -> Option<SectionFault>
    decreases st.len() + en.len(),
{
    if st.len() == 0 && en.len() == 0 {
        None
    } else if en.len() == 0 || (st.len() > 0 && st[0] <= en[0]) {
        if open {
            Some(SectionFault::Nested)
        } else {
            structure_walk(st.drop_first(), en, true)
        }
    } else {
        if !open {
            Some(SectionFault::Dangling)
        } else {
            structure_walk(st, en.drop_first(), false)
        }
    }
}

/// The structural fault of `t`, if any: unequal marker counts first, then the walk.
pub open spec fn structure_verdict(t: Seq<char>, s: Seq<char>, e: Seq<char>) -> Option<SectionFault> {
    let st = occurrences(t, s, 0);
    let en = occurrences(t, e, 0);
    if st.len() != en.len() {
        Some(SectionFault::Unbalanced(st.len(), en.len()))
    } else {
        structure_walk(st, en, false)
    }
}

/// The entries of `ids` that equal an earlier entry, in order.
pub open spec fn repeats(ids: Seq<Seq<char>>) -> Seq<Seq<char>>
    decreases ids.len(),
{
    if ids.len() == 0 {
        Seq::empty()
    } else if ids.drop_last().contains(ids.last()) {
        repeats(ids.drop_last()).push(ids.last())
    } else {
        repeats(ids.drop_last())
    }
}

pub open spec fn duplicate_verdict(t: Seq<char>, s: Seq<char>) -> Option<SectionFault> {
    let r = repeats(section_ids(t, s, 0));
    if r.len() > 0 {
        Some(SectionFault::Duplicate(r))
    } else {
        None
    }
}

/// The first id of `prev` that `cur` lacks.
pub open spec fn first_lost(prev: Seq<Seq<char>>, cur: Seq<Seq<char>>) -> Option<Seq<char>>
    decreases prev.len(),
{
    if prev.len() == 0 {
        None
    } else if !cur.contains(prev[0]) {
        Some(prev[0])
    } else {
        first_lost(prev.drop_first(), cur)
    }
}

pub open spec fn text_verdict(t: Seq<char>, s: Seq<char>, e: Seq<char>) -> Option<SectionFault> {
    match structure_verdict(t, s, e) {
        Some(f) => Some(f),
        None => duplicate_verdict(t, s),
    }
}

/// The outcome of validating a fresh rendering against an optional previous output.
pub open spec fn validation_verdict(
    rendered: Seq<char>,
    prev: Option<Seq<char>>,
    s: Seq<char>,
    e: Seq<char>,
) -> Option<SectionFault> {
    match text_verdict(rendered, s, e) {
        Some(f) => Some(f),
        None => match prev {
            None => None,
            Some(p) => match text_verdict(p, s, e) {
                Some(f) => Some(f),
                None => match first_lost(section_ids(p, s, 0), section_ids(rendered, s, 0)) {
                    Some(id) => Some(SectionFault::Lost(id)),
                    None => None,
                },
            },
        },
    }
}

/// `r` reports exactly the fault `v`, under the name `file`.
pub open spec fn reports(r: Result<(), SectionError>, v: Option<SectionFault>, file: Seq<char>) -> bool {
    match r {
        Ok(_) => v is None,
        Err(err) => v == Some(err.kind@) && err.file@ == file,
    }
}

/// The name under which faults of a previous output are reported.
pub open spec fn existing_file_name() -> Seq<char> {
    "existing file"@
}

/// A whole manual section, markers included, under its id.
#[derive(Debug, Clone)]
pub struct SectionBlock {
    pub id: String,
    pub text: String,
}

impl SectionBlock {
    pub open spec fn view(&self) -> (Seq<char>, Seq<char>) {
        (self.id@, self.text@)
    }
}

pub open spec fn table_view(v: Seq<SectionBlock>) -> Seq<(Seq<char>, Seq<char>)> {
    v.map_values(|b: SectionBlock| b@)
}

/// The text of the first entry of `table` under `id`.
pub open spec fn lookup_first(table: Seq<(Seq<char>, Seq<char>)>, id: Seq<char>) -> Option<Seq<char>>
    decreases table.len(),
{
    if table.len() == 0 {
        None
    } else if table[0].0 == id {
        Some(table[0].1)
    } else {
        lookup_first(table.drop_first(), id)
    }
}

/// The text of the last entry of `table` under `id`.
pub open spec fn lookup_last(table: Seq<(Seq<char>, Seq<char>)>, id: Seq<char>) -> Option<Seq<char>>
    decreases table.len(),
{
    if table.len() == 0 {
        None
    } else if table.last().0 == id {
        Some(table.last().1)
    } else {
        lookup_last(table.drop_last(), id)
    }
}

pub open spec fn span_id(t: Seq<char>, b: (int, int, int, int)) -> Seq<char> {
    t.subrange(b.1, b.2)
}

pub open spec fn span_text(t: Seq<char>, b: (int, int, int, int)) -> Seq<char> {
    t.subrange(b.0, b.3)
}

/// Each section span of `t` as an `(id, whole text)` entry.
pub open spec fn block_table(t: Seq<char>, bs: Seq<(int, int, int, int)>) -> Seq<(Seq<char>, Seq<char>)> {
    bs.map_values(|b: (int, int, int, int)| (span_id(t, b), span_text(t, b)))
}

/// What stands in place of span `b`: the table's entry for its id (the first or the
/// last one), else the span itself.
pub open spec fn replacement(
    t: Seq<char>,
    b: (int, int, int, int),
    table: Seq<(Seq<char>, Seq<char>)>,
    first: bool,
) -> Seq<char> {
    let found = if first {
        lookup_first(table, span_id(t, b))
    } else {
        lookup_last(table, span_id(t, b))
    };
    match found {
        Some(x) => x,
        None => span_text(t, b),
    }
}

pub open spec fn gap_start(bs: Seq<(int, int, int, int)>, n: int) -> int {
    if n <= 0 {
        0
    } else {
        bs[n - 1].3
    }
}

/// The text of `t` up to the end of its `n`-th span, with the spans replaced.
pub open spec fn rebuilt(
    t: Seq<char>,
    bs: Seq<(int, int, int, int)>,
    table: Seq<(Seq<char>, Seq<char>)>,
    first: bool,
    n: nat,
) -> Seq<char>
    decreases n,
{
    if n == 0 {
        Seq::empty()
    } else {
        rebuilt(t, bs, table, first, (n - 1) as nat) + t.subrange(gap_start(bs, n - 1), bs[n - 1].0)
            + replacement(t, bs[n - 1], table, first)
    }
}

/// `t` with each of the spans `bs` replaced, the text between them kept.
pub open spec fn replaced_text(
    t: Seq<char>,
    bs: Seq<(int, int, int, int)>,
    table: Seq<(Seq<char>, Seq<char>)>,
    first: bool,
) -> Seq<char> {
    rebuilt(t, bs, table, first, bs.len()) + t.subrange(gap_start(bs, bs.len() as int), t.len() as int)
}

/// `new` with each section replaced by the first section of `prev` with its id.
pub open spec fn preserved(new: Seq<char>, prev: Seq<char>, s: Seq<char>, e: Seq<char>) -> Seq<char> {
    replaced_text(new, blocks(new, s, e, 0), block_table(prev, blocks(prev, s, e, 0)), true)
}

/// Finds, validates, and merges manual sections under one pair of markers.
#[derive(Debug, Clone)]
pub struct ManualSectionManager {
    config: ManualSectionConfig,
}

impl ManualSectionManager {
    pub closed spec fn start(&self) -> Seq<char> {
        self.config.start_marker@
    }

    pub closed spec fn end(&self) -> Seq<char> {
        self.config.end_marker@
    }

    pub fn new(config: ManualSectionConfig) -> (r: Self)
        ensures
            r.start() == config.start_marker@,
            r.end() == config.end_marker@,
    {
        ManualSectionManager { config }
    }

    /// The ids of the section headers of `content`, in order.
    pub fn extract_section_ids(&self, content: &str) -> (r: Vec<String>)
        ensures
            ids_view(r@) == section_ids(content@, self.start(), 0),
    {
        let t = chars_of(content);
        let s = chars_of(self.config.start_marker.as_str());
        let mut r: Vec<String> = Vec::new();
        let mut pos: usize = 0;
        loop
            invariant
                t@ == content@,
                s@ == self.start(),
                pos <= t.len(),
                ids_view(r@) + section_ids(t@, s@, pos as int) == section_ids(t@, s@, 0),
            decreases t.len() + 1 - pos,
        {
            match next_header_exec(&t, &s, pos) {
                None => {
                    assert(ids_view(r@) + section_ids(t@, s@, pos as int) =~= ids_view(r@));
                    return r;
                },
                Some(h) => {
                    proof {
                        lemma_next_header(t@, s@, pos as int);
                    }
                    let id = content.substring_char(h.id_start, h.id_end).to_owned();
                    let ghost old_r = r@;
                    r.push(id);
                    assert(ids_view(r@) =~= ids_view(old_r).push(t@.subrange(h.id_start as int, h.id_end as int)));
                    assert(section_ids(t@, s@, pos as int) == seq![t@.subrange(h.id_start as int, h.id_end as int)]
                        + section_ids(t@, s@, h.end as int));
                    assert(ids_view(r@) + section_ids(t@, s@, h.end as int) =~= ids_view(old_r)
                        + section_ids(t@, s@, pos as int));
                    pos = h.end;
                },
            }
        }
    }

    /// Every section of `content`, in order, as an `(id, whole text)` entry.
    pub fn extract_blocks(&self, content: &str) -> (r: Vec<SectionBlock>)
        ensures
            table_view(r@) == block_table(content@, blocks(content@, self.start(), self.end(), 0)),
    {
        let t = chars_of(content);
        let s = chars_of(self.config.start_marker.as_str());
        let e = chars_of(self.config.end_marker.as_str());
        let spans = scan_blocks(&t, &s, &e);
        let ghost bs = spans@.map_values(|b: SectionSpan| b@);
        proof {
            lemma_blocks(t@, s@, e@, 0);
        }
        let mut r: Vec<SectionBlock> = Vec::new();
        let mut k: usize = 0;
        while k < spans.len()
            invariant
                bs == spans@.map_values(|b: SectionSpan| b@),
                spans_ordered(bs, content@.len() as int, 0),
                k <= spans.len(),
                table_view(r@) == block_table(content@, bs.subrange(0, k as int)),
            decreases spans.len() - k,
        {
            let b = &spans[k];
            assert(bs[k as int] == b@);
            assert(0 <= bs[k as int].0 < bs[k as int].1 <= bs[k as int].2 <= bs[k as int].3 <= content@.len());
            let id = content.substring_char(b.id_start, b.id_end).to_owned();
            let text = content.substring_char(b.start, b.end).to_owned();
            let ghost old_r = r@;
            r.push(SectionBlock { id, text });
            assert(table_view(r@) =~= table_view(old_r).push((span_id(content@, b@), span_text(content@, b@))));
            assert(bs.subrange(0, k + 1) =~= bs.subrange(0, k as int).push(b@));
            assert(block_table(content@, bs.subrange(0, k + 1)) =~= block_table(content@, bs.subrange(0, k as int)).push(
                (span_id(content@, b@), span_text(content@, b@)),
            ));
            k = k + 1;
        }
        assert(bs.subrange(0, k as int) =~= bs);
        r
    }

    /// `content` with each section replaced by the last entry of `blocks` with its id;
    /// sections without an entry are kept.
    pub fn restore_blocks(&self, content: &str, blocks: &Vec<SectionBlock>) -> (r: String)
        ensures
            r@ == replaced_text(
                content@,
                crate::sections::blocks(content@, self.start(), self.end(), 0),
                table_view(blocks@),
                false,
            ),
    {
        let t = chars_of(content);
        let s = chars_of(self.config.start_marker.as_str());
        let e = chars_of(self.config.end_marker.as_str());
        let spans = scan_blocks(&t, &s, &e);
        proof {
            lemma_blocks(t@, s@, e@, 0);
        }
        replace_spans(content, &spans, blocks, false)
    }

    /// `new_rendered` with each section replaced by the first section of
    /// `prev_rendered` with the same id; sections that `prev_rendered` lacks stay
    /// as rendered, and so does the text between sections.
    pub fn preserve_sections(&self, new_rendered: &str, prev_rendered: &str) -> (r: String)
        ensures
            r@ == preserved(new_rendered@, prev_rendered@, self.start(), self.end()),
    {
        let stash = self.extract_blocks(prev_rendered);
        let t = chars_of(new_rendered);
        let s = chars_of(self.config.start_marker.as_str());
        let e = chars_of(self.config.end_marker.as_str());
        let spans = scan_blocks(&t, &s, &e);
        proof {
            lemma_blocks(t@, s@, e@, 0);
        }
        replace_spans(new_rendered, &spans, &stash, true)
    }

    /// Fails when an id of `content` repeats an earlier one.
    pub fn check_duplicates(&self, content: &str, filename: &str) -> (r: Result<(), SectionError>)
        ensures
            reports(r, duplicate_verdict(content@, self.start()), filename@),
    {
        let ids = self.extract_section_ids(content);
        let dups = repeated_ids(&ids);
        if dups.len() > 0 {
            Err(SectionError { file: filename.to_owned(), kind: SectionErrorKind::DuplicateSectionId(dups) })
        } else {
            Ok(())
        }
    }

    /// Fails when the markers of `content` are unbalanced, nested, or out of order.
    pub fn check_structure(&self, content: &str, filename: &str) -> (r: Result<(), SectionError>)
        ensures
            reports(r, structure_verdict(content@, self.start(), self.end()), filename@),
    {
        let t = chars_of(content);
        let s = chars_of(self.config.start_marker.as_str());
        let e = chars_of(self.config.end_marker.as_str());
        let st = occurrence_positions(&t, &s);
        let en = occurrence_positions(&t, &e);
        if st.len() != en.len() {
            return Err(
                SectionError {
                    file: filename.to_owned(),
                    kind: SectionErrorKind::UnbalancedMarkers { starts: st.len(), ends: en.len() },
                },
            );
        }
        let ghost sv = st@.map_values(|p: usize| p as int);
        let ghost ev = en@.map_values(|p: usize| p as int);
        let mut i: usize = 0;
        let mut j: usize = 0;
        let mut open = false;
        assert(sv.subrange(0, sv.len() as int) =~= sv);
        assert(ev.subrange(0, ev.len() as int) =~= ev);
        while i < st.len() || j < en.len()
            invariant
                sv == st@.map_values(|p: usize| p as int),
                ev == en@.map_values(|p: usize| p as int),
                sv == occurrences(content@, self.start(), 0),
                ev == occurrences(content@, self.end(), 0),
                st.len() == en.len(),
                i <= st.len(),
                j <= en.len(),
                structure_walk(sv.subrange(i as int, sv.len() as int), ev.subrange(j as int, ev.len() as int), open)
                    == structure_walk(sv, ev, false),
            decreases st.len() + en.len() - i - j,
        {
            let ghost rs = sv.subrange(i as int, sv.len() as int);
            let ghost re = ev.subrange(j as int, ev.len() as int);
            assert(rs.len() == st.len() - i && re.len() == en.len() - j);
            if j >= en.len() || (i < st.len() && st[i] <= en[j]) {
                assert(j < en.len() ==> re[0] == en@[j as int] as int);
                assert(i < st.len() ==> rs[0] == st@[i as int] as int);
                if open {
                    assert(structure_walk(rs, re, open) == Some(SectionFault::Nested));
                    return Err(SectionError { file: filename.to_owned(), kind: SectionErrorKind::NestedSection });
                }
                assert(rs.drop_first() =~= sv.subrange(i + 1, sv.len() as int));
                open = true;
                i = i + 1;
            } else {
                assert(re[0] == en@[j as int] as int);
                assert(i < st.len() ==> rs[0] == st@[i as int] as int);
                if !open {
                    assert(structure_walk(rs, re, open) == Some(SectionFault::Dangling));
                    return Err(SectionError { file: filename.to_owned(), kind: SectionErrorKind::DanglingEnd });
                }
                assert(re.drop_first() =~= ev.subrange(j + 1, ev.len() as int));
                open = false;
                j = j + 1;
            }
        }
        Ok(())
    }

    /// Checks `rendered`, then `prev` if given, for structure and duplicates, and then
    /// that every section of `prev` is still present in `rendered`.
    pub fn validate_sections(&self, template_path: &str, rendered: &str, prev_rendered: Option<&str>) -> (r:
        Result<(), SectionError>)
        ensures
            ({
                let prev = match prev_rendered {
                    Some(p) => Some(p@),
                    None => None,
                };
                let in_prev = text_verdict(rendered@, self.start(), self.end()) is None && prev is Some
                    && text_verdict(prev->0, self.start(), self.end()) is Some;
                reports(
                    r,
                    validation_verdict(rendered@, prev, self.start(), self.end()),
                    if in_prev {
                        existing_file_name()
                    } else {
                        template_path@
                    },
                )
            }),
    {
        self.check_structure(rendered, template_path)?;
        self.check_duplicates(rendered, template_path)?;
        match prev_rendered {
            None => Ok(()),
            Some(prev) => {
                let name = "existing file";
                proof {
                    reveal_strlit("existing file");
                }
                self.check_structure(prev, name)?;
                self.check_duplicates(prev, name)?;
                let cur = self.extract_section_ids(rendered);
                let old = self.extract_section_ids(prev);
                match first_missing(&old, &cur) {
                    Some(id) => Err(
                        SectionError { file: template_path.to_owned(), kind: SectionErrorKind::LostSection(id) },
                    ),
                    None => Ok(()),
                }
            },
        }
    }
}

/// The index of the entry of `table` under `id`: the first one or the last one.
fn find_entry(table: &Vec<SectionBlock>, id: &String, first: bool) -> (r: Option<usize>)
    ensures
        match r {
            Some(i) => i < table.len() && (if first {
                lookup_first(table_view(table@), id@)
            } else {
                lookup_last(table_view(table@), id@)
            }) == Some(table@[i as int].text@),
            None => (if first {
                lookup_first(table_view(table@), id@)
            } else {
                lookup_last(table_view(table@), id@)
            }) is None,
        },
{
    let ghost tv = table_view(table@);
    if first {
        let mut i: usize = 0;
        assert(tv.subrange(0, tv.len() as int) =~= tv);
        while i < table.len()
            invariant
                tv == table_view(table@),
                first,
                i <= table.len(),
                lookup_first(tv.subrange(i as int, tv.len() as int), id@) == lookup_first(tv, id@),
            decreases table.len() - i,
        {
            let ghost rest = tv.subrange(i as int, tv.len() as int);
            assert(rest[0] == table@[i as int]@);
            if table[i].id == *id {
                assert(rest.len() > 0 && rest[0].0 == id@);
                return Some(i);
            }
            assert(rest.drop_first() =~= tv.subrange(i + 1, tv.len() as int));
            i = i + 1;
        }
        None
    } else {
        let mut i: usize = table.len();
        assert(tv.subrange(0, tv.len() as int) =~= tv);
        while i > 0
            invariant
                tv == table_view(table@),
                !first,
                i <= table.len(),
                lookup_last(tv.subrange(0, i as int), id@) == lookup_last(tv, id@),
            decreases i,
        {
            let ghost rest = tv.subrange(0, i as int);
            assert(rest.last() == table@[i - 1]@);
            if table[i - 1].id == *id {
                assert(rest.len() > 0 && rest.last().0 == id@);
                return Some(i - 1);
            }
            assert(rest.drop_last() =~= tv.subrange(0, i - 1));
            i = i - 1;
        }
        None
    }
}

/// `content` with each span replaced by its entry in `table`, or kept.
fn replace_spans(
    content: &str,
    spans: &Vec<SectionSpan>,
    table: &Vec<SectionBlock>,
    first: bool,
) -> (r: String)
    requires
        spans_ordered(spans@.map_values(|b: SectionSpan| b@), content@.len() as int, 0),
    ensures
        r@ == replaced_text(content@, spans@.map_values(|b: SectionSpan| b@), table_view(table@), first),
{
    let ghost bs = spans@.map_values(|b: SectionSpan| b@);
    let ghost tv = table_view(table@);
    let ghost t = content@;
    let mut out = String::new();
    let mut last: usize = 0;
    let mut k: usize = 0;
    while k < spans.len()
        invariant
            bs == spans@.map_values(|b: SectionSpan| b@),
            tv == table_view(table@),
            t == content@,
            spans_ordered(bs, t.len() as int, 0),
            k <= spans.len(),
            last as int == gap_start(bs, k as int),
            last <= t.len(),
            out@ == rebuilt(t, bs, tv, first, k as nat),
        decreases spans.len() - k,
    {
        let b = &spans[k];
        assert(bs[k as int] == b@);
        assert(0 <= bs[k as int].0 < bs[k as int].1 <= bs[k as int].2 <= bs[k as int].3 <= t.len());
        assert(k > 0 ==> bs[k - 1].3 <= bs[k as int].0);
        out.append(content.substring_char(last, b.start));
        let id = content.substring_char(b.id_start, b.id_end).to_owned();
        match find_entry(table, &id, first) {
            Some(i) => {
                out.append(table[i].text.as_str());
            },
            None => {
                out.append(content.substring_char(b.start, b.end));
            },
        }
        last = b.end;
        k = k + 1;
    }
    out.append(content.substring_char(last, content.unicode_len()));
    out
}

/// The entries of `ids` that repeat an earlier entry.
fn repeated_ids(ids: &Vec<String>) -> (r: Vec<String>)
    ensures
        ids_view(r@) == repeats(ids_view(ids@)),
{
    let ghost iv = ids_view(ids@);
    let mut r: Vec<String> = Vec::new();
    let mut i: usize = 0;
    assert(iv.subrange(0, 0) =~= Seq::<Seq<char>>::empty());
    while i < ids.len()
        invariant
            iv == ids_view(ids@),
            i <= ids.len(),
            ids_view(r@) == repeats(iv.subrange(0, i as int)),
        decreases ids.len() - i,
    {
        let mut found = false;
        let mut j: usize = 0;
        while j < i
            invariant
                iv == ids_view(ids@),
                j <= i < ids.len(),
                found <==> exists|k: int| 0 <= k < j && iv[k] == iv[i as int],
            decreases i - j,
        {
            assert(iv[j as int] == ids@[j as int]@ && iv[i as int] == ids@[i as int]@);
            if ids[j] == ids[i] {
                found = true;
            }
            j = j + 1;
        }
        let ghost pre = iv.subrange(0, i as int + 1);
        assert(pre.drop_last() =~= iv.subrange(0, i as int));
        assert(pre.last() == iv[i as int]);
        assert(found ==> pre.drop_last().contains(pre.last())) by {
            if found {
                let k = choose|k: int| 0 <= k < i && iv[k] == iv[i as int];
                assert(pre.drop_last()[k] == pre.last());
            }
        }
        assert(pre.drop_last().contains(pre.last()) ==> found);
        if found {
            let ghost old_r = r@;
            r.push(ids[i].clone());
            assert(ids_view(r@) =~= ids_view(old_r).push(iv[i as int]));
        }
        i = i + 1;
    }
    assert(iv.subrange(0, ids.len() as int) =~= iv);
    r
}

/// The first entry of `prev` that `cur` lacks.
fn first_missing(prev: &Vec<String>, cur: &Vec<String>) -> (r: Option<String>)
    ensures
        match r {
            Some(id) => first_lost(ids_view(prev@), ids_view(cur@)) == Some(id@),
            None => first_lost(ids_view(prev@), ids_view(cur@)) is None,
        },
{
    let ghost pv = ids_view(prev@);
    let ghost cv = ids_view(cur@);
    let mut i: usize = 0;
    assert(pv.subrange(0, pv.len() as int) =~= pv);
    while i < prev.len()
        invariant
            pv == ids_view(prev@),
            cv == ids_view(cur@),
            i <= prev.len(),
            first_lost(pv.subrange(i as int, pv.len() as int), cv) == first_lost(pv, cv),
        decreases prev.len() - i,
    {
        let ghost rest = pv.subrange(i as int, pv.len() as int);
        let mut found = false;
        let mut j: usize = 0;
        while j < cur.len()
            invariant
                pv == ids_view(prev@),
                cv == ids_view(cur@),
                i < prev.len(),
                j <= cur.len(),
                found <==> exists|k: int| 0 <= k < j && cv[k] == pv[i as int],
            decreases cur.len() - j,
        {
            assert(cv[j as int] == cur@[j as int]@ && pv[i as int] == prev@[i as int]@);
            if cur[j] == prev[i] {
                found = true;
            }
            j = j + 1;
        }
        assert(rest[0] == pv[i as int]);
        assert(found ==> cv.contains(rest[0])) by {
            if found {
                let k = choose|k: int| 0 <= k < cur.len() && cv[k] == pv[i as int];
                assert(cv[k] == rest[0]);
            }
        }
        if !found {
            return Some(prev[i].clone());
        }
        assert(rest.drop_first() =~= pv.subrange(i + 1, pv.len() as int));
        i = i + 1;
    }
    None
}

} // verus!

verus! {

/// Section round trip: when the fresh text has one section, and the previous output has a
/// section with its id, the result is the fresh text with that one span replaced by the
/// previous span; a section that the previous output lacks stays as rendered.
pub proof fn lemma_section_round_trip(new: Seq<char>, prev: Seq<char>, s: Seq<char>, e: Seq<char>)
    requires
        blocks(new, s, e, 0).len() == 1,
    ensures
        ({
            let b = blocks(new, s, e, 0)[0];
            match lookup_first(block_table(prev, blocks(prev, s, e, 0)), span_id(new, b)) {
                Some(old) => preserved(new, prev, s, e) == new.subrange(0, b.0) + old + new.subrange(b.3, new.len() as int),
                None => preserved(new, prev, s, e) == new,
            }
        }),
{
    let bs = blocks(new, s, e, 0);
    let b = bs[0];
    let table = block_table(prev, blocks(prev, s, e, 0));
    lemma_blocks(new, s, e, 0);
    assert(0 <= b.0 < b.3 <= new.len());
    assert(rebuilt(new, bs, table, true, 0) == Seq::<char>::empty());
    assert(rebuilt(new, bs, table, true, 1) == Seq::<char>::empty() + new.subrange(0, b.0) + replacement(
        new,
        b,
        table,
        true,
    ));
    match lookup_first(table, span_id(new, b)) {
        Some(old) => {
            assert(preserved(new, prev, s, e) =~= new.subrange(0, b.0) + old + new.subrange(b.3, new.len() as int));
        },
        None => {
            assert(preserved(new, prev, s, e) =~= new.subrange(0, b.0) + new.subrange(b.0, b.3) + new.subrange(
                b.3,
                new.len() as int,
            ));
            assert(preserved(new, prev, s, e) =~= new);
        },
    }
}

proof fn lemma_first_lost_found(prev: Seq<Seq<char>>, cur: Seq<Seq<char>>, id: Seq<char>)
    requires
        prev.contains(id),
        !cur.contains(id),
    ensures
        first_lost(prev, cur) is Some,
    decreases prev.len(),
{
    if cur.contains(prev[0]) {
        let k = choose|k: int| 0 <= k < prev.len() && prev[k] == id;
        assert(k != 0);
        assert(prev.drop_first()[k - 1] == id);
        lemma_first_lost_found(prev.drop_first(), cur, id);
    }
}

/// Lost-section detection: an id of the previous output that the fresh rendering lacks
/// fails validation; when both texts are otherwise sound, it fails with a lost section.
pub proof fn lemma_lost_section_fails(rendered: Seq<char>, prev: Seq<char>, s: Seq<char>, e: Seq<char>, id: Seq<char>)
    requires
        section_ids(prev, s, 0).contains(id),
        !section_ids(rendered, s, 0).contains(id),
    ensures
        validation_verdict(rendered, Some(prev), s, e) is Some,
        text_verdict(rendered, s, e) is None && text_verdict(prev, s, e) is None ==> validation_verdict(
            rendered,
            Some(prev),
            s,
            e,
        ) matches Some(SectionFault::Lost(_)),
{
    lemma_first_lost_found(section_ids(prev, s, 0), section_ids(rendered, s, 0), id);
}

proof fn lemma_repeats_found(ids: Seq<Seq<char>>, i: int, j: int)
    requires
        0 <= i < j < ids.len(),
        ids[i] == ids[j],
    ensures
        repeats(ids).len() > 0,
    decreases ids.len(),
{
    if j == ids.len() - 1 {
        assert(ids.drop_last()[i] == ids.last());
    } else {
        assert(ids.drop_last()[i] == ids.drop_last()[j]);
        lemma_repeats_found(ids.drop_last(), i, j);
    }
}

/// Duplicate detection: two headers with the same id fail the duplicate check, whatever
/// their sections hold.
pub proof fn lemma_duplicate_ids_fail(t: Seq<char>, s: Seq<char>, i: int, j: int)
    requires
        0 <= i < j < section_ids(t, s, 0).len(),
        section_ids(t, s, 0)[i] == section_ids(t, s, 0)[j],
    ensures
        duplicate_verdict(t, s) is Some,
{
    lemma_repeats_found(section_ids(t, s, 0), i, j);
}

/// Some end position lies between the `k`-th start position and the next one.
pub open spec fn closed_between(st: Seq<int>, en: Seq<int>, k: int) -> bool {
    exists|q: int| 0 <= q < en.len() && st[k] <= #[trigger] en[q] < st[k + 1]
}

proof fn lemma_walk_closes(st: Seq<int>, en: Seq<int>, open: bool)
    requires
        structure_walk(st, en, open) is None,
    ensures
        forall|k: int| 0 <= k < st.len() - 1 ==> #[trigger] closed_between(st, en, k),
    decreases st.len() + en.len(),
{
    if st.len() == 0 && en.len() == 0 {
    } else if en.len() == 0 || (st.len() > 0 && st[0] <= en[0]) {
        let rest = st.drop_first();
        lemma_walk_closes(rest, en, true);
        assert forall|k: int| 0 <= k < st.len() - 1 implies #[trigger] closed_between(st, en, k) by {
            if k == 0 {
                assert(rest.len() > 0);
                assert(en.len() > 0 && en[0] < rest[0]);
                assert(st[0] <= en[0] < st[1]);
            } else {
                assert(closed_between(rest, en, k - 1));
                assert(rest[k - 1] == st[k] && rest[k] == st[k + 1]);
            }
        }
    } else {
        let rest = en.drop_first();
        lemma_walk_closes(st, rest, false);
        assert forall|k: int| 0 <= k < st.len() - 1 implies #[trigger] closed_between(st, en, k) by {
            assert(closed_between(st, rest, k));
            let q = choose|q: int| 0 <= q < rest.len() && st[k] <= #[trigger] rest[q] < st[k + 1];
            assert(en[q + 1] == rest[q]);
        }
    }
}

/// Nesting detection: a start marker followed by another start marker with no end marker
/// between them fails the structure check.
pub proof fn lemma_nested_start_fails(t: Seq<char>, s: Seq<char>, e: Seq<char>, k: int)
    requires
        0 <= k < occurrences(t, s, 0).len() - 1,
        forall|q: int|
            0 <= q < occurrences(t, e, 0).len() ==> !(occurrences(t, s, 0)[k] <= #[trigger] occurrences(t, e, 0)[q]
                < occurrences(t, s, 0)[k + 1]),
    ensures
        structure_verdict(t, s, e) is Some,
{
    let st = occurrences(t, s, 0);
    let en = occurrences(t, e, 0);
    if st.len() == en.len() && structure_walk(st, en, false) is None {
        lemma_walk_closes(st, en, false);
        assert(closed_between(st, en, k));
    }
}

/// A text whose sections have distinct ids, merged with itself, stays as it is.
pub proof fn lemma_preserve_self(t: Seq<char>, s: Seq<char>, e: Seq<char>)
    requires
        forall|i: int, j: int|
            0 <= i < j < blocks(t, s, e, 0).len() ==> span_id(t, #[trigger] blocks(t, s, e, 0)[i]) != span_id(
                t,
                #[trigger] blocks(t, s, e, 0)[j],
            ),
    ensures
        preserved(t, t, s, e) == t,
{
    let bs = blocks(t, s, e, 0);
    let table = block_table(t, bs);
    lemma_blocks(t, s, e, 0);
    assert forall|i: int| 0 <= i < bs.len() implies replacement(t, #[trigger] bs[i], table, true) == span_text(
        t,
        bs[i],
    ) by {
        lemma_lookup_own(t, bs, i);
    }
    lemma_rebuilt_self(t, bs, table, bs.len());
    assert(preserved(t, t, s, e) =~= t.subrange(0, gap_start(bs, bs.len() as int)) + t.subrange(
        gap_start(bs, bs.len() as int),
        t.len() as int,
    ));
    assert(preserved(t, t, s, e) =~= t);
}

proof fn lemma_lookup_own(t: Seq<char>, bs: Seq<(int, int, int, int)>, i: int)
    requires
        0 <= i < bs.len(),
        forall|a: int, b: int| 0 <= a < b < bs.len() ==> span_id(t, #[trigger] bs[a]) != span_id(t, #[trigger] bs[b]),
    ensures
        lookup_first(block_table(t, bs), span_id(t, bs[i])) == Some(span_text(t, bs[i])),
    decreases bs.len(),
{
    let table = block_table(t, bs);
    if i > 0 {
        assert(span_id(t, bs[0]) != span_id(t, bs[i]));
        assert(table.drop_first() =~= block_table(t, bs.drop_first()));
        assert(bs.drop_first()[i - 1] == bs[i]);
        assert forall|a: int, b: int| 0 <= a < b < bs.drop_first().len() implies span_id(
            t,
            #[trigger] bs.drop_first()[a],
        ) != span_id(t, #[trigger] bs.drop_first()[b]) by {
            assert(bs.drop_first()[a] == bs[a + 1] && bs.drop_first()[b] == bs[b + 1]);
        }
        lemma_lookup_own(t, bs.drop_first(), i - 1);
    }
}

proof fn lemma_rebuilt_self(t: Seq<char>, bs: Seq<(int, int, int, int)>, table: Seq<(Seq<char>, Seq<char>)>, n: nat)
    requires
        n <= bs.len(),
        spans_ordered(bs, t.len() as int, 0),
        forall|i: int| 0 <= i < bs.len() ==> replacement(t, #[trigger] bs[i], table, true) == span_text(t, bs[i]),
    ensures
        rebuilt(t, bs, table, true, n) == t.subrange(0, gap_start(bs, n as int)),
    decreases n,
{
    if n > 0 {
        lemma_rebuilt_self(t, bs, table, (n - 1) as nat);
        let b = bs[n - 1];
        assert(replacement(t, b, table, true) == span_text(t, b));
        assert(n >= 2 ==> bs[n - 2].3 <= bs[n - 1].0);
        assert(rebuilt(t, bs, table, true, n) =~= t.subrange(0, gap_start(bs, n as int)));
    } else {
        assert(t.subrange(0, 0) =~= Seq::<char>::empty());
    }
}

} // verus!
