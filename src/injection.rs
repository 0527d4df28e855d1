//! Anchor-based injection: a rendered injection file declares blocks
//! `<!-- injection-pattern: <name> -->`, a locator pattern, then replacement text between
//! `<!-- injection-string-start -->` and `<!-- injection-string-end -->`. Each match of a
//! locator's `injection` group in the previous file is replaced by the block's text.
//! Edits that collide (the same start, or one starting inside another) are rejected
//! rather than spliced; a locator that matches nothing only yields a warning.
use vstd::prelude::*;
use crate::text::{chars_of, occurs_at, first_occurrence, occurs, find_from, trimmed, trim_bounds, lemma_first_occurrence};
use crate::sections::{id_run_end, lemma_id_run_end};
use crate::locator::{
    regex_compiles, capture_names_of, group_ranges_of, names_view, ranges_view, compile_group_names, group_ranges,
};

verus! {

pub open spec fn head_open() -> Seq<char> {
    "<!-- injection-pattern: "@
}

pub open spec fn head_close() -> Seq<char> {
    " -->"@
}

pub open spec fn string_start() -> Seq<char> {
    "<!-- injection-string-start -->"@
}

pub open spec fn string_end() -> Seq<char> {
    "<!-- injection-string-end -->"@
}

/// The block header at `p`, as `(name_start, name_end, end)`.
pub open spec fn injection_header_at(t: Seq<char>, p: int) -> Option<(int, int, int)> {
    let ns = p + head_open().len();
    let ne = id_run_end(t, ns);
    if occurs_at(t, p, head_open()) && ne > ns && occurs_at(t, ne, head_close()) {
        Some((ns, ne, ne + head_close().len()))
    } else {
        None
    }
}

/// The first block header at or after `from`, as `(start, name_start, name_end, end)`.
pub open spec fn next_injection_header(t: Seq<char>, from: int) -> Option<(int, int, int, int)>
    decreases t.len() + 1 - from,
{
    if from < 0 || from > t.len() {
        None
    } else {
        match injection_header_at(t, from) {
            Some(h) => Some((from, h.0, h.1, h.2)),
            None => next_injection_header(t, from + 1),
        }
    }
}

/// A declared block, as `(name, locator pattern, replacement)`; the replacement is
/// missing when no start tag follows the header.
pub type BlockView = (Seq<char>, Seq<char>, Option<Seq<char>>);

/// The block whose header ends at `h`: the pattern is the trimmed text up to the next
/// start tag, the replacement runs from that tag to the next end tag (or the end).
pub open spec fn block_after(t: Seq<char>, name: Seq<char>, h: int) -> BlockView {
    match first_occurrence(t, string_start(), h) {
        Some(q) => {
            let rs = q + string_start().len();
            let rep = match first_occurrence(t, string_end(), rs) {
                Some(z) => t.subrange(rs, z),
                None => t.subrange(rs, t.len() as int),
            };
            (name, trimmed(t.subrange(h, q)), Some(rep))
        },
        None => (name, trimmed(t.subrange(h, t.len() as int)), None),
    }
}

/// The blocks of `t` declared from `from` on; the search resumes after each header.
pub open spec fn injection_blocks(t: Seq<char>, from: int) -> Seq<BlockView>
    decreases t.len() + 1 - from,
{
    match next_injection_header(t, from) {
        Some(h) => if h.3 <= from || h.3 > t.len() {
            Seq::empty()
        } else {
            seq![block_after(t, t.subrange(h.1, h.2), h.3)] + injection_blocks(t, h.3)
        },
        None => Seq::empty(),
    }
}

pub proof fn lemma_next_injection_header(t: Seq<char>, from: int)
    ensures
        next_injection_header(t, from) matches Some(h) ==> from <= h.0 && h.0 < h.1 < h.2 < h.3 <= t.len(),
    decreases t.len() + 1 - from,
{
    if 0 <= from <= t.len() {
        match injection_header_at(t, from) {
            Some(h) => {
                reveal_strlit("<!-- injection-pattern: ");
                reveal_strlit(" -->");
                lemma_id_run_end(t, from + head_open().len());
            },
            None => lemma_next_injection_header(t, from + 1),
        }
    }
}

/// A pending edit, as `(start, end, replacement)` over character positions.
pub type EditView = (int, int, Seq<char>);

/// Why an injection failed, in mathematical terms.
pub enum InjectionFault {
    InvalidPattern(Seq<char>),
    MissingGroup(Seq<char>),
    Unterminated(Seq<char>),
    Overlap,
}

pub open spec fn injection_group() -> Seq<char> {
    "injection"@
}

/// The ranges that took part, in order.
pub open spec fn present(v: Seq<Option<(int, int)>>) -> Seq<(int, int)>
    decreases v.len(),
{
    if v.len() == 0 {
        Seq::empty()
    } else {
        match v.last() {
            Some(m) => present(v.drop_last()).push(m),
            None => present(v.drop_last()),
        }
    }
}

/// The edits of one block against `prior`, and the block's name as a warning when its
/// locator matches nothing.
pub open spec fn block_edits(b: BlockView, prior: Option<Seq<char>>) -> Result<(Seq<EditView>, Seq<Seq<char>>), InjectionFault> {
    if !regex_compiles(b.1) {
        Err(InjectionFault::InvalidPattern(b.1))
    } else if !capture_names_of(b.1).contains(Some(injection_group())) {
        Err(InjectionFault::MissingGroup(b.1))
    } else {
        match b.2 {
            None => Err(InjectionFault::Unterminated(b.0)),
            Some(rep) => {
                let ms = match prior {
                    Some(p) => present(group_ranges_of(b.1, injection_group(), p)),
                    None => Seq::empty(),
                };
                if ms.len() == 0 {
                    Ok((Seq::empty(), seq![b.0]))
                } else {
                    Ok((ms.map_values(|m: (int, int)| (m.0, m.1, rep)), Seq::empty()))
                }
            },
        }
    }
}

/// The edits and warnings of all blocks, in order; the first failing block decides.
pub open spec fn collected(bs: Seq<BlockView>, prior: Option<Seq<char>>) -> Result<(Seq<EditView>, Seq<Seq<char>>), InjectionFault>
    decreases bs.len(),
{
    if bs.len() == 0 {
        Ok((Seq::empty(), Seq::empty()))
    } else {
        match collected(bs.drop_last(), prior) {
            Err(f) => Err(f),
            Ok(acc) => match block_edits(bs.last(), prior) {
                Err(f) => Err(f),
                Ok(next) => Ok((acc.0 + next.0, acc.1 + next.1)),
            },
        }
    }
}

/// Two edits collide: they start at the same place, or one starts inside the other.
pub open spec fn overlap(a: EditView, b: EditView) -> bool {
    a.0 == b.0 || (a.0 < b.0 && b.0 < a.1) || (b.0 < a.0 && a.0 < b.1)
}

pub open spec fn no_overlap(es: Seq<EditView>) -> bool {
    forall|i: int, j: int| 0 <= i < j < es.len() ==> !overlap(#[trigger] es[i], #[trigger] es[j])
}

pub open spec fn within(es: Seq<EditView>, n: int) -> bool {
    forall|i: int| 0 <= i < es.len() ==> 0 <= (#[trigger] es[i]).0 <= es[i].1 <= n
}

pub open spec fn is_permutation(perm: Seq<int>, n: int) -> bool {
    &&& perm.len() == n
    &&& forall|i: int| 0 <= i < n ==> 0 <= #[trigger] perm[i] < n
    &&& forall|i: int, j: int| 0 <= i < j < n ==> #[trigger] perm[i] != #[trigger] perm[j]
}

pub open spec fn reordered(es: Seq<EditView>, perm: Seq<int>) -> Seq<EditView> {
    perm.map_values(|i: int| es[i])
}

pub open spec fn ascending(es: Seq<EditView>) -> bool {
    forall|i: int, j: int| 0 <= i < j < es.len() ==> (#[trigger] es[i]).0 < (#[trigger] es[j]).0
}

pub open spec fn end_before(es: Seq<EditView>, n: int) -> int {
    if n <= 0 {
        0
    } else {
        es[n - 1].1
    }
}

/// `p` up to the end of the `n`-th edit, with the edits applied.
pub open spec fn spliced_upto(p: Seq<char>, es: Seq<EditView>, n: nat) -> Seq<char>
    decreases n,
{
    if n == 0 {
        Seq::empty()
    } else {
        spliced_upto(p, es, (n - 1) as nat) + p.subrange(end_before(es, n - 1), es[n - 1].0) + es[n - 1].2
    }
}

/// `p` with the ordered edits `es` applied, the text between them kept.
pub open spec fn spliced(p: Seq<char>, es: Seq<EditView>) -> Seq<char> {
    spliced_upto(p, es, es.len()) + p.subrange(end_before(es, es.len() as int), p.len() as int)
}

/// `out` is `p` with the edits `es` applied in order of position.
pub open spec fn applied(p: Seq<char>, es: Seq<EditView>, out: Seq<char>) -> bool {
    exists|perm: Seq<int>|
        is_permutation(perm, es.len() as int) && ascending(reordered(es, perm)) && out == spliced(
            p,
            reordered(es, perm),
        )
}

/// A pending edit.
#[derive(Debug, Clone)]
pub struct Edit {
    pub start: usize,
    pub end: usize,
    pub text: String,
}

impl Edit {
    pub open spec fn view(&self) -> EditView {
        (self.start as int, self.end as int, self.text@)
    }
}

pub open spec fn edits_view(v: Seq<Edit>) -> Seq<EditView> {
    v.map_values(|e: Edit| e@)
}

#[derive(Debug, Clone)]
pub enum InjectionError {
    /// A locator does not compile; `message` says why.
    InvalidPattern { pattern: String, message: String },
    /// A locator has no group named `injection`.
    MissingGroup(String),
    /// A block has no replacement start tag.
    Unterminated(String),
    /// Two edits collide.
    Overlapping,
}

impl InjectionError {
    pub open spec fn view(&self) -> InjectionFault {
        match self {
            InjectionError::InvalidPattern { pattern, message } => InjectionFault::InvalidPattern(pattern@),
            InjectionError::MissingGroup(p) => InjectionFault::MissingGroup(p@),
            InjectionError::Unterminated(n) => InjectionFault::Unterminated(n@),
            InjectionError::Overlapping => InjectionFault::Overlap,
        }
    }
}

/// The outcome of a merge: the text, and the names of blocks that matched nothing.
#[derive(Debug, Clone)]
pub struct Injected {
    pub text: String,
    pub warnings: Vec<String>,
}

/// A block read from a rendered injection file.
pub struct InjectionBlock {
    pub name: String,
    pub pattern: String,
    pub replacement: Option<String>,
}

impl InjectionBlock {
    pub open spec fn view(&self) -> BlockView {
        (
            self.name@,
            self.pattern@,
            match self.replacement {
                Some(r) => Some(r@),
                None => None,
            },
        )
    }
}

pub open spec fn blocks_view(v: Seq<InjectionBlock>) -> Seq<BlockView> {
    v.map_values(|b: InjectionBlock| b@)
}

fn header_at_exec(t: &Vec<char>, p: usize, open: &Vec<char>, close: &Vec<char>) -> (r: Option<(usize, usize, usize)>)
    requires
        p <= t.len(),
        open@ == head_open(),
        close@ == head_close(),
    ensures
        match r {
            Some(h) => injection_header_at(t@, p as int) == Some((h.0 as int, h.1 as int, h.2 as int)),
            None => injection_header_at(t@, p as int) is None,
        },
{
    if !occurs(t, p, open) {
        return None;
    }
    let ns = p + open.len();
    let mut ne: usize = ns;
    while ne < t.len() && crate::sections::is_id(t[ne])
        invariant
            ns <= ne <= t.len(),
            id_run_end(t@, ns as int) == id_run_end(t@, ne as int),
        decreases t.len() - ne,
    {
        ne = ne + 1;
    }
    if ne > ns && occurs(t, ne, close) {
        Some((ns, ne, ne + close.len()))
    } else {
        None
    }
}

fn next_header_exec(t: &Vec<char>, from: usize, open: &Vec<char>, close: &Vec<char>) -> (r: Option<
    (usize, usize, usize, usize),
>)
    requires
        from <= t.len(),
        open@ == head_open(),
        close@ == head_close(),
    ensures
        match r {
            Some(h) => next_injection_header(t@, from as int) == Some(
                (h.0 as int, h.1 as int, h.2 as int, h.3 as int),
            ),
            None => next_injection_header(t@, from as int) is None,
        },
{
    let mut p: usize = from;
    loop
        invariant
            from <= p <= t.len(),
            open@ == head_open(),
            close@ == head_close(),
            next_injection_header(t@, from as int) == next_injection_header(t@, p as int),
        decreases t.len() - p,
    {
        match header_at_exec(t, p, open, close) {
            Some(h) => {
                return Some((p, h.0, h.1, h.2));
            },
            None => {
                if p == t.len() {
                    assert(next_injection_header(t@, p + 1) is None);
                    return None;
                }
                p = p + 1;
            },
        }
    }
}

/// Reads the blocks that `rendered` declares, in order.
pub fn parse_blocks(rendered: &str) -> (r: Vec<InjectionBlock>)
    ensures
        blocks_view(r@) == injection_blocks(rendered@, 0),
{
    let t = chars_of(rendered);
    let open = chars_of("<!-- injection-pattern: ");
    let close = chars_of(" -->");
    let start_tag = chars_of("<!-- injection-string-start -->");
    let end_tag = chars_of("<!-- injection-string-end -->");
    let mut r: Vec<InjectionBlock> = Vec::new();
    let mut pos: usize = 0;
    loop
        invariant
            t@ == rendered@,
            open@ == head_open(),
            close@ == head_close(),
            start_tag@ == string_start(),
            end_tag@ == string_end(),
            pos <= t.len(),
            blocks_view(r@) + injection_blocks(t@, pos as int) == injection_blocks(t@, 0),
        decreases t.len() + 1 - pos,
    {
        let found = next_header_exec(&t, pos, &open, &close);
        proof {
            lemma_next_injection_header(t@, pos as int);
        }
        match found {
            None => {
                assert(blocks_view(r@) + injection_blocks(t@, pos as int) =~= blocks_view(r@));
                return r;
            },
            Some((_, ns, ne, he)) => {
                let name = rendered.substring_char(ns, ne).to_owned();
                let block = match find_from(&t, &start_tag, he) {
                    Some(q) => {
                        proof {
                            lemma_first_occurrence(t@, start_tag@, he as int);
                        }
                        let (a, b) = trim_bounds(&t, he, q);
                        let rs = q + start_tag.len();
                        proof {
                            lemma_first_occurrence(t@, end_tag@, rs as int);
                        }
                        let z = match find_from(&t, &end_tag, rs) {
                            Some(z) => z,
                            None => t.len(),
                        };
                        InjectionBlock {
                            name,
                            pattern: rendered.substring_char(a, b).to_owned(),
                            replacement: Some(rendered.substring_char(rs, z).to_owned()),
                        }
                    },
                    None => {
                        let (a, b) = trim_bounds(&t, he, t.len());
                        InjectionBlock { name, pattern: rendered.substring_char(a, b).to_owned(), replacement: None }
                    },
                };
                assert(block@ == block_after(t@, t@.subrange(ns as int, ne as int), he as int));
                let ghost old_r = r@;
                let ghost bv = block@;
                r.push(block);
                assert(blocks_view(r@) =~= blocks_view(old_r).push(bv));
                assert(injection_blocks(t@, pos as int) == seq![bv] + injection_blocks(t@, he as int));
                assert(blocks_view(r@) + injection_blocks(t@, he as int) =~= blocks_view(old_r)
                    + injection_blocks(t@, pos as int));
                pos = he;
            },
        }
    }
}

fn collide(a: &Edit, b: &Edit) -> (r: bool)
    ensures
        r == overlap(a@, b@),
{
    a.start == b.start || (a.start < b.start && b.start < a.end) || (b.start < a.start && a.start < b.end)
}

/// Whether two of `es` collide.
fn any_overlap(es: &Vec<Edit>) -> (r: bool)
    ensures
        r == !no_overlap(edits_view(es@)),
{
    let ghost ev = edits_view(es@);
    let n = es.len();
    let mut i: usize = 0;
    while i < n
        invariant
            n == es.len(),
            ev == edits_view(es@),
            i <= n,
            forall|a: int, b: int| 0 <= a < b < n && a < i ==> !overlap(#[trigger] ev[a], #[trigger] ev[b]),
        decreases n - i,
    {
        let mut j: usize = i + 1;
        while j < n
            invariant
                n == es.len(),
                ev == edits_view(es@),
                i < n,
                i + 1 <= j <= n,
                forall|a: int, b: int|
                    0 <= a < b < n && (a < i || (a == i && b < j)) ==> !overlap(#[trigger] ev[a], #[trigger] ev[b]),
            decreases n - j,
        {
            assert(ev[i as int] == es@[i as int]@ && ev[j as int] == es@[j as int]@);
            if collide(&es[i], &es[j]) {
                return true;
            }
            j = j + 1;
        }
        i = i + 1;
    }
    false
}

pub open spec fn perm_view(v: Seq<usize>) -> Seq<int> {
    v.map_values(|i: usize| i as int)
}

/// The indices of `es` in order of start position.
fn order_by_start(es: &Vec<Edit>) -> (r: Vec<usize>)
    requires
        no_overlap(edits_view(es@)),
    ensures
        is_permutation(perm_view(r@), es.len() as int),
        ascending(reordered(edits_view(es@), perm_view(r@))),
{
    let ghost ev = edits_view(es@);
    let n = es.len();
    let mut perm: Vec<usize> = Vec::new();
    let mut k: usize = 0;
    while k < n
        invariant
            n == es.len(),
            ev == edits_view(es@),
            no_overlap(ev),
            k <= n,
            perm.len() == k,
            forall|i: int| 0 <= i < k ==> (#[trigger] perm@[i]) < k,
            forall|i: int, j: int| 0 <= i < j < k ==> #[trigger] perm@[i] != #[trigger] perm@[j],
            forall|i: int, j: int|
                0 <= i < j < k ==> ev[(#[trigger] perm@[i]) as int].0 < ev[(#[trigger] perm@[j]) as int].0,
        decreases n - k,
    {
        let mut pos: usize = 0;
        while pos < perm.len() && es[perm[pos]].start < es[k].start
            invariant
                n == es.len(),
                ev == edits_view(es@),
                k < n,
                perm.len() == k,
                pos <= k,
                forall|i: int| 0 <= i < k ==> (#[trigger] perm@[i]) < k,
                forall|q: int| 0 <= q < pos ==> ev[(#[trigger] perm@[q]) as int].0 < ev[k as int].0,
            decreases k - pos,
        {
            pos = pos + 1;
        }
        proof {
            if pos < k {
                let m = perm@[pos as int] as int;
                assert(ev[m].0 >= ev[k as int].0);
                assert(m != k as int);
                if m < k {
                    assert(!overlap(ev[m], ev[k as int]));
                }
                assert(ev[m].0 > ev[k as int].0);
                assert forall|q: int| pos <= q < k implies ev[(#[trigger] perm@[q]) as int].0 > ev[k as int].0 by {
                    if q > pos {
                        assert(ev[perm@[pos as int] as int].0 < ev[perm@[q] as int].0);
                    }
                }
            }
        }
        let ghost old_perm = perm@;
        perm.insert(pos, k);
        assert(perm@ == old_perm.insert(pos as int, k));
        assert forall|i: int| 0 <= i < k + 1 implies (#[trigger] perm@[i]) < k + 1 by {
            if i < pos {
                assert(perm@[i] == old_perm[i]);
            } else if i > pos {
                assert(perm@[i] == old_perm[i - 1]);
            }
        }
        assert forall|i: int, j: int| 0 <= i < j < k + 1 implies #[trigger] perm@[i] != #[trigger] perm@[j] by {
            if i < pos && j < pos {
                assert(perm@[i] == old_perm[i] && perm@[j] == old_perm[j]);
            } else if i < pos && j == pos {
                assert(perm@[i] == old_perm[i]);
            } else if i < pos {
                assert(perm@[i] == old_perm[i] && perm@[j] == old_perm[j - 1]);
            } else if i == pos {
                assert(perm@[j] == old_perm[j - 1]);
            } else {
                assert(perm@[i] == old_perm[i - 1] && perm@[j] == old_perm[j - 1]);
            }
        }
        assert forall|i: int, j: int| 0 <= i < j < k + 1 implies ev[(#[trigger] perm@[i]) as int].0 < ev[(
        #[trigger] perm@[j]) as int].0 by {
            if i < pos && j < pos {
                assert(perm@[i] == old_perm[i] && perm@[j] == old_perm[j]);
            } else if i < pos && j == pos {
                assert(perm@[i] == old_perm[i]);
            } else if i < pos {
                assert(perm@[i] == old_perm[i] && perm@[j] == old_perm[j - 1]);
            } else if i == pos {
                assert(perm@[j] == old_perm[j - 1]);
            } else {
                assert(perm@[i] == old_perm[i - 1] && perm@[j] == old_perm[j - 1]);
            }
        }
        k = k + 1;
    }
    let ghost pv = perm_view(perm@);
    let ghost ro = reordered(ev, pv);
    assert forall|i: int, j: int| 0 <= i < j < n implies #[trigger] pv[i] != #[trigger] pv[j] by {
        assert(perm@[i] != perm@[j]);
    }
    assert forall|i: int, j: int| 0 <= i < j < ro.len() implies (#[trigger] ro[i]).0 < (#[trigger] ro[j]).0 by {
        assert(ev[perm@[i] as int].0 < ev[perm@[j] as int].0);
    }
    assert forall|i: int| 0 <= i < n implies 0 <= #[trigger] pv[i] < n by {
        assert(perm@[i] < n);
    }
    perm
}

/// Whether `names` holds the group name `group`.
fn names_hold(names: &Vec<Option<String>>, group: &String) -> (r: bool)
    ensures
        r == names_view(names@).contains(Some(group@)),
{
    let ghost nv = names_view(names@);
    let mut i: usize = 0;
    while i < names.len()
        invariant
            nv == names_view(names@),
            i <= names.len(),
            forall|k: int| 0 <= k < i ==> nv[k] != Some(group@),
        decreases names.len() - i,
    {
        match &names[i] {
            Some(n) => {
                if *n == *group {
                    assert(nv[i as int] == Some(group@));
                    return true;
                }
            },
            None => {},
        }
        i = i + 1;
    }
    false
}

/// The edits and warnings of one block against `prior`.
fn edits_of_block(b: &InjectionBlock, prior: Option<&str>) -> (r: Result<(Vec<Edit>, Vec<String>), InjectionError>)
    ensures
        ({
            let pv = match prior {
                Some(p) => Some(p@),
                None => None,
            };
            match r {
                Ok((es, ws)) => block_edits(b@, pv) == Ok::<(Seq<EditView>, Seq<Seq<char>>), InjectionFault>(
                    (edits_view(es@), ws@.map_values(|w: String| w@)),
                ),
                Err(e) => block_edits(b@, pv) == Err::<(Seq<EditView>, Seq<Seq<char>>), InjectionFault>(e@),
            }
        }),
        r matches Ok((es, ws)) ==> (prior matches Some(p) ==> within(edits_view(es@), p@.len() as int)),
{
    let names = match compile_group_names(b.pattern.as_str()) {
        Ok(v) => v,
        Err(message) => {
            return Err(InjectionError::InvalidPattern { pattern: b.pattern.clone(), message });
        },
    };
    let group = String::from_str("injection");
    if !names_hold(&names, &group) {
        return Err(InjectionError::MissingGroup(b.pattern.clone()));
    }
    let rep = match &b.replacement {
        Some(x) => x,
        None => {
            return Err(InjectionError::Unterminated(b.name.clone()));
        },
    };
    let mut es: Vec<Edit> = Vec::new();
    let mut ws: Vec<String> = Vec::new();
    match prior {
        Some(p) => {
            let ranges = group_ranges(b.pattern.as_str(), group.as_str(), p);
            let ghost rv = ranges_view(ranges@);
            let mut i: usize = 0;
            assert(rv.subrange(0, 0) =~= Seq::<Option<(int, int)>>::empty());
            while i < ranges.len()
                invariant
                    rv == ranges_view(ranges@),
                    i <= ranges.len(),
                    forall|k: int|
                        0 <= k < ranges@.len() ==> (#[trigger] ranges@[k] matches Some(m) ==> m.0 <= m.1 <= p@.len()),
                    edits_view(es@) == present(rv.subrange(0, i as int)).map_values(
                        |m: (int, int)| (m.0, m.1, rep@),
                    ),
                    within(edits_view(es@), p@.len() as int),
                decreases ranges.len() - i,
            {
                let ghost sub = rv.subrange(0, i + 1);
                assert(sub.drop_last() =~= rv.subrange(0, i as int));
                match ranges[i] {
                    Some((a, z)) => {
                        assert(sub.last() == Some((a as int, z as int)));
                        let ghost old_es = es@;
                        es.push(Edit { start: a, end: z, text: rep.clone() });
                        assert(edits_view(es@) =~= edits_view(old_es).push((a as int, z as int, rep@)));
                        assert(present(sub) == present(rv.subrange(0, i as int)).push((a as int, z as int)));
                        assert(edits_view(es@) =~= present(sub).map_values(|m: (int, int)| (m.0, m.1, rep@)));
                    },
                    None => {
                        assert(sub.last() is None);
                    },
                }
                i = i + 1;
            }
            assert(rv.subrange(0, ranges.len() as int) =~= rv);
            let ghost ms = present(group_ranges_of(b@.1, injection_group(), p@));
            assert(edits_view(es@) =~= ms.map_values(|m: (int, int)| (m.0, m.1, rep@)));
            assert(ms.len() == 0 ==> es.len() == 0);
        },
        None => {
            assert(edits_view(es@) =~= Seq::<EditView>::empty());
        },
    }
    if es.len() == 0 {
        ws.push(b.name.clone());
        assert(ws@.map_values(|w: String| w@) =~= seq![b.name@]);
    } else {
        assert(ws@.map_values(|w: String| w@) =~= Seq::<Seq<char>>::empty());
    }
    assert(group@ == injection_group());
    assert(b@.2 == Some(rep@));
    assert(regex_compiles(b@.1));
    assert(capture_names_of(b@.1).contains(Some(injection_group())));
    let ghost pv = match prior {
        Some(p) => Some(p@),
        None => None,
    };
    let ghost ms = match pv {
        Some(p) => present(group_ranges_of(b@.1, injection_group(), p)),
        None => Seq::empty(),
    };
    let ghost expected = block_edits(b@, pv);
    assert(expected is Ok);
    assert(expected->Ok_0.0 =~= edits_view(es@));
    assert(expected->Ok_0.1 =~= ws@.map_values(|w: String| w@));
    Ok((es, ws))
}

/// The edits and warnings of all `blocks` against `prior`; the first failing block decides.
pub fn collect_edits(blocks: &Vec<InjectionBlock>, prior: Option<&str>) -> (r: Result<(Vec<Edit>, Vec<String>), InjectionError>)
    ensures
        ({
            let pv = match prior {
                Some(p) => Some(p@),
                None => None,
            };
            match r {
                Ok((es, ws)) => collected(blocks_view(blocks@), pv) == Ok::<
                    (Seq<EditView>, Seq<Seq<char>>),
                    InjectionFault,
                >((edits_view(es@), ws@.map_values(|w: String| w@))),
                Err(e) => collected(blocks_view(blocks@), pv) == Err::<(Seq<EditView>, Seq<Seq<char>>), InjectionFault>(
                    e@,
                ),
            }
        }),
        r matches Ok((es, ws)) ==> (prior matches Some(p) ==> within(edits_view(es@), p@.len() as int)),
{
    let ghost pv = match prior {
        Some(p) => Some(p@),
        None => None,
    };
    let ghost bv = blocks_view(blocks@);
    let mut es: Vec<Edit> = Vec::new();
    let mut ws: Vec<String> = Vec::new();
    let mut i: usize = 0;
    assert(bv.subrange(0, 0) =~= Seq::<BlockView>::empty());
    assert(edits_view(es@) =~= Seq::<EditView>::empty());
    assert(ws@.map_values(|w: String| w@) =~= Seq::<Seq<char>>::empty());
    while i < blocks.len()
        invariant
            bv == blocks_view(blocks@),
            pv == (match prior {
                Some(p) => Some(p@),
                None => None::<Seq<char>>,
            }),
            i <= blocks.len(),
            collected(bv.subrange(0, i as int), pv) == Ok::<(Seq<EditView>, Seq<Seq<char>>), InjectionFault>(
                (edits_view(es@), ws@.map_values(|w: String| w@)),
            ),
            prior matches Some(p) ==> within(edits_view(es@), p@.len() as int),
        decreases blocks.len() - i,
    {
        let ghost sub = bv.subrange(0, i + 1);
        assert(sub.drop_last() =~= bv.subrange(0, i as int));
        assert(sub.last() == blocks@[i as int]@);
        match edits_of_block(&blocks[i], prior) {
            Err(e) => {
                proof {
                    lemma_collected_fails(bv, pv, (i + 1) as nat);
                }
                assert(bv.subrange(0, blocks.len() as int) =~= bv);
                return Err(e);
            },
            Ok((mut more, mut more_ws)) => {
                let ghost old_es = edits_view(es@);
                let ghost old_ws = ws@.map_values(|w: String| w@);
                let ghost add_es = edits_view(more@);
                let ghost add_ws = more_ws@.map_values(|w: String| w@);
                es.append(&mut more);
                ws.append(&mut more_ws);
                assert(edits_view(es@) =~= old_es + add_es);
                assert(ws@.map_values(|w: String| w@) =~= old_ws + add_ws);
                proof {
                    if let Some(p) = prior {
                        assert forall|k: int| 0 <= k < edits_view(es@).len() implies 0 <= (#[trigger] edits_view(es@)[k]).0
                            <= edits_view(es@)[k].1 <= p@.len() by {
                            if k < old_es.len() {
                                assert(edits_view(es@)[k] == old_es[k]);
                            } else {
                                assert(edits_view(es@)[k] == add_es[k - old_es.len()]);
                            }
                        }
                    }
                }
            },
        }
        i = i + 1;
    }
    assert(bv.subrange(0, blocks.len() as int) =~= bv);
    Ok((es, ws))
}

/// Once a prefix of the blocks fails, every longer prefix fails the same way.
proof fn lemma_collected_fails(bv: Seq<BlockView>, pv: Option<Seq<char>>, n: nat)
    requires
        n <= bv.len(),
        collected(bv.subrange(0, n as int), pv) is Err,
    ensures
        collected(bv, pv) == collected(bv.subrange(0, n as int), pv),
    decreases bv.len() - n,
{
    if n < bv.len() {
        let sub = bv.subrange(0, n as int + 1);
        assert(sub.drop_last() =~= bv.subrange(0, n as int));
        lemma_collected_fails(bv, pv, n + 1);
    } else {
        assert(bv.subrange(0, n as int) =~= bv);
    }
}

/// Merges a rendered injection file into `prior`: every block's edits, applied in order
/// of position. Without a previous file the blocks are still checked, and the rendered
/// text comes back as it is.
pub fn apply(rendered: &str, prior: Option<&str>) -> (r: Result<Injected, InjectionError>)
    ensures
        ({
            let pv = match prior {
                Some(p) => Some(p@),
                None => None,
            };
            match collected(injection_blocks(rendered@, 0), pv) {
                Err(f) => r matches Err(e) && e@ == f,
                Ok((es, ws)) => match prior {
                    None => r matches Ok(out) && out.text@ == rendered@ && out.warnings@.map_values(
                        |w: String| w@,
                    ) == ws,
                    Some(p) => if no_overlap(es) {
                        r matches Ok(out) && applied(p@, es, out.text@) && out.warnings@.map_values(
                            |w: String| w@,
                        ) == ws
                    } else {
                        r matches Err(e) && e@ == InjectionFault::Overlap
                    },
                },
            }
        }),
{
    let blocks = parse_blocks(rendered);
    let (edits, warnings) = collect_edits(&blocks, prior)?;
    match prior {
        None => Ok(Injected { text: rendered.to_owned(), warnings }),
        Some(p) => {
            let text = splice_edits(p, &edits)?;
            Ok(Injected { text, warnings })
        },
    }
}

/// Applies `edits` to `prior` in order of position, rejecting edits that collide.
pub fn splice_edits(prior: &str, edits: &Vec<Edit>) -> (r: Result<String, InjectionError>)
    requires
        within(edits_view(edits@), prior@.len() as int),
    ensures
        match r {
            Ok(out) => no_overlap(edits_view(edits@)) && applied(prior@, edits_view(edits@), out@),
            Err(e) => !no_overlap(edits_view(edits@)) && e@ == InjectionFault::Overlap,
        },
{
    if any_overlap(edits) {
        return Err(InjectionError::Overlapping);
    }
    let ghost ev = edits_view(edits@);
    let perm = order_by_start(edits);
    let ghost pv = perm_view(perm@);
    let ghost ro = reordered(ev, pv);
    let mut out = String::new();
    let mut last: usize = 0;
    let mut k: usize = 0;
    while k < perm.len()
        invariant
            ev == edits_view(edits@),
            pv == perm_view(perm@),
            ro == reordered(ev, pv),
            is_permutation(pv, ev.len() as int),
            ascending(ro),
            no_overlap(ev),
            within(ev, prior@.len() as int),
            k <= perm.len(),
            last as int == end_before(ro, k as int),
            last <= prior@.len(),
            out@ == spliced_upto(prior@, ro, k as nat),
        decreases perm.len() - k,
    {
        let i = perm[k];
        assert(pv[k as int] == i as int);
        assert(ro[k as int] == ev[i as int]);
        assert(ev[i as int] == edits@[i as int]@);
        proof {
            if k > 0 {
                let a = pv[k - 1];
                let b = i as int;
                assert(ro[k - 1] == ev[a]);
                assert(ro[k - 1].0 < ro[k as int].0);
                if a < b {
                    assert(!overlap(ev[a], ev[b]));
                } else {
                    assert(a != b);
                    assert(!overlap(ev[b], ev[a]));
                }
            }
        }
        let e = &edits[i];
        out.append(prior.substring_char(last, e.start));
        out.append(e.text.as_str());
        last = e.end;
        k = k + 1;
    }
    out.append(prior.substring_char(last, prior.unicode_len()));
    assert(applied(prior@, ev, out@));
    Ok(out)
}

} // verus!

verus! {

/// With no edits to apply, the previous text comes back unchanged.
pub proof fn lemma_no_edits_keep_prior(p: Seq<char>, out: Seq<char>)
    requires
        applied(p, Seq::empty(), out),
    ensures
        out == p,
{
    let perm = choose|perm: Seq<int>|
        is_permutation(perm, 0) && ascending(reordered(Seq::<EditView>::empty(), perm)) && out == spliced(
            p,
            reordered(Seq::<EditView>::empty(), perm),
        );
    let es = reordered(Seq::<EditView>::empty(), perm);
    assert(es.len() == 0);
    assert(spliced(p, es) =~= p);
}

} // verus!
