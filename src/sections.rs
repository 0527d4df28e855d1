//! The manual-section grammar: headers `<start>: <id>` and the spans they open.
use vstd::prelude::*;
use crate::text::{
    is_space, occurs_at, first_occurrence, occurs, find_from, space, lemma_first_occurrence, skip_spaces,
    lemma_skip_spaces, skip_spaces_exec,
};

verus! {

pub open spec fn is_id_char(c: char) -> bool {
    ('a' <= c && c <= 'z') || ('A' <= c && c <= 'Z') || ('0' <= c && c <= '9') || c == '_'
        || c == '-'
}

/// The first position at or after `i` that holds no id character.
pub open spec fn id_run_end(t: Seq<char>, i: int) -> int
    decreases t.len() - i,
{
    if i < 0 || i >= t.len() || !is_id_char(t[i]) {
        i
    } else {
        id_run_end(t, i + 1)
    }
}

/// A header found in a text: where it starts, where its id lies, and where it ends
/// (after the single whitespace character that closes it, if any).
pub struct HeaderSpan {
    pub start: usize,
    pub id_start: usize,
    pub id_end: usize,
    pub end: usize,
}

/// The header that starts at `p`, as `(id_start, id_end, end)`: the start marker,
/// a colon, optional whitespace, a non-empty id, then whitespace or the end of the text.
pub open spec fn header_at(t: Seq<char>, p: int, s: Seq<char>) -> Option<(int, int, int)> {
    let colon = p + s.len();
    if occurs_at(t, p, s) && colon < t.len() && t[colon] == ':' {
        let i = skip_spaces(t, colon + 1);
        let j = id_run_end(t, i);
        if j <= i {
            None
        } else if j == t.len() {
            Some((i, j, j))
        } else if is_space(t[j]) {
            Some((i, j, j + 1))
        } else {
            None
        }
    } else {
        None
    }
}

/// The first header that starts at or after `from`.
pub open spec fn next_header(t: Seq<char>, s: Seq<char>, from: int) -> Option<(int, int, int, int)>
    decreases t.len() + 1 - from,
{
    if from < 0 || from > t.len() {
        None
    } else {
        match header_at(t, from, s) {
            Some(h) => Some((from, h.0, h.1, h.2)),
            None => next_header(t, s, from + 1),
        }
    }
}

/// The ids of the headers of `t` from `from` on, in order; the search resumes
/// after each header.
pub open spec fn section_ids(t: Seq<char>, s: Seq<char>, from: int) -> Seq<Seq<char>>
    decreases t.len() + 1 - from,
{
    match next_header(t, s, from) {
        Some(h) => if h.3 <= from || h.3 > t.len() {
            Seq::empty()
        } else {
            seq![t.subrange(h.1, h.2)] + section_ids(t, s, h.3)
        },
        None => Seq::empty(),
    }
}

/// The whole span of the section that the first header at or after `from` opens,
/// as `(start, id_start, id_end, end)`: up to and including the first end marker
/// after the header.
pub open spec fn next_block(t: Seq<char>, s: Seq<char>, e: Seq<char>, from: int) -> Option<(int, int, int, int)> {
    match next_header(t, s, from) {
        Some(h) => match first_occurrence(t, e, h.3) {
            Some(q) => Some((h.0, h.1, h.2, q + e.len())),
            None => None,
        },
        None => None,
    }
}

/// The section spans of `t` from `from` on, in order, none overlapping.
pub open spec fn blocks(t: Seq<char>, s: Seq<char>, e: Seq<char>, from: int) -> Seq<(int, int, int, int)>
    decreases t.len() + 1 - from,
{
    match next_block(t, s, e, from) {
        Some(b) => if b.3 <= from || b.3 > t.len() {
            Seq::empty()
        } else {
            seq![b] + blocks(t, s, e, b.3)
        },
        None => Seq::empty(),
    }
}

/// A section span found in a text.
pub struct SectionSpan {
    pub start: usize,
    pub id_start: usize,
    pub id_end: usize,
    pub end: usize,
}

impl SectionSpan {
    pub open spec fn view(&self) -> (int, int, int, int) {
        (self.start as int, self.id_start as int, self.id_end as int, self.end as int)
    }
}

/// Spans that lie in order inside a text of length `n`, at or after `from`, none overlapping.
pub open spec fn spans_ordered(bs: Seq<(int, int, int, int)>, n: int, from: int) -> bool {
    &&& forall|i: int|
        0 <= i < bs.len() ==> from <= #[trigger] bs[i].0 < bs[i].1 <= bs[i].2 <= bs[i].3 <= n
            && bs[i].0 < bs[i].3
    &&& forall|i: int| 0 <= i < bs.len() - 1 ==> #[trigger] bs[i].3 <= bs[i + 1].0
}

pub proof fn lemma_next_block(t: Seq<char>, s: Seq<char>, e: Seq<char>, from: int)
    ensures
        next_block(t, s, e, from) matches Some(b) ==> from <= b.0 < b.1 <= b.2 <= b.3 <= t.len()
            && b.0 < b.3,
{
    lemma_next_header(t, s, from);
    if let Some(h) = next_header(t, s, from) {
        lemma_first_occurrence(t, e, h.3);
    }
}

pub proof fn lemma_blocks(t: Seq<char>, s: Seq<char>, e: Seq<char>, from: int)
    ensures
        spans_ordered(blocks(t, s, e, from), t.len() as int, from),
    decreases t.len() + 1 - from,
{
    lemma_next_block(t, s, e, from);
    if let Some(b) = next_block(t, s, e, from) {
        if !(b.3 <= from || b.3 > t.len()) {
            lemma_blocks(t, s, e, b.3);
            let rest = blocks(t, s, e, b.3);
            let bs = blocks(t, s, e, from);
            assert(bs == seq![b] + rest);
            assert forall|i: int| 0 <= i < bs.len() - 1 implies #[trigger] bs[i].3 <= bs[i + 1].0 by {
                if i > 0 {
                    assert(bs[i] == rest[i - 1]);
                    assert(bs[i + 1] == rest[i]);
                } else {
                    assert(bs[1] == rest[0]);
                }
            }
            assert forall|i: int| 0 <= i < bs.len() implies from <= #[trigger] bs[i].0 < bs[i].1 <= bs[i].2 <= bs[i].3 <= t.len()
                && bs[i].0 < bs[i].3 by {
                if i > 0 {
                    assert(bs[i] == rest[i - 1]);
                }
            }
        }
    }
}

pub proof fn lemma_id_run_end(t: Seq<char>, i: int)
    requires
        0 <= i <= t.len(),
    ensures
        i <= id_run_end(t, i) <= t.len(),
    decreases t.len() - i,
{
    if i < t.len() && is_id_char(t[i]) {
        lemma_id_run_end(t, i + 1);
    }
}

pub proof fn lemma_next_header(t: Seq<char>, s: Seq<char>, from: int)
    ensures
        next_header(t, s, from) matches Some(h) ==> from <= h.0 && h.0 + s.len() < h.1 && h.1 < h.2
            <= h.3 <= t.len() && h.3 > h.0,
    decreases t.len() + 1 - from,
{
    if 0 <= from <= t.len() {
        match header_at(t, from, s) {
            Some(h) => {
                lemma_skip_spaces(t, from + s.len() + 1);
                lemma_id_run_end(t, skip_spaces(t, from + s.len() + 1));
            },
            None => lemma_next_header(t, s, from + 1),
        }
    }
}

pub fn is_id(c: char) -> (r: bool)
    ensures
        r == is_id_char(c),
{
    ('a' <= c && c <= 'z') || ('A' <= c && c <= 'Z') || ('0' <= c && c <= '9') || c == '_'
        || c == '-'
}

fn id_run_end_exec(t: &Vec<char>, i: usize) -> (r: usize)
    requires
        i <= t.len(),
    ensures
        r == id_run_end(t@, i as int),
{
    let mut j: usize = i;
    while j < t.len() && is_id(t[j])
        invariant
            i <= j <= t.len(),
            id_run_end(t@, i as int) == id_run_end(t@, j as int),
        decreases t.len() - j,
    {
        j = j + 1;
    }
    j
}

fn header_at_exec(t: &Vec<char>, p: usize, s: &Vec<char>) -> (r: Option<HeaderSpan>)
    requires
        p <= t.len(),
    ensures
        match r {
            Some(h) => header_at(t@, p as int, s@) == Some(
                (h.id_start as int, h.id_end as int, h.end as int),
            ) && h.start == p,
            None => header_at(t@, p as int, s@) is None,
        },
{
    if !occurs(t, p, s) {
        return None;
    }
    let colon = p + s.len();
    if colon >= t.len() || t[colon] != ':' {
        return None;
    }
    let i = skip_spaces_exec(t, colon + 1);
    proof {
        lemma_skip_spaces(t@, colon + 1);
    }
    let j = id_run_end_exec(t, i);
    proof {
        lemma_id_run_end(t@, i as int);
    }
    if j <= i {
        None
    } else if j == t.len() {
        Some(HeaderSpan { start: p, id_start: i, id_end: j, end: j })
    } else if space(t[j]) {
        Some(HeaderSpan { start: p, id_start: i, id_end: j, end: j + 1 })
    } else {
        None
    }
}

/// The first header at or after `from`.
pub fn next_header_exec(t: &Vec<char>, s: &Vec<char>, from: usize) -> (r: Option<HeaderSpan>)
    ensures
        match r {
            Some(h) => next_header(t@, s@, from as int) == Some(
                (h.start as int, h.id_start as int, h.id_end as int, h.end as int),
            ),
            None => next_header(t@, s@, from as int) is None,
        },
{
    if from > t.len() {
        return None;
    }
    let mut p: usize = from;
    loop
        invariant
            from <= p <= t.len(),
            next_header(t@, s@, from as int) == next_header(t@, s@, p as int),
        decreases t.len() - p,
    {
        match header_at_exec(t, p, s) {
            Some(h) => {
                return Some(h);
            },
            None => {
                if p == t.len() {
                    assert(next_header(t@, s@, p + 1) is None);
                    return None;
                }
                p = p + 1;
            },
        }
    }
}

/// The first section span at or after `from`.
pub fn next_block_exec(t: &Vec<char>, s: &Vec<char>, e: &Vec<char>, from: usize) -> (r: Option<SectionSpan>)
    ensures
        match r {
            Some(b) => next_block(t@, s@, e@, from as int) == Some(b@),
            None => next_block(t@, s@, e@, from as int) is None,
        },
{
    match next_header_exec(t, s, from) {
        None => None,
        Some(h) => {
            proof {
                lemma_next_header(t@, s@, from as int);
            }
            match find_from(t, e, h.end) {
                None => None,
                Some(q) => {
                    proof {
                        lemma_first_occurrence(t@, e@, h.end as int);
                    }
                    Some(SectionSpan { start: h.start, id_start: h.id_start, id_end: h.id_end, end: q + e.len() })
                },
            }
        },
    }
}

/// All section spans of `t`, in order.
pub fn scan_blocks(t: &Vec<char>, s: &Vec<char>, e: &Vec<char>) -> (r: Vec<SectionSpan>)
    ensures
        r@.map_values(|b: SectionSpan| b@) == blocks(t@, s@, e@, 0),
{
    let mut r: Vec<SectionSpan> = Vec::new();
    let mut pos: usize = 0;
    loop
        invariant
            pos <= t.len(),
            r@.map_values(|b: SectionSpan| b@) + blocks(t@, s@, e@, pos as int) == blocks(t@, s@, e@, 0),
        decreases t.len() + 1 - pos,
    {
        match next_block_exec(t, s, e, pos) {
            None => {
                assert(r@.map_values(|b: SectionSpan| b@) + blocks(t@, s@, e@, pos as int)
                    =~= r@.map_values(|b: SectionSpan| b@));
                return r;
            },
            Some(b) => {
                proof {
                    lemma_next_block(t@, s@, e@, pos as int);
                }
                let ghost old_r = r@;
                let next = b.end;
                let ghost bv = b@;
                r.push(b);
                assert(r@.map_values(|b: SectionSpan| b@) =~= old_r.map_values(|b: SectionSpan| b@).push(bv));
                assert(blocks(t@, s@, e@, pos as int) == seq![bv] + blocks(t@, s@, e@, next as int));
                assert(r@.map_values(|b: SectionSpan| b@) + blocks(t@, s@, e@, next as int)
                    =~= old_r.map_values(|b: SectionSpan| b@) + blocks(t@, s@, e@, pos as int));
                pos = next;
            },
        }
    }
}

} // verus!
