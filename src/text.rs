//! Character-level helpers shared by the parsers and mergers.
use vstd::prelude::*;

verus! {

/// Unicode whitespace (the `White_Space` property).
pub open spec fn is_space(c: char) -> bool {
    ('\u{9}' <= c && c <= '\u{d}') || c == ' ' || c == '\u{85}' || c == '\u{a0}' || c == '\u{1680}'
        || ('\u{2000}' <= c && c <= '\u{200a}') || c == '\u{2028}' || c == '\u{2029}' || c == '\u{202f}'
        || c == '\u{205f}' || c == '\u{3000}'
}

/// The first position at or after `i` that holds no whitespace.
pub open spec fn skip_spaces(t: Seq<char>, i: int) -> int
    decreases t.len() - i,
{
    if i < 0 || i >= t.len() || !is_space(t[i]) {
        i
    } else {
        skip_spaces(t, i + 1)
    }
}

/// The position just after the last character before `j` that is no whitespace.
pub open spec fn back_spaces(t: Seq<char>, j: int) -> int
    decreases j,
{
    if j <= 0 || j > t.len() || !is_space(t[j - 1]) {
        j
    } else {
        back_spaces(t, j - 1)
    }
}

/// `t` without leading and trailing whitespace.
pub open spec fn trimmed(t: Seq<char>) -> Seq<char> {
    let a = skip_spaces(t, 0);
    let b = back_spaces(t, t.len() as int);
    if b <= a {
        Seq::empty()
    } else {
        t.subrange(a, b)
    }
}

pub proof fn lemma_skip_spaces(t: Seq<char>, i: int)
    requires
        0 <= i <= t.len(),
    ensures
        i <= skip_spaces(t, i) <= t.len(),
    decreases t.len() - i,
{
    if i < t.len() && is_space(t[i]) {
        lemma_skip_spaces(t, i + 1);
    }
}

pub proof fn lemma_back_spaces(t: Seq<char>, j: int)
    requires
        0 <= j <= t.len(),
    ensures
        0 <= back_spaces(t, j) <= j,
    decreases j,
{
    if j > 0 && is_space(t[j - 1]) {
        lemma_back_spaces(t, j - 1);
    }
}

/// `m` occurs in `t` at position `p`.
pub open spec fn occurs_at(t: Seq<char>, p: int, m: Seq<char>) -> bool {
    0 <= p && p + m.len() <= t.len() && t.subrange(p, p + m.len()) == m
}

/// The first position at or after `from` where `m` occurs.
pub open spec fn first_occurrence(t: Seq<char>, m: Seq<char>, from: int) -> Option<int>
    decreases t.len() + 1 - from,
{
    if from < 0 || from > t.len() {
        None
    } else if occurs_at(t, from, m) {
        Some(from)
    } else {
        first_occurrence(t, m, from + 1)
    }
}

/// The step after an occurrence of `m`: past it, or one position on if it is empty.
pub open spec fn step(m: Seq<char>) -> int {
    if m.len() == 0 {
        1
    } else {
        m.len() as int
    }
}

/// The positions of the non-overlapping occurrences of `m` in `t` from `from` on,
/// found left to right.
pub open spec fn occurrences(t: Seq<char>, m: Seq<char>, from: int) -> Seq<int>
    decreases t.len() + 1 - from,
{
    match first_occurrence(t, m, from) {
        Some(p) => if p + step(m) <= from || p + step(m) > t.len() + 1 {
            Seq::empty()
        } else {
            seq![p] + occurrences(t, m, p + step(m))
        },
        None => Seq::empty(),
    }
}

pub proof fn lemma_first_occurrence(t: Seq<char>, m: Seq<char>, from: int)
    ensures
        first_occurrence(t, m, from) matches Some(p) ==> from <= p <= t.len() && occurs_at(t, p, m)
            && p + m.len() <= t.len(),
    decreases t.len() + 1 - from,
{
    if 0 <= from <= t.len() && !occurs_at(t, from, m) {
        lemma_first_occurrence(t, m, from + 1);
    }
}

pub proof fn lemma_occurrence_bound(t: Seq<char>, m: Seq<char>, from: int)
    ensures
        first_occurrence(t, m, from) matches Some(p) ==> from < p + step(m) <= t.len() + 1,
{
    lemma_first_occurrence(t, m, from);
}

pub fn space(c: char) -> (r: bool)
    ensures
        r == is_space(c),
{
    ('\u{9}' <= c && c <= '\u{d}') || c == ' ' || c == '\u{85}' || c == '\u{a0}' || c == '\u{1680}'
        || ('\u{2000}' <= c && c <= '\u{200a}') || c == '\u{2028}' || c == '\u{2029}' || c == '\u{202f}'
        || c == '\u{205f}' || c == '\u{3000}'
}

pub fn skip_spaces_exec(t: &Vec<char>, i: usize) -> (r: usize)
    requires
        i <= t.len(),
    ensures
        r == skip_spaces(t@, i as int),
{
    let mut j: usize = i;
    while j < t.len() && space(t[j])
        invariant
            i <= j <= t.len(),
            skip_spaces(t@, i as int) == skip_spaces(t@, j as int),
        decreases t.len() - j,
    {
        j = j + 1;
    }
    j
}

/// The bounds of `t[from..to]` without its leading and trailing whitespace.
pub fn trim_bounds(t: &Vec<char>, from: usize, to: usize) -> (r: (usize, usize))
    requires
        from <= to <= t.len(),
    ensures
        from <= r.0 <= r.1 <= to,
        t@.subrange(r.0 as int, r.1 as int) == trimmed(t@.subrange(from as int, to as int)),
{
    let ghost u = t@.subrange(from as int, to as int);
    let mut a: usize = from;
    while a < to && space(t[a])
        invariant
            from <= a <= to <= t.len(),
            u == t@.subrange(from as int, to as int),
            skip_spaces(u, 0) == skip_spaces(u, a - from),
        decreases to - a,
    {
        assert(u[a - from] == t@[a as int]);
        a = a + 1;
    }
    assert(a < to ==> u[a - from] == t@[a as int]);
    let mut b: usize = to;
    while b > a && space(t[b - 1])
        invariant
            from <= a <= b <= to <= t.len(),
            u == t@.subrange(from as int, to as int),
            back_spaces(u, u.len() as int) == back_spaces(u, b - from),
        decreases b,
    {
        assert(u[b - 1 - from] == t@[b - 1]);
        b = b - 1;
    }
    proof {
        let ka = skip_spaces(u, 0);
        let kb = back_spaces(u, u.len() as int);
        assert(ka == a - from);
        if b > a {
            assert(u[b - 1 - from] == t@[b - 1]);
            assert(kb == b - from);
            assert(t@.subrange(a as int, b as int) =~= u.subrange(ka, kb));
        } else {
            lemma_back_spaces(u, b - from);
            assert(kb <= ka) by {
                if b - from > 0 && kb == b - from {
                } else {
                }
            }
            assert(t@.subrange(a as int, b as int) =~= Seq::<char>::empty());
        }
    }
    (a, b)
}

/// The characters of `s`, in order.
pub fn chars_of(s: &str) -> (r: Vec<char>)
    ensures
        r@ == s@,
{
    let mut r: Vec<char> = Vec::new();
    for c in it: s.chars()
        invariant
            r@ == it.seq().subrange(0, it.index() as int),
    {
        r.push(c);
    }
    r
}

pub fn occurs(t: &Vec<char>, p: usize, m: &Vec<char>) -> (r: bool)
    ensures
        r == occurs_at(t@, p as int, m@),
{
    if m.len() > t.len() || p > t.len() - m.len() {
        return false;
    }
    let mut k: usize = 0;
    while k < m.len()
        invariant
            p + m.len() <= t.len(),
            k <= m.len(),
            forall|i: int| 0 <= i < k ==> t@[p + i] == m@[i],
        decreases m.len() - k,
    {
        if t[p + k] != m[k] {
            assert(t@.subrange(p as int, p + m.len())[k as int] != m@[k as int]);
            return false;
        }
        k = k + 1;
    }
    assert(t@.subrange(p as int, p + m.len()) =~= m@);
    true
}

pub fn find_from(t: &Vec<char>, m: &Vec<char>, from: usize) -> (r: Option<usize>)
    ensures
        match r {
            Some(p) => first_occurrence(t@, m@, from as int) == Some(p as int),
            None => first_occurrence(t@, m@, from as int) is None,
        },
        r matches Some(p) ==> from <= p <= t.len(),
{
    if from > t.len() {
        assert(first_occurrence(t@, m@, from as int) is None);
        return None;
    }
    let mut p: usize = from;
    while p < t.len()
        invariant
            from <= p <= t.len(),
            first_occurrence(t@, m@, from as int) == first_occurrence(t@, m@, p as int),
        decreases t.len() - p,
    {
        if occurs(t, p, m) {
            return Some(p);
        }
        p = p + 1;
    }
    if occurs(t, p, m) {
        Some(p)
    } else {
        assert(first_occurrence(t@, m@, p + 1) is None);
        None
    }
}

/// The positions of all non-overlapping occurrences of `m` in `t`, left to right.
pub fn occurrence_positions(t: &Vec<char>, m: &Vec<char>) -> (r: Vec<usize>)
    ensures
        r@.map_values(|p: usize| p as int) == occurrences(t@, m@, 0),
{
    let mut r: Vec<usize> = Vec::new();
    let mut pos: usize = 0;
    loop
        invariant
            pos <= t.len(),
            r@.map_values(|p: usize| p as int) + occurrences(t@, m@, pos as int) == occurrences(
                t@,
                m@,
                0,
            ),
        decreases t.len() + 1 - pos,
    {
        match find_from(t, m, pos) {
            None => {
                assert(r@.map_values(|p: usize| p as int) + occurrences(t@, m@, pos as int)
                    =~= r@.map_values(|p: usize| p as int));
                return r;
            },
            Some(p) => {
                proof {
                    lemma_occurrence_bound(t@, m@, pos as int);
                    lemma_first_occurrence(t@, m@, pos as int);
                }
                let ghost old_r = r@;
                r.push(p);
                assert(r@.map_values(|p: usize| p as int) =~= old_r.map_values(
                    |p: usize| p as int,
                ).push(p as int));
                if m.len() == 0 && p == t.len() {
                    assert(first_occurrence(t@, m@, p + 1) is None);
                    assert(occurrences(t@, m@, pos as int) == seq![p as int] + occurrences(t@, m@, p + 1));
                    assert(r@.map_values(|p: usize| p as int) =~= old_r.map_values(
                        |p: usize| p as int,
                    ) + occurrences(t@, m@, pos as int));
                    return r;
                }
                let next: usize = if m.len() == 0 {
                    p + 1
                } else {
                    p + m.len()
                };
                assert(occurrences(t@, m@, pos as int) == seq![p as int] + occurrences(t@, m@, next as int));
                assert(r@.map_values(|p: usize| p as int) + occurrences(t@, m@, next as int)
                    =~= old_r.map_values(|p: usize| p as int) + occurrences(t@, m@, pos as int));
                pos = next;
            },
        }
    }
}

} // verus!
