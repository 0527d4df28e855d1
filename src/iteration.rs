//! The iteration language: `<var> in <expr>`, optionally followed by ` if <condition>`;
//! clauses chained with `>>` nest, each one ranging over data reached from the one before.
use vstd::prelude::*;
use crate::text::{
    chars_of, trimmed, trim_bounds, first_occurrence, find_from, lemma_first_occurrence, occurrences,
    occurrence_positions,
};

verus! {

pub open spec fn if_sep() -> Seq<char> {
    seq![' ', 'i', 'f', ' ']
}

pub open spec fn in_sep() -> Seq<char> {
    seq![' ', 'i', 'n', ' ']
}

pub open spec fn nest_sep() -> Seq<char> {
    seq!['>', '>']
}

/// A parsed clause, as `(var, expr, condition)`.
pub type ClauseView = (Seq<char>, Seq<char>, Option<Seq<char>>);

/// The text before the first ` if `, and the trimmed condition after it.
pub open spec fn split_condition(t: Seq<char>) -> (Seq<char>, Option<Seq<char>>) {
    match first_occurrence(t, if_sep(), 0) {
        Some(p) => (t.subrange(0, p), Some(trimmed(t.subrange(p + 4, t.len() as int)))),
        None => (t, None),
    }
}

/// The clause that `t` denotes: defined when the part before the condition holds
/// exactly one ` in `.
pub open spec fn simple_clause(t: Seq<char>) -> Option<ClauseView> {
    let it = split_condition(t).0;
    let occ = occurrences(it, in_sep(), 0);
    if occ.len() != 1 {
        None
    } else {
        Some(
            (
                trimmed(it.subrange(0, occ[0])),
                trimmed(it.subrange(occ[0] + 4, it.len() as int)),
                split_condition(t).1,
            ),
        )
    }
}

/// The pieces of `t[from..]` between the non-overlapping occurrences of `sep`.
pub open spec fn split_from(t: Seq<char>, sep: Seq<char>, from: int) -> Seq<Seq<char>>
    decreases t.len() + 1 - from,
{
    match first_occurrence(t, sep, from) {
        Some(p) => if sep.len() == 0 || p + sep.len() <= from || p + sep.len() > t.len() {
            seq![t.subrange(from, t.len() as int)]
        } else {
            seq![t.subrange(from, p)] + split_from(t, sep, p + sep.len())
        },
        None => seq![t.subrange(from, t.len() as int)],
    }
}

/// The clauses of the trimmed `parts`, or the first trimmed part that is no clause.
pub open spec fn nested_clauses(parts: Seq<Seq<char>>) -> Result<Seq<ClauseView>, Seq<char>>
    decreases parts.len(),
{
    if parts.len() == 0 {
        Ok(Seq::empty())
    } else {
        match simple_clause(trimmed(parts[0])) {
            None => Err(trimmed(parts[0])),
            Some(c) => match nested_clauses(parts.drop_first()) {
                Ok(rest) => Ok(seq![c] + rest),
                Err(x) => Err(x),
            },
        }
    }
}

pub open spec fn nested_form(t: Seq<char>) -> Result<Seq<ClauseView>, Seq<char>> {
    nested_clauses(split_from(t, nest_sep(), 0))
}

pub open spec fn dd_prefix() -> Seq<char> {
    seq!['d', 'd', '.']
}

pub open spec fn slash_for_dot(c: char) -> char {
    if c == '.' {
        '/'
    } else {
        c
    }
}

/// A dotted path as a pointer: trimmed, without a leading `dd.`, dots turned into
/// slashes, behind a slash.
pub open spec fn pointer_of(t: Seq<char>) -> Seq<char> {
    let p = trimmed(t);
    let q = if p.len() >= 3 && p.subrange(0, 3) == dd_prefix() {
        p.subrange(3, p.len() as int)
    } else {
        p
    };
    seq!['/'] + q.map_values(|c: char| slash_for_dot(c))
}

#[derive(Debug, Clone)]
pub enum IterationError {
    InvalidSyntax(String),
    DataPathNotFound(String),
}

impl IterationError {
    /// The error is a syntax error about `t`.
    pub open spec fn is_syntax_about(&self, t: Seq<char>) -> bool {
        match self {
            IterationError::InvalidSyntax(s) => s@ == t,
            _ => false,
        }
    }
}

#[derive(Debug, Clone)]
pub struct IterationInfo {
    pub var: String,
    pub expr: String,
    pub condition: Option<String>,
}

impl IterationInfo {
    pub open spec fn view(&self) -> ClauseView {
        (
            self.var@,
            self.expr@,
            match self.condition {
                Some(c) => Some(c@),
                None => None,
            },
        )
    }
}

pub open spec fn infos_view(v: Seq<IterationInfo>) -> Seq<ClauseView> {
    v.map_values(|i: IterationInfo| i@)
}

#[derive(Debug)]
pub enum IterationPattern {
    Simple(IterationInfo),
    Nested(Vec<IterationInfo>),
    Array(Vec<IterationPattern>),
}

pub struct IterationEvaluator;

impl IterationEvaluator {
    /// Parses `<var> in <expr>` with an optional ` if <condition>`.
    pub fn parse_simple(expr: &str) -> (r: Result<IterationInfo, IterationError>)
        ensures
            match r {
                Ok(info) => simple_clause(expr@) == Some(info@),
                Err(e) => simple_clause(expr@) is None && e.is_syntax_about(expr@),
            },
    {
        let t = chars_of(expr);
        let ifs: Vec<char> = vec![' ', 'i', 'f', ' '];
        let (it_str, condition) = match find_from(&t, &ifs, 0) {
            Some(p) => {
                proof {
                    lemma_first_occurrence(t@, ifs@, 0);
                }
                let (a, b) = trim_bounds(&t, p + 4, t.len());
                (expr.substring_char(0, p), Some(expr.substring_char(a, b).to_owned()))
            },
            None => (expr, None),
        };
        assert(it_str@ == split_condition(expr@).0);
        let it = chars_of(it_str);
        let ins: Vec<char> = vec![' ', 'i', 'n', ' '];
        let occ = occurrence_positions(&it, &ins);
        if occ.len() != 1 {
            return Err(IterationError::InvalidSyntax(expr.to_owned()));
        }
        let p = occ[0];
        proof {
            lemma_first_occurrence(it@, ins@, 0);
            assert(occurrences(it@, ins@, 0)[0] == p as int);
        }
        let (a, b) = trim_bounds(&it, 0, p);
        let (c, d) = trim_bounds(&it, p + 4, it.len());
        let info = IterationInfo {
            var: it_str.substring_char(a, b).to_owned(),
            expr: it_str.substring_char(c, d).to_owned(),
            condition,
        };
        Ok(info)
    }

    /// Parses clauses joined by `>>`, outermost first.
    pub fn parse_nested(expr: &str) -> (r: Result<Vec<IterationInfo>, IterationError>)
        ensures
            match r {
                Ok(v) => nested_form(expr@) == Ok::<Seq<ClauseView>, Seq<char>>(infos_view(v@)),
                Err(e) => nested_form(expr@) matches Err(x) && e.is_syntax_about(x),
            },
    {
        let t = chars_of(expr);
        let sep: Vec<char> = vec!['>', '>'];
        assert(sep@ =~= nest_sep());
        let bounds = piece_bounds(&t, &sep);
        let ghost parts = split_from(t@, sep@, 0);
        let mut out: Vec<IterationInfo> = Vec::new();
        let mut i: usize = 0;
        assert(parts.subrange(0, parts.len() as int) =~= parts);
        assert(infos_view(out@) =~= Seq::<ClauseView>::empty());
        while i < bounds.len()
            invariant
                t@ == expr@,
                parts == split_from(t@, sep@, 0),
                bounds.len() == parts.len(),
                forall|k: int|
                    0 <= k < bounds@.len() ==> (#[trigger] bounds@[k]).0 <= bounds@[k].1 <= t.len() && split_from(t@, sep@, 0)[k]
                        == t@.subrange(bounds@[k].0 as int, bounds@[k].1 as int),
                sep@ == nest_sep(),
                i <= bounds.len(),
                nested_clauses(parts) == glue(infos_view(out@), nested_clauses(parts.subrange(i as int, parts.len() as int))),
            decreases bounds.len() - i,
        {
            let ghost rest = parts.subrange(i as int, parts.len() as int);
            assert(rest[0] == parts[i as int]);
            assert(rest.drop_first() =~= parts.subrange(i + 1, parts.len() as int));
            let (a, b) = bounds[i];
            let (c, d) = trim_bounds(&t, a, b);
            let piece = expr.substring_char(c, d);
            assert(piece@ == trimmed(parts[i as int]));
            match Self::parse_simple(piece) {
                Err(e) => {
                    assert(nested_clauses(rest) == Err::<Seq<ClauseView>, Seq<char>>(piece@));
                    return Err(e);
                },
                Ok(info) => {
                    let ghost old_out = out@;
                    out.push(info);
                    assert(infos_view(out@) =~= infos_view(old_out) + seq![info@]);
                    proof {
                        lemma_glue(infos_view(old_out), info@, nested_clauses(parts.subrange(i + 1, parts.len() as int)));
                    }
                },
            }
            i = i + 1;
        }
        assert(infos_view(out@) + Seq::<ClauseView>::empty() =~= infos_view(out@));
        Ok(out)
    }

    /// Parses a nested pattern when the text holds `>>`, else a single clause.
    pub fn parse(expr: &str) -> (r: Result<IterationPattern, IterationError>)
        ensures
            ({
                let nested = first_occurrence(expr@, nest_sep(), 0) is Some;
                match r {
                    Ok(IterationPattern::Nested(v)) => nested && nested_form(expr@) == Ok::<
                        Seq<ClauseView>,
                        Seq<char>,
                    >(infos_view(v@)),
                    Ok(IterationPattern::Simple(info)) => !nested && simple_clause(expr@) == Some(info@),
                    Ok(IterationPattern::Array(_)) => false,
                    Err(e) => if nested {
                        nested_form(expr@) matches Err(x) && e.is_syntax_about(x)
                    } else {
                        simple_clause(expr@) is None && e.is_syntax_about(expr@)
                    },
                }
            }),
    {
        let t = chars_of(expr);
        let sep: Vec<char> = vec!['>', '>'];
        if find_from(&t, &sep, 0).is_some() {
            Ok(IterationPattern::Nested(Self::parse_nested(expr)?))
        } else {
            Ok(IterationPattern::Simple(Self::parse_simple(expr)?))
        }
    }

    /// The pointer path for a dotted data path: `dd.services` and `services` both
    /// give `/services`.
    pub fn evaluate_path(expr: &str) -> (r: String)
        ensures
            r@ == pointer_of(expr@),
    {
        let t = chars_of(expr);
        let (a, b) = trim_bounds(&t, 0, t.len());
        assert(t@.subrange(0, t.len() as int) =~= t@);
        let ghost p = trimmed(t@);
        let start: usize = if b - a >= 3 && t[a] == 'd' && t[a + 1] == 'd' && t[a + 2] == '.' {
            assert(p.subrange(0, 3) =~= dd_prefix());
            a + 3
        } else {
            assert(p.len() >= 3 ==> p[0] == t@[a as int] && p[1] == t@[a + 1] && p[2] == t@[a + 2]);
            assert(p.len() >= 3 ==> p.subrange(0, 3) != dd_prefix()) by {
                if p.len() >= 3 && p.subrange(0, 3) == dd_prefix() {
                    assert(p.subrange(0, 3)[0] == 'd');
                    assert(p.subrange(0, 3)[1] == 'd');
                    assert(p.subrange(0, 3)[2] == '.');
                }
            }
            a
        };
        let ghost q = t@.subrange(start as int, b as int);
        assert(q =~= (if p.len() >= 3 && p.subrange(0, 3) == dd_prefix() {
            p.subrange(3, p.len() as int)
        } else {
            p
        }));
        let slash = "/";
        proof {
            reveal_strlit("/");
        }
        let mut out = String::from_str(slash);
        let mut i: usize = start;
        while i < b
            invariant
                start <= i <= b <= t.len(),
                t@ == expr@,
                q == t@.subrange(start as int, b as int),
                slash@ == seq!['/'],
                out@ == seq!['/'] + q.subrange(0, i - start).map_values(|c: char| slash_for_dot(c)),
            decreases b - i,
        {
            let ghost before = out@;
            if t[i] == '.' {
                out.append(slash);
            } else {
                out.append(expr.substring_char(i, i + 1));
            }
            assert(q.subrange(0, i + 1 - start) =~= q.subrange(0, i - start).push(t@[i as int]));
            assert(out@ =~= seq!['/'] + q.subrange(0, i + 1 - start).map_values(|c: char| slash_for_dot(c)));
            i = i + 1;
        }
        assert(q.subrange(0, b - start) =~= q);
        out
    }
}

/// Prefixes the clauses of an outcome with `pre`.
pub open spec fn glue(pre: Seq<ClauseView>, r: Result<Seq<ClauseView>, Seq<char>>) -> Result<Seq<ClauseView>, Seq<char>> {
    match r {
        Ok(v) => Ok(pre + v),
        Err(x) => Err(x),
    }
}

proof fn lemma_glue(pre: Seq<ClauseView>, c: ClauseView, r: Result<Seq<ClauseView>, Seq<char>>)
    ensures
        glue(pre, glue(seq![c], r)) == glue(pre + seq![c], r),
{
    if let Ok(v) = r {
        assert(pre + (seq![c] + v) =~= (pre + seq![c]) + v);
    }
}

/// The bounds of the pieces of `t` between the occurrences of `sep`.
pub fn piece_bounds(t: &Vec<char>, sep: &Vec<char>) -> (r: Vec<(usize, usize)>)
    requires
        sep@.len() > 0,
    ensures
        r@.len() == split_from(t@, sep@, 0).len(),
        forall|k: int|
            0 <= k < r@.len() ==> (#[trigger] r@[k]).0 <= r@[k].1 <= t.len() && split_from(t@, sep@, 0)[k]
                == t@.subrange(r@[k].0 as int, r@[k].1 as int),
{
    let mut r: Vec<(usize, usize)> = Vec::new();
    let mut pos: usize = 0;
    loop
        invariant
            sep@.len() > 0,
            pos <= t.len(),
            r@.map_values(|b: (usize, usize)| t@.subrange(b.0 as int, b.1 as int)) + split_from(t@, sep@, pos as int)
                == split_from(t@, sep@, 0),
            forall|k: int| 0 <= k < r@.len() ==> (#[trigger] r@[k]).0 <= r@[k].1 <= t.len(),
        decreases t.len() + 1 - pos,
    {
        let ghost old_r = r@;
        proof {
            lemma_first_occurrence(t@, sep@, pos as int);
        }
        match find_from(t, sep, pos) {
            None => {
                r.push((pos, t.len()));
                assert(r@.map_values(|b: (usize, usize)| t@.subrange(b.0 as int, b.1 as int)) =~= old_r.map_values(
                    |b: (usize, usize)| t@.subrange(b.0 as int, b.1 as int),
                ) + split_from(t@, sep@, pos as int));
                return r;
            },
            Some(p) => {
                r.push((pos, p));
                assert(r@.map_values(|b: (usize, usize)| t@.subrange(b.0 as int, b.1 as int)) =~= old_r.map_values(
                    |b: (usize, usize)| t@.subrange(b.0 as int, b.1 as int),
                ).push(t@.subrange(pos as int, p as int)));
                assert(split_from(t@, sep@, pos as int) == seq![t@.subrange(pos as int, p as int)] + split_from(
                    t@,
                    sep@,
                    p + sep@.len(),
                ));
                assert(r@.map_values(|b: (usize, usize)| t@.subrange(b.0 as int, b.1 as int)) + split_from(
                    t@,
                    sep@,
                    p + sep@.len(),
                ) =~= old_r.map_values(|b: (usize, usize)| t@.subrange(b.0 as int, b.1 as int)) + split_from(
                    t@,
                    sep@,
                    pos as int,
                ));
                pos = p + sep.len();
            },
        }
    }
}

} // verus!
