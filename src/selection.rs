//! Choosing template sets by name: wanted and unwanted patterns, each either
//! `regex:<pattern>`, a glob with one `*`, or a plain name.
use vstd::prelude::*;
use crate::text::{
    chars_of, occurs, occurs_at, occurrences, occurrence_positions, lemma_first_occurrence, first_occurrence,
};
use crate::locator::{regex_compiles, regex_matches, regex_is_match};

verus! {

pub open spec fn regex_prefix() -> Seq<char> {
    "regex:"@
}

pub open spec fn starts_with(t: Seq<char>, p: Seq<char>) -> bool {
    occurs_at(t, 0, p)
}

pub open spec fn ends_with(t: Seq<char>, p: Seq<char>) -> bool {
    p.len() <= t.len() && occurs_at(t, t.len() - p.len(), p)
}

/// A glob with exactly one `*` matches by prefix and suffix; anything else must be
/// equal to the name.
pub open spec fn glob_matches(name: Seq<char>, pattern: Seq<char>) -> bool {
    let stars = occurrences(pattern, seq!['*'], 0);
    if stars.len() == 1 {
        starts_with(name, pattern.subrange(0, stars[0])) && ends_with(
            name,
            pattern.subrange(stars[0] + 1, pattern.len() as int),
        )
    } else {
        name == pattern
    }
}

/// Whether `pattern` selects `name`: a `regex:` pattern that compiles by a regex match,
/// any other pattern as a glob.
pub open spec fn selects(name: Seq<char>, pattern: Seq<char>) -> bool {
    if starts_with(pattern, regex_prefix()) && regex_compiles(pattern.subrange(6, pattern.len() as int)) {
        regex_matches(pattern.subrange(6, pattern.len() as int), name)
    } else {
        glob_matches(name, pattern)
    }
}

fn same_text(a: &Vec<char>, b: &Vec<char>) -> (r: bool)
    ensures
        r == (a@ == b@),
{
    if a.len() != b.len() {
        return false;
    }
    let r = occurs(a, 0, b);
    assert(a@.subrange(0, b@.len() as int) =~= a@);
    r
}

pub fn matches_pattern(name: &str, pattern: &str) -> (r: bool)
    ensures
        r == selects(name@, pattern@),
{
    let t = chars_of(name);
    let p = chars_of(pattern);
    let prefix = "regex:";
    proof {
        reveal_strlit("regex:");
    }
    let pre = chars_of(prefix);
    if occurs(&p, 0, &pre) {
        let rest = pattern.substring_char(6, p.len());
        if let Some(m) = regex_is_match(rest, name) {
            return m;
        }
    }
    assert(!(starts_with(pattern@, regex_prefix()) && regex_compiles(pattern@.subrange(6, pattern@.len() as int))));
    let star: Vec<char> = vec!['*'];
    let stars = occurrence_positions(&p, &star);
    let n = p.len();
    if stars.len() == 1 {
        let k = stars[0];
        proof {
            lemma_first_occurrence(p@, star@, 0);
            assert(occurrences(p@, star@, 0)[0] == k as int);
            assert(occurrences(p@, star@, 0).len() == 1);
            assert(first_occurrence(p@, star@, 0) is Some);
            assert(first_occurrence(p@, star@, 0) == Some(k as int));
            assert(star@.len() == 1);
            assert(k + 1 <= n);
        }
        assert(star@ == seq!['*']);
        let head = chars_of(pattern.substring_char(0, k));
        let tail = chars_of(pattern.substring_char(k + 1, n));
        let starts = occurs(&t, 0, &head);
        let ends = tail.len() <= t.len() && occurs(&t, t.len() - tail.len(), &tail);
        assert(starts == starts_with(name@, pattern@.subrange(0, k as int)));
        assert(ends == ends_with(name@, pattern@.subrange(k + 1, pattern@.len() as int)));
        assert(glob_matches(name@, pattern@) == (starts && ends));
        starts && ends
    } else {
        assert(star@ == seq!['*']);
        assert(occurrences(pattern@, seq!['*'], 0).len() != 1);
        same_text(&t, &p)
    }
}

/// Whether the template set `name` is left out: when wanted patterns are given and none
/// selects it, or when an unwanted pattern selects it.
pub fn should_filter(name: &str, wanted: &[String], unwanted: &[String]) -> (r: bool)
    ensures
        r == ((wanted@.len() > 0 && !(exists|i: int| 0 <= i < wanted@.len() && selects(name@, #[trigger] wanted@[i]@)))
            || (exists|j: int| 0 <= j < unwanted@.len() && selects(name@, #[trigger] unwanted@[j]@))),
{
    if wanted.len() > 0 {
        let mut matched = false;
        let mut i: usize = 0;
        while i < wanted.len()
            invariant
                i <= wanted@.len(),
                matched <==> exists|k: int| 0 <= k < i && selects(name@, #[trigger] wanted@[k]@),
            decreases wanted@.len() - i,
        {
            if matches_pattern(name, wanted[i].as_str()) {
                matched = true;
            }
            i = i + 1;
        }
        if !matched {
            return true;
        }
    }
    let mut j: usize = 0;
    while j < unwanted.len()
        invariant
            j <= unwanted@.len(),
            forall|k: int| 0 <= k < j ==> !selects(name@, #[trigger] unwanted@[k]@),
        decreases unwanted@.len() - j,
    {
        if matches_pattern(name, unwanted[j].as_str()) {
            return true;
        }
        j = j + 1;
    }
    false
}

} // verus!
