//! Compiled patterns with named groups, as the injection merger and the template-set
//! filter use them. The matching itself is the regex crate's.
use vstd::prelude::*;

verus! {

/// Whether `pattern` compiles.
pub uninterp spec fn regex_compiles(pattern: Seq<char>) -> bool;

/// The capture-group names of a compiled `pattern`, in group order (`None` for an
/// unnamed group, the whole match first).
pub uninterp spec fn capture_names_of(pattern: Seq<char>) -> Seq<Option<Seq<char>>>;

/// For each successive match of `pattern` in `text`, the character range of the group
/// named `group`, or `None` where that group took no part in the match.
pub uninterp spec fn group_ranges_of(pattern: Seq<char>, group: Seq<char>, text: Seq<char>) -> Seq<Option<(int, int)>>;

/// Whether `pattern` matches somewhere in `text`.
pub uninterp spec fn regex_matches(pattern: Seq<char>, text: Seq<char>) -> bool;

pub open spec fn names_view(v: Seq<Option<String>>) -> Seq<Option<Seq<char>>> {
    v.map_values(|n: Option<String>| match n {
        Some(s) => Some(s@),
        None => None,
    })
}

pub open spec fn ranges_view(v: Seq<Option<(usize, usize)>>) -> Seq<Option<(int, int)>> {
    v.map_values(|m: Option<(usize, usize)>| match m {
        Some(p) => Some((p.0 as int, p.1 as int)),
        None => None,
    })
}

/// Relies on `regex::Regex::new`, which fails exactly on patterns that do not compile,
/// and on `Regex::capture_names` for the group names; the error is its message.
#[verifier::external_body]
pub(crate) fn compile_group_names(pattern: &str) -> (r: Result<Vec<Option<String>>, String>)
    ensures
        r is Ok <==> regex_compiles(pattern@),
        r matches Ok(v) ==> names_view(v@) == capture_names_of(pattern@),
{
    match regex::Regex::new(pattern) {
        Ok(re) => Ok(re.capture_names().map(|n| n.map(|s| s.to_string())).collect()),
        Err(e) => Err(e.to_string()),
    }
}

/// Relies on `regex::Regex::captures_iter`: successive non-overlapping matches, and for
/// each the span of the group named `group` (byte offsets turned into character
/// positions), which lies inside `text`.
#[verifier::external_body]
pub(crate) fn group_ranges(pattern: &str, group: &str, text: &str) -> (r: Vec<Option<(usize, usize)>>)
    requires
        regex_compiles(pattern@),
    ensures
        ranges_view(r@) == group_ranges_of(pattern@, group@, text@),
        forall|i: int|
            0 <= i < r@.len() ==> (#[trigger] r@[i] matches Some(m) ==> m.0 <= m.1 <= text@.len()),
{
    match regex::Regex::new(pattern) {
        Ok(re) => re.captures_iter(text).map(|c| {
            c.name(group).map(|m| (text[..m.start()].chars().count(), text[..m.end()].chars().count()))
        }).collect(),
        Err(_) => Vec::new(),
    }
}

/// Relies on `regex::Regex::is_match`; `None` when the pattern does not compile.
#[verifier::external_body]
pub(crate) fn regex_is_match(pattern: &str, text: &str) -> (r: Option<bool>)
    ensures
        r is Some <==> regex_compiles(pattern@),
        r matches Some(b) ==> b == regex_matches(pattern@, text@),
{
    regex::Regex::new(pattern).ok().map(|re| re.is_match(text))
}

} // verus!
