//! Regular expressions, run by the `regex` crate.

use vstd::prelude::*;

verus! {

/// What `regex::Regex::new(pattern)` followed by `Regex::captures(text)`
/// returns, each group taken as its text: `None` when the pattern has no
/// match in `text` (or does not compile), else the groups of the leftmost
/// match in order, group 0 (the whole match) first, `None` for a group that
/// took no part in the match.
pub uninterp spec fn regex_captures(pattern: Seq<char>, text: Seq<char>) -> Option<
    Seq<Option<Seq<char>>>,
>;

/// What `regex::Regex::new(pattern)` followed by
/// `Regex::replace(text, replacement)` returns: `text` with its leftmost
/// match replaced (`text` itself when there is none, or when the pattern
/// does not compile).
pub uninterp spec fn regex_replace(pattern: Seq<char>, text: Seq<char>, replacement: Seq<
    char,
>) -> Seq<char>;

/// The groups of a capture, each taken as its text.
pub open spec fn groups_view(g: Vec<Option<String>>) -> Seq<Option<Seq<char>>> {
    g@.map_values(|o: Option<String>| crate::text::opt_view(o))
}

/// An optional capture taken as its text.
pub open spec fn captures_view(r: Option<Vec<Option<String>>>) -> Option<Seq<Option<Seq<char>>>> {
    match r {
        Some(g) => Some(groups_view(g)),
        None => None,
    }
}

/// The text of group `i` of a capture, when the group took part.
pub open spec fn group(caps: Seq<Option<Seq<char>>>, i: int) -> Option<Seq<char>> {
    if 0 <= i < caps.len() {
        caps[i]
    } else {
        None
    }
}

/// The text of group `i` of the leftmost match of `pattern` in `text`.
pub open spec fn captured(pattern: Seq<char>, text: Seq<char>, i: int) -> Option<Seq<char>> {
    match regex_captures(pattern, text) {
        Some(caps) => group(caps, i),
        None => None,
    }
}

/// Calls `regex::Regex::new(pattern)` and, when it compiles,
/// `Regex::captures(text)`; each group is handed back as an owned string.
/// The contract claims that the result is `regex_captures` of the two
/// arguments, and what the crate documents of every match: group 0, the
/// whole match, is always there. What a match is, is left to the crate.
#[verifier::external_body]
pub(crate) fn captures(pattern: &str, text: &str) -> (r: Option<Vec<Option<String>>>)
    ensures
        captures_view(r) == regex_captures(pattern@, text@),
        r matches Some(g) ==> g@.len() >= 1 && g@[0] is Some,
{
    let re = match regex::Regex::new(pattern) {
        Ok(re) => re,
        Err(_) => return None,
    };
    re.captures(text).map(|c| c.iter().map(|m| m.map(|m| m.as_str().to_string())).collect())
}

/// Calls `regex::Regex::new(pattern)` and, when it compiles,
/// `Regex::replace(text, replacement)`, which replaces the leftmost match.
/// The contract claims that the result is `regex_replace` of the three
/// arguments, and, as the crate documents, that `text` comes back unchanged
/// when the pattern has no match in it. Where the match was, and how `$`
/// in the replacement expands, is left to the crate.
#[verifier::external_body]
pub(crate) fn replace_first(pattern: &str, text: &str, replacement: &str) -> (r: String)
    ensures
        r@ == regex_replace(pattern@, text@, replacement@),
        regex_captures(pattern@, text@) is None ==> r@ == text@,
{
    let re = match regex::Regex::new(pattern) {
        Ok(re) => re,
        Err(_) => return text.to_string(),
    };
    re.replace(text, replacement).into_owned()
}

/// The text of group `i` of the leftmost match of `pattern` in `text`.
pub fn captured_group(pattern: &str, text: &str, i: usize) -> (r: Option<String>)
    ensures
        crate::text::opt_view(r) == captured(pattern@, text@, i as int),
{
    match captures(pattern, text) {
        Some(g) => {
            if i < g.len() {
                match &g[i] {
                    Some(t) => Some(t.clone()),
                    None => None,
                }
            } else {
                None
            }
        },
        None => None,
    }
}

} // verus!
