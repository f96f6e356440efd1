//! Regular-expression searches, made by `regex_lite`, and the one character
//! class that only the standard library's Unicode tables decide.
//!
//! What a search returns is named here as a function of the pattern and the
//! haystack (the engine's leftmost-first semantics take pages to state). The
//! contracts add only what the crate's source shows directly: where a match
//! stands in the haystack, and how `replacen` relates to `find`.

use vstd::prelude::*;

verus! {

/// A match, as the text before it and the matched text.
pub type Hit = (Seq<char>, Seq<char>);

/// `pre + mat` is a prefix of `hay`: the match stands at `pre.len()`.
pub open spec fn hit_in(hay: Seq<char>, pre: Seq<char>, mat: Seq<char>) -> bool {
    pre.len() + mat.len() <= hay.len() && hay.subrange(0, pre.len() + mat.len() as int) == pre
        + mat
}

/// The leftmost-first match of `pattern` in `haystack` (`None` also where the
/// pattern does not compile).
pub uninterp spec fn regex_find(pattern: Seq<char>, haystack: Seq<char>) -> Option<Hit>;

/// The successive non-overlapping matches of `pattern` in `haystack`.
pub uninterp spec fn regex_find_all(pattern: Seq<char>, haystack: Seq<char>) -> Seq<Hit>;

/// The first match of `pattern` in `haystack` with its capture groups: the
/// text before the match, and each group's text (`None` for a group that did
/// not take part), group 0 being the whole match.
pub uninterp spec fn regex_captures(pattern: Seq<char>, haystack: Seq<char>) -> Option<
    (Seq<char>, Seq<Option<Seq<char>>>),
>;

/// `char::is_alphanumeric`.
pub uninterp spec fn char_alphanumeric(c: char) -> bool;

/// `haystack` with its leftmost-first match of `pattern` removed (a match
/// always stands in the haystack; a haystack without one is unchanged).
pub open spec fn regex_removed(pattern: Seq<char>, haystack: Seq<char>) -> Seq<char> {
    match regex_find(pattern, haystack) {
        Some((pre, mat)) => if hit_in(haystack, pre, mat) {
            pre + haystack.subrange((pre.len() + mat.len()) as int, haystack.len() as int)
        } else {
            haystack
        },
        None => haystack,
    }
}

pub open spec fn hit_view(h: (String, String)) -> Hit {
    (h.0@, h.1@)
}

pub open spec fn groups_view(gs: Seq<Option<String>>) -> Seq<Option<Seq<char>>> {
    gs.map_values(|g: Option<String>| crate::model::opt_view(g))
}

/// `Regex::find`: compiles `pattern` and returns its leftmost-first match in
/// `haystack` as the text before it and the matched text. The contract
/// claims that the result is a function of the two strings alone, and that
/// the match stands at the end of the returned prefix.
#[verifier::external_body]
pub(crate) fn find_match(pattern: &str, haystack: &str) -> (r: Option<(String, String)>)
    ensures
        r matches Some(h) ==> regex_find(pattern@, haystack@) == Some(hit_view(h)),
        r is None ==> regex_find(pattern@, haystack@) is None,
        r matches Some(h) ==> hit_in(haystack@, h.0@, h.1@),
{
    let re = regex_lite::Regex::new(pattern).ok()?;
    let m = re.find(haystack)?;
    Some((haystack[..m.start()].to_string(), m.as_str().to_string()))
}

/// `Regex::find_iter`: compiles `pattern` and returns every successive
/// non-overlapping match in `haystack`, each as the text before it and the
/// matched text (nothing where the pattern does not compile). The contract
/// claims that the result is a function of the two strings alone and that
/// each match stands at the end of its prefix.
#[verifier::external_body]
pub(crate) fn find_all_matches(pattern: &str, haystack: &str) -> (r: Vec<(String, String)>)
    ensures
        r@.map_values(|h: (String, String)| hit_view(h)) == regex_find_all(pattern@, haystack@),
        forall|i: int| 0 <= i < r@.len() ==> #[trigger] hit_in(haystack@, r@[i].0@, r@[i].1@),
{
    match regex_lite::Regex::new(pattern) {
        Ok(re) => re.find_iter(haystack).map(
            |m| (haystack[..m.start()].to_string(), m.as_str().to_string()),
        ).collect(),
        Err(_) => Vec::new(),
    }
}

/// `Regex::captures`: compiles `pattern` and returns its leftmost-first match
/// in `haystack` as the text before it and the text of every capture group.
/// The contract claims that the result is a function of the two strings
/// alone, that group 0 is present and that it stands at the end of the
/// returned prefix.
#[verifier::external_body]
pub(crate) fn capture_groups(pattern: &str, haystack: &str) -> (r: Option<(String, Vec<Option<String>>)>)
    ensures
        r matches Some(c) ==> regex_captures(pattern@, haystack@) == Some(
            (c.0@, groups_view(c.1@)),
        ),
        r is None ==> regex_captures(pattern@, haystack@) is None,
        r matches Some(c) ==> c.1@.len() > 0,
        r matches Some(c) ==> (c.1@[0] matches Some(g) && hit_in(haystack@, c.0@, g@)),
{
    let re = regex_lite::Regex::new(pattern).ok()?;
    let caps = re.captures(haystack)?;
    let whole = caps.get(0)?;
    let groups = caps.iter().map(|g| g.map(|m| m.as_str().to_string())).collect();
    Some((haystack[..whole.start()].to_string(), groups))
}

/// `Regex::replacen(haystack, 1, "")`: compiles `pattern` and removes its
/// first match from `haystack` (the haystack unchanged where the pattern does
/// not compile). The contract claims, as the crate's source shows, that the
/// match removed is the one `Regex::find` returns.
#[verifier::external_body]
pub(crate) fn remove_first_match(pattern: &str, haystack: &str) -> (r: String)
    ensures
        r@ == regex_removed(pattern@, haystack@),
{
    match regex_lite::Regex::new(pattern) {
        Ok(re) => re.replacen(haystack, 1, "").into_owned(),
        Err(_) => haystack.to_string(),
    }
}

/// `char::is_alphanumeric`: the contract only names the result.
#[verifier::external_body]
pub(crate) fn is_alphanumeric(c: char) -> (b: bool)
    ensures
        b == char_alphanumeric(c),
{
    c.is_alphanumeric()
}

} // verus!
