//! Regular-expression searches and rewrites, done by the `regex` crate.
//!
//! Each search compiles its pattern and runs it once; a pattern that does not
//! compile gives `None`, which the callers here treat as "no match" (every
//! pattern this crate uses is a fixed literal that compiles).
use vstd::prelude::*;
use regex::Regex;
use crate::review::owned;

verus! {

/// The texts of the successive non-overlapping matches of `pattern` in
/// `text`, or `None` when `pattern` does not compile.
pub uninterp spec fn regex_matches(pattern: Seq<char>, text: Seq<char>) -> Option<Seq<Seq<char>>>;

/// `text` with every non-overlapping match of `pattern` replaced by
/// `replacement` (its `$n` group references expanded), or `None` when
/// `pattern` does not compile.
pub uninterp spec fn regex_replaced(pattern: Seq<char>, text: Seq<char>, replacement: Seq<char>) -> Option<Seq<char>>;

/// The views of a sequence of strings.
pub open spec fn texts_of(v: Seq<String>) -> Seq<Seq<char>> {
    v.map_values(|s: String| s@)
}

/// Compiles `pattern` with `regex::Regex::new` and collects the texts of
/// `Regex::find_iter` over `text`.  Claimed: the result is what
/// `regex_matches` names; `None` exactly when compilation fails.
#[verifier::external_body]
pub(crate) fn find_all(pattern: &str, text: &str) -> (r: Option<Vec<String>>)
    ensures
        match r {
            Some(v) => regex_matches(pattern@, text@) == Some(texts_of(v@)),
            None => regex_matches(pattern@, text@) is None,
        },
{
    match Regex::new(pattern) {
        Ok(re) => Some(re.find_iter(text).map(|m| m.as_str().to_string()).collect()),
        Err(_) => None,
    }
}

/// The pattern of one decimal digit.
pub open spec fn digit_class() -> Seq<char> {
    seq!['\\', 'd']
}

/// `t` holds no ASCII digit.
pub open spec fn no_ascii_digit(t: Seq<char>) -> bool {
    forall|j: int| 0 <= j < t.len() ==> !('0' <= #[trigger] t[j] <= '9')
}

/// Compiles `pattern` with `regex::Regex::new` and calls
/// `Regex::replace_all(text, replacement)`.  Claimed: the result is what
/// `regex_replaced` names; `None` exactly when compilation fails.  Also
/// claimed, as the crate documents `\d` (a Unicode decimal digit, the
/// ASCII digits among them) and `replace_all` (every non-overlapping match
/// replaced, `$` introducing group references): the pattern `\d` compiles,
/// and replacing its matches by a text with neither a digit nor `$` leaves
/// no ASCII digit.
#[verifier::external_body]
pub(crate) fn replace_all(pattern: &str, text: &str, replacement: &str) -> (r: Option<String>)
    ensures
        match r {
            Some(t) => regex_replaced(pattern@, text@, replacement@) == Some(t@),
            None => regex_replaced(pattern@, text@, replacement@) is None,
        },
        (pattern@ == digit_class() && no_ascii_digit(replacement@) && !replacement@.contains('$')) ==> (r is Some
            && no_ascii_digit(r->0@)),
{
    match Regex::new(pattern) {
        Ok(re) => Some(re.replace_all(text, replacement).into_owned()),
        Err(_) => None,
    }
}

/// `text` rewritten by `pattern` and `replacement`, or `text` itself when the
/// pattern does not compile.
pub open spec fn rewritten(pattern: Seq<char>, text: Seq<char>, replacement: Seq<char>) -> Seq<char> {
    match regex_replaced(pattern, text, replacement) {
        Some(t) => t,
        None => text,
    }
}

/// Applies `replace_all`, keeping `text` when the pattern does not compile.
pub fn rewrite(pattern: &str, text: &str, replacement: &str) -> (r: String)
    ensures
        r@ == rewritten(pattern@, text@, replacement@),
        (pattern@ == digit_class() && no_ascii_digit(replacement@) && !replacement@.contains('$')) ==> no_ascii_digit(r@),
{
    match replace_all(pattern, text, replacement) {
        Some(t) => t,
        None => owned(text),
    }
}

/// The capture groups of the first match of `pattern` in `text` (group 0 is
/// the whole match; a group that took no part is `None`); the inner `None`
/// when nothing matches, the outer one when `pattern` does not compile.
pub uninterp spec fn regex_groups(pattern: Seq<char>, text: Seq<char>) -> Option<Option<Seq<Option<Seq<char>>>>>;

/// The views of a sequence of optional strings.
pub open spec fn groups_of(v: Seq<Option<String>>) -> Seq<Option<Seq<char>>> {
    v.map_values(|g: Option<String>| match g {
        Some(s) => Some(s@),
        None => None,
    })
}

/// Compiles `pattern` with `regex::Regex::new` and calls `Regex::captures`
/// on `text`, keeping the text of each group.  Claimed: the result is what
/// `regex_groups` names.
#[verifier::external_body]
pub(crate) fn captures(pattern: &str, text: &str) -> (r: Option<Option<Vec<Option<String>>>>)
    ensures
        match r {
            Some(Some(g)) => regex_groups(pattern@, text@) == Some(Some(groups_of(g@))),
            Some(None) => regex_groups(pattern@, text@) == Some(None::<Seq<Option<Seq<char>>>>),
            None => regex_groups(pattern@, text@) is None,
        },
{
    match Regex::new(pattern) {
        Ok(re) => Some(re.captures(text).map(|c| c.iter().map(|m| m.map(|x| x.as_str().to_string())).collect())),
        Err(_) => None,
    }
}

/// Group `i` of the first match of `pattern` in `text`, when the pattern
/// compiles, matches, and the group took part.
pub open spec fn group_of(pattern: Seq<char>, text: Seq<char>, i: int) -> Option<Seq<char>> {
    match regex_groups(pattern, text) {
        Some(Some(g)) => if 0 <= i < g.len() { g[i] } else { None },
        _ => None,
    }
}

/// The first match of `pattern` in `text`, when it compiles and matches.
pub open spec fn first_match(pattern: Seq<char>, text: Seq<char>) -> Option<Seq<char>> {
    match regex_matches(pattern, text) {
        Some(ms) => if ms.len() > 0 { Some(ms[0]) } else { None },
        None => None,
    }
}

/// The first match of `pattern` in `text` (see `first_match`).
pub fn find_first(pattern: &str, text: &str) -> (r: Option<String>)
    ensures
        match r {
            Some(t) => first_match(pattern@, text@) == Some(t@),
            None => first_match(pattern@, text@) is None,
        },
{
    match find_all(pattern, text) {
        Some(ms) => if ms.len() > 0 {
            Some(ms[0].clone())
        } else {
            None
        },
        None => None,
    }
}

} // verus!
