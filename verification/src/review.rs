//! The error record every command response carries.
use vstd::prelude::*;
use crate::text::{push_char, to_chars, string_of};

verus! {

/// One validation or operational failure reported to the caller.
pub struct ReviewError {
    pub category: String,
    pub code: String,
    pub message: String,
    pub path: String,
    pub recoverable: bool,
    /// Further facts about the failure, as key and value texts (empty for
    /// the validation failures the library reports).
    pub details: Vec<(String, String)>,
}

/// `s` with every `_` replaced by a space.
pub open spec fn spaced(s: Seq<char>) -> Seq<char> {
    s.map_values(|c: char| if c == '_' { ' ' } else { c })
}

/// Replaces every `_` of `s` by a space (`str::replace('_', " ")`).
pub fn underscores_to_spaces(s: &str) -> (r: String)
    ensures
        r@ == spaced(s@),
{
    let v = to_chars(s);
    let mut out = String::new();
    let mut i: usize = 0;
    while i < v.len()
        invariant
            v@ == s@,
            i <= v.len(),
            out@ == spaced(s@.subrange(0, i as int)),
        decreases v.len() - i,
    {
        let c = v[i];
        push_char(&mut out, if c == '_' { ' ' } else { c });
        assert(spaced(s@.subrange(0, i + 1)) =~= spaced(s@.subrange(0, i as int)).push(
            if c == '_' { ' ' } else { c },
        ));
        i = i + 1;
    }
    assert(s@.subrange(0, v.len() as int) =~= s@);
    out
}

/// A copy of a string slice as an owned string.
pub fn owned(s: &str) -> (r: String)
    ensures
        r@ == s@,
{
    let v = to_chars(s);
    let r = string_of(&v, 0, v.len());
    assert(v@.subrange(0, v.len() as int) =~= s@);
    r
}

/// The recoverable validation failure `code` at `path`, whose message is the
/// code with spaces for underscores.
pub fn validation_failure(code: &str, path: &str) -> (r: ReviewError)
    ensures
        r.category@ == "validation_failure"@,
        r.code@ == code@,
        r.message@ == spaced(code@),
        r.path@ == path@,
        r.recoverable,
        r.details@.len() == 0,
{
    ReviewError {
        category: owned("validation_failure"),
        code: owned(code),
        message: underscores_to_spaces(code),
        path: owned(path),
        recoverable: true,
        details: Vec::new(),
    }
}

/// The recoverable validation failure `code` at `path` with its own message.
pub fn validation_failure_with(code: &str, message: &str, path: &str) -> (r: ReviewError)
    ensures
        r.category@ == "validation_failure"@,
        r.code@ == code@,
        r.message@ == message@,
        r.path@ == path@,
        r.recoverable,
        r.details@.len() == 0,
{
    ReviewError {
        category: owned("validation_failure"),
        code: owned(code),
        message: owned(message),
        path: owned(path),
        recoverable: true,
        details: Vec::new(),
    }
}

} // verus!
