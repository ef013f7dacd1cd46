//! Regular-expression captures (`regex`).
use vstd::prelude::*;

verus! {

/// The text of capture group `group` in the first match of `pattern` in
/// `haystack`, as the `regex` crate finds it (leftmost-first); `None` where
/// there is no match, the group took no part in the match, or `pattern` does
/// not compile.
pub uninterp spec fn regex_capture(pattern: Seq<char>, haystack: Seq<char>, group: usize) -> Option<
    Seq<char>,
>;

/// The text of capture group `group` of the first match of `pattern` in
/// `haystack` (`Regex::new`, then `Regex::captures` and `Captures::get`).
/// The contract names the result only; nothing is stated of the regex engine.
#[verifier::external_body]
pub fn first_capture(pattern: &str, haystack: &str, group: usize) -> (r: Option<String>)
    ensures
        match r {
            Some(t) => regex_capture(pattern@, haystack@, group) == Some(t@),
            None => regex_capture(pattern@, haystack@, group) is None,
        },
{
    let re = regex::Regex::new(pattern).ok()?;
    let caps = re.captures(haystack)?;
    caps.get(group).map(|m| m.as_str().to_string())
}

} // verus!
