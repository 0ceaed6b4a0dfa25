use regex::Regex;
use vstd::prelude::*;

verus! {

/// The capture groups that the regular expression `pattern` finds at its leftmost match in
/// `text`, as `Regex::captures` reports them: group 0 is the whole match, and a group that took
/// no part in the match is `None`. The result is `None` where nothing in `text` matches, or
/// where `pattern` is not an expression that `Regex::new` accepts.
pub uninterp spec fn regex_groups(pattern: Seq<char>, text: Seq<char>) -> Option<Seq<Option<Seq<char>>>>;

/// Compiles `pattern` with `Regex::new` and searches `text` with `Regex::captures`; the groups
/// come back as owned strings, in the order of `Captures::iter`.
#[verifier::external_body]
pub(crate) fn match_groups(pattern: &str, text: &str) -> (groups: Option<Vec<Option<String>>>)
    ensures
        groups.deep_view() == regex_groups(pattern@, text@),
{
    let expression = Regex::new(pattern).ok()?;
    let captures = expression.captures(text)?;
    Some(captures.iter().map(|group| group.map(|m| m.as_str().to_string())).collect())
}

} // verus!
