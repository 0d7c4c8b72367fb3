//! Regular expressions through the `regex` crate.
use vstd::prelude::*;

verus! {

/// What compiling `pattern` with `regex::Regex::new` and matching it
/// against `text` gives: `None` when the pattern does not compile.
pub uninterp spec fn regex_match(pattern: Seq<char>, text: Seq<char>) -> Option<bool>;

/// What compiling `pattern` and calling `replace_all(text, replacement)`
/// gives: `None` when the pattern does not compile.
pub uninterp spec fn regex_replace(pattern: Seq<char>, text: Seq<char>, replacement: Seq<char>) -> Option<Seq<char>>;

/// `regex::Regex::new(pattern)` then `is_match(text)`. The result is named by
/// [`regex_match`].
#[verifier::external_body]
pub(crate) fn regex_is_match(pattern: &str, text: &str) -> (r: Option<bool>)
    ensures
        r == regex_match(pattern@, text@),
{
    regex::Regex::new(pattern).ok().map(|re| re.is_match(text))
}

/// `regex::Regex::new(pattern)` then `replace_all(text, replacement)`. The
/// result is named by [`regex_replace`].
#[verifier::external_body]
pub(crate) fn regex_replace_all(pattern: &str, text: &str, replacement: &str) -> (r: Option<String>)
    ensures
        match r {
            Some(s) => regex_replace(pattern@, text@, replacement@) == Some(s@),
            None => regex_replace(pattern@, text@, replacement@) is None,
        },
{
    regex::Regex::new(pattern).ok().map(|re| re.replace_all(text, replacement).into_owned())
}

/// What compiling `pattern` and reading capture group `group` of its first
/// match in `text` gives: `None` when the pattern does not compile,
/// `Some(None)` when nothing matches or the group takes no part.
pub uninterp spec fn regex_group(pattern: Seq<char>, text: Seq<char>, group: usize) -> Option<Option<Seq<char>>>;

/// `regex::Regex::new(pattern)`, then `captures(text)` and `get(group)` of
/// them. The result is named by [`regex_group`].
#[verifier::external_body]
pub(crate) fn regex_capture(pattern: &str, text: &str, group: usize) -> (r: Option<Option<String>>)
    ensures
        match r {
            None => regex_group(pattern@, text@, group) is None,
            Some(None) => regex_group(pattern@, text@, group) == Some(None::<Seq<char>>),
            Some(Some(s)) => regex_group(pattern@, text@, group) == Some(Some(s@)),
        },
{
    let re = regex::Regex::new(pattern).ok()?;
    Some(re.captures(text).and_then(|c| c.get(group)).map(|m| m.as_str().to_string()))
}

} // verus!
