use crate::text::{option_views, views};
use vstd::prelude::*;

verus! {

/// The groups of the first match of the regular expression `pattern` in
/// `text`, the whole match first, a group that took no part as the empty text;
/// `None` where nothing matches or `pattern` is no regular expression.
pub uninterp spec fn captures_of(pattern: Seq<char>, text: Seq<char>) -> Option<Seq<Seq<char>>>;

/// All matches of the regular expression `pattern` in `text`, from the left
/// and without overlap; none where `pattern` is no regular expression.
pub uninterp spec fn matches_of(pattern: Seq<char>, text: Seq<char>) -> Seq<Seq<char>>;

/// `regex::Regex::new` and `captures`: the groups of the first match of
/// `pattern` in `text`, each as a text.
#[verifier::external_body]
pub(crate) fn captures(pattern: &str, text: &str) -> (out: Option<Vec<String>>)
    ensures
        option_views(out) == captures_of(pattern@, text@),
{
    let regex = regex::Regex::new(pattern).ok()?;
    let found = regex.captures(text)?;
    Some(
        found.iter().map(|group| group.map_or(String::new(), |m| m.as_str().to_owned())).collect(),
    )
}

/// `regex::Regex::new` and `captures_iter`: every match of `pattern` in
/// `text`, each as a text.
#[verifier::external_body]
pub(crate) fn all_matches(pattern: &str, text: &str) -> (out: Vec<String>)
    ensures
        views(out@) == matches_of(pattern@, text@),
{
    match regex::Regex::new(pattern) {
        Ok(regex) => regex.captures_iter(text).map(|found| found[0].to_owned()).collect(),
        Err(_) => Vec::new(),
    }
}

} // verus!
