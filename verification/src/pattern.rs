//! Searching text with regular expressions.

use regex::Regex;
use vstd::prelude::*;

verus! {

/// The pattern that finds an article's path in the `onclick` script of a preview.
pub const ARTICLE_PATTERN: &'static str = r"ShowDetails\('(.+?)'";

/// The pattern that finds the declared background colour in a `style` attribute.
pub const BACKGROUND_PATTERN: &'static str = r"background:\s*(.+?);";

/// The pattern that finds a colour written as three decimal components.
pub const TRIPLET_PATTERN: &'static str = r"rgb\((\d+),\s*(\d+),\s*(\d+)\)";

/// What the leftmost match of the regular expression `pattern` in `text` captured: the
/// text of each capture group in the order of their opening brackets, group 0 being
/// the whole match, and `None` for a group that took no part in it. `None` as a whole
/// where `pattern` matches nowhere in `text`, or is no regular expression.
pub uninterp spec fn regex_captures(pattern: Seq<char>, text: Seq<char>) -> Option<
    Seq<Option<Seq<char>>>,
>;

/// Searches `text` with `Regex::new(pattern)` and `Regex::captures`, and copies out the
/// text of every capture group. The result is named, not described: it is whatever the
/// `regex` crate finds, and depends on `pattern` and `text` alone.
#[verifier::external_body]
pub(crate) fn captures(pattern: &str, text: &str) -> (r: Option<Vec<Option<String>>>)
    ensures
        r.deep_view() == regex_captures(pattern@, text@),
{
    let re = Regex::new(pattern).ok()?;
    re.captures(text).map(|found| found.iter().map(|g| g.map(|m| m.as_str().to_string())).collect())
}

/// The text of capture group `index` in `found`, where the match has such a group and
/// it took part.
pub open spec fn group_of(found: Option<Seq<Option<Seq<char>>>>, index: int) -> Option<Seq<char>> {
    match found {
        Some(groups) => if 0 <= index < groups.len() {
            groups[index]
        } else {
            None
        },
        None => None,
    }
}

/// What capture group `index` holds in the leftmost match of `pattern` in `text`.
pub open spec fn captured(pattern: Seq<char>, text: Seq<char>, index: int) -> Option<Seq<char>> {
    group_of(regex_captures(pattern, text), index)
}

/// Picks capture group `index` out of the groups of a match.
pub fn group<'a>(found: &'a Option<Vec<Option<String>>>, index: usize) -> (r: Option<&'a str>)
    ensures
        r.deep_view() == group_of(found.deep_view(), index as int),
{
    match found {
        Some(groups) => {
            if index < groups.len() {
                assert(groups.deep_view()[index as int] == groups@[index as int].deep_view());
                match &groups[index] {
                    Some(text) => Some(text.as_str()),
                    None => None,
                }
            } else {
                None
            }
        },
        None => None,
    }
}

/// Searches `text` for `pattern` and gives what capture group `index` holds.
pub fn capture(pattern: &str, text: &str, index: usize) -> (r: Option<String>)
    ensures
        r.deep_view() == captured(pattern@, text@, index as int),
{
    let found = captures(pattern, text);
    match group(&found, index) {
        Some(text) => Some(text.to_owned()),
        None => None,
    }
}

} // verus!
