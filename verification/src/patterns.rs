//! Regular expressions.

use vstd::prelude::*;

use crate::discovery::option_view;

verus! {

/// What `regex::Regex::new` says against a pattern; nothing where the pattern
/// is valid.
pub uninterp spec fn regex_error(pattern: Seq<char>) -> Option<Seq<char>>;

/// `regex::Regex::new` compiles a pattern or says what is wrong with it.
#[verifier::external_body]
pub(crate) fn check(pattern: &str) -> (r: Option<String>)
    ensures
        option_view(r) == regex_error(pattern@),
{
    regex::Regex::new(pattern).err().map(|e| e.to_string())
}

/// Whether `regex::Regex::is_match` finds a match of a pattern in a text.
pub uninterp spec fn regex_matches(pattern: Seq<char>, text: Seq<char>) -> bool;

/// `regex::Regex::is_match` tells whether a valid pattern matches somewhere in
/// a text.
#[verifier::external_body]
pub(crate) fn is_match(pattern: &str, text: &str) -> (b: bool)
    requires
        regex_error(pattern@) is None,
    ensures
        b == regex_matches(pattern@, text@),
{
    regex::Regex::new(pattern).unwrap().is_match(text)
}

/// The groups of the first match, the whole match first, as
/// `regex::Regex::captures` gives them.
pub uninterp spec fn regex_captures(
    pattern: Seq<char>,
    text: Seq<char>,
) -> Option<Seq<Option<Seq<char>>>>;

/// The views of the groups of a match.
pub open spec fn group_views(v: Seq<Option<String>>) -> Seq<Option<Seq<char>>> {
    Seq::new(v.len(), |i: int| option_view(v[i]))
}

/// The views of the groups of an optional match.
pub open spec fn match_view(found: Option<Vec<Option<String>>>) -> Option<
    Seq<Option<Seq<char>>>,
> {
    match found {
        Some(groups) => Some(group_views(groups@)),
        None => None,
    }
}

/// `regex::Regex::captures` gives the groups of the first match of a pattern
/// in a text. A pattern that is not valid has no match.
#[verifier::external_body]
pub(crate) fn captures(pattern: &str, text: &str) -> (r: Option<Vec<Option<String>>>)
    ensures
        match r {
            Some(groups) => regex_captures(pattern@, text@) == Some(group_views(groups@))
                && regex_error(pattern@) is None,
            None => regex_captures(pattern@, text@) is None,
        },
{
    let re = regex::Regex::new(pattern).ok()?;
    let found = re.captures(text)?;
    Some(found.iter().map(|g| g.map(|m| m.as_str().to_owned())).collect())
}

/// A match: the byte position behind it and its groups.
#[derive(Debug)]
pub struct Found {
    /// The byte position behind the match.
    pub end: usize,
    /// The groups, the whole match first.
    pub groups: Vec<Option<String>>,
}

impl View for Found {
    type V = (nat, Seq<Option<Seq<char>>>);

    open spec fn view(&self) -> (nat, Seq<Option<Seq<char>>>) {
        (self.end as nat, group_views(self.groups@))
    }
}

/// The views of a sequence of matches.
pub open spec fn found_views(v: Seq<Found>) -> Seq<(nat, Seq<Option<Seq<char>>>)> {
    Seq::new(v.len(), |i: int| v[i]@)
}

/// The successive matches of a pattern in a text, as
/// `regex::Regex::captures_iter` gives them.
pub uninterp spec fn regex_captures_all(
    pattern: Seq<char>,
    text: Seq<char>,
) -> Seq<(nat, Seq<Option<Seq<char>>>)>;

/// `regex::Regex::captures_iter` gives the successive matches of a pattern in
/// a text. A pattern that is not valid has no match.
#[verifier::external_body]
pub(crate) fn captures_all(pattern: &str, text: &str) -> (r: Vec<Found>)
    ensures
        found_views(r@) == regex_captures_all(pattern@, text@),
        regex_error(pattern@) is Some ==> r@.len() == 0,
{
    let Ok(re) = regex::Regex::new(pattern) else { return Vec::new() };
    re.captures_iter(text).map(|c| Found {
        end: c.get(0).map_or(0, |m| m.end()),
        groups: c.iter().map(|g| g.map(|m| m.as_str().to_owned())).collect(),
    }).collect()
}

/// A character that means something else than itself in a pattern.
pub open spec fn is_meta(c: char) -> bool {
    ||| c == '\\' || c == '.' || c == '+' || c == '*' || c == '?' || c == '(' || c == ')'
    ||| c == '|' || c == '[' || c == ']' || c == '{' || c == '}' || c == '^' || c == '$'
    ||| c == '#' || c == '&' || c == '-' || c == '~'
}

/// A text with a backslash before each character that means something else
/// than itself in a pattern.
pub open spec fn regex_escaped(text: Seq<char>) -> Seq<char>
    decreases text.len(),
{
    if text.len() == 0 {
        Seq::empty()
    } else if is_meta(text.last()) {
        regex_escaped(text.drop_last()) + seq!['\\', text.last()]
    } else {
        regex_escaped(text.drop_last()).push(text.last())
    }
}

/// `regex::escape` puts a backslash before each character that means
/// something else than itself in a pattern, and changes nothing else.
#[verifier::external_body]
pub(crate) fn escape(text: &str) -> (r: String)
    ensures
        r@ == regex_escaped(text@),
{
    regex::escape(text)
}

/// The text of the `i`th group; empty where the group is not part of the
/// match.
pub open spec fn group_text(groups: Seq<Option<Seq<char>>>, i: int) -> Seq<char> {
    if 0 <= i < groups.len() {
        match groups[i] {
            Some(t) => t,
            None => Seq::empty(),
        }
    } else {
        Seq::empty()
    }
}

/// The text of the `i`th group; empty where the group is not part of the
/// match.
pub fn group(groups: &Vec<Option<String>>, i: usize) -> (r: String)
    ensures
        r@ == group_text(group_views(groups@), i as int),
{
    if i < groups.len() {
        match &groups[i] {
            Some(t) => t.clone(),
            None => String::new(),
        }
    } else {
        String::new()
    }
}

} // verus!
