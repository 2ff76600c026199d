//! Title normalization for the messaging application, which decorates its
//! window titles with a count of unread messages in parentheses.

use vstd::prelude::*;

verus! {

/// The badge at the start of a title: a parenthesized run of one or more
/// digits, with the whitespace in front of it and behind it.
pub const LEADING_BADGE: &'static str = "^\\s*\\(\\d+\\)\\s*";

/// The badge at the end of a title: a parenthesized run of one or more
/// digits, with the whitespace in front of it and behind it.
pub const TRAILING_BADGE: &'static str = "\\s*\\(\\d+\\)\\s*$";

/// What the `regex` crate gives for one replacement: `None` where `pattern`
/// does not compile to a regular expression, else the haystack in which the
/// leftmost-first match of the pattern, if there is one, has given way to the
/// expansion of `replacement`.
pub uninterp spec fn regex_replace(
    pattern: Seq<char>,
    haystack: Seq<char>,
    replacement: Seq<char>,
) -> Option<Seq<char>>;

/// Compiles `pattern` with `regex::Regex::new` and replaces its first match in
/// `haystack` with `regex::Regex::replace`. The contract gives the outcome the
/// name `regex_replace` and claims nothing else of it: that the result depends
/// on the three strings alone, with `None` standing for a pattern that the
/// crate refuses.
#[verifier::external_body]
fn replace_first(pattern: &str, haystack: &str, replacement: &str) -> (r: Option<String>)
    ensures
        r is Some ==> regex_replace(pattern@, haystack@, replacement@) == Some(r->Some_0@),
        r is None ==> regex_replace(pattern@, haystack@, replacement@) is None,
{
    match regex::Regex::new(pattern) {
        Ok(re) => Some(re.replace(haystack, replacement).into_owned()),
        Err(_) => None,
    }
}

/// The text that stands after an attempt to replace: the replaced text where
/// there is one, the title as it was where the pattern was refused.
pub open spec fn replaced_or(title: Seq<char>, replaced: Option<Seq<char>>) -> Seq<char> {
    match replaced {
        Some(text) => text,
        None => title,
    }
}

/// Picks the replaced text where there is one, and keeps the title as it was
/// where the pattern was refused.
pub fn replaced_or_unchanged(title: String, replaced: Option<String>) -> (text: String)
    ensures
        text@ == replaced_or(
            title@,
            match replaced {
                Some(s) => Some(s@),
                None => None,
            },
        ),
{
    match replaced {
        Some(text) => text,
        None => title,
    }
}

/// The title without the first match of `pattern`.
pub open spec fn without_match(pattern: Seq<char>, title: Seq<char>) -> Seq<char> {
    replaced_or(title, regex_replace(pattern, title, Seq::empty()))
}

/// The title without its badges: first the leading one goes, then, from what
/// is left, the trailing one.
pub open spec fn normalized_title(title: Seq<char>) -> Seq<char> {
    without_match(TRAILING_BADGE@, without_match(LEADING_BADGE@, title))
}

/// Removes the first match of `pattern` from `title`.
pub fn strip_match(pattern: &str, title: String) -> (text: String)
    ensures
        text@ == without_match(pattern@, title@),
{
    let empty = "";
    proof {
        reveal_strlit("");
        assert(empty@ =~= Seq::<char>::empty());
    }
    let replaced = replace_first(pattern, title.as_str(), empty);
    replaced_or_unchanged(title, replaced)
}

/// Strips the unread-message badge from both ends of a window title.
pub fn strip_message_counts(title: String) -> (text: String)
    ensures
        text@ == normalized_title(title@),
{
    let leading_gone = strip_match(LEADING_BADGE, title);
    strip_match(TRAILING_BADGE, leading_gone)
}

} // verus!
