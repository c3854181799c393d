//! Searches by regular expression.
//!
//! The wrappers in this file are believed, not proved. Each names the call of
//! the regex crate that it makes. A pattern that is not valid finds nothing.

use vstd::prelude::*;

use crate::text::{opt_text, texts};

verus! {

/// The text of group `n` in the first match of a pattern.
pub uninterp spec fn group_of(pattern: Seq<char>, text: Seq<char>, n: usize) -> Option<Seq<char>>;

/// The first match of a pattern.
pub uninterp spec fn match_of(pattern: Seq<char>, text: Seq<char>) -> Option<Seq<char>>;

/// The texts of the first group in all matches of a pattern, in order.
pub uninterp spec fn all_groups(pattern: Seq<char>, text: Seq<char>) -> Seq<Seq<char>>;

/// A text without the matches of a pattern.
pub uninterp spec fn without_matches(pattern: Seq<char>, text: Seq<char>) -> Seq<char>;

/// `regex::Regex::captures` and the group of the given number.
#[verifier::external_body]
pub(crate) fn find_group(pattern: &str, text: &str, n: usize) -> (r: Option<String>)
    ensures
        opt_text(r) == group_of(pattern@, text@, n),
{
    let captures = regex::Regex::new(pattern).ok()?.captures(text)?;
    captures.get(n).map(|m| m.as_str().to_string())
}

/// `regex::Regex::find`.
#[verifier::external_body]
pub(crate) fn find_match(pattern: &str, text: &str) -> (r: Option<String>)
    ensures
        opt_text(r) == match_of(pattern@, text@),
{
    regex::Regex::new(pattern).ok()?.find(text).map(|m| m.as_str().to_string())
}

/// `regex::Regex::captures_iter` and the first group of each match, empty where a
/// match lacks it.
#[verifier::external_body]
pub(crate) fn find_groups(pattern: &str, text: &str) -> (r: Vec<String>)
    ensures
        texts(r@) == all_groups(pattern@, text@),
{
    let Ok(regex) = regex::Regex::new(pattern) else { return Vec::new() };
    regex.captures_iter(text).map(|c| c.get(1).map_or("", |m| m.as_str()).to_string()).collect()
}

/// `regex::Regex::replace_all` by nothing.
#[verifier::external_body]
pub(crate) fn remove_matches(pattern: &str, text: &str) -> (r: String)
    ensures
        r@ == without_matches(pattern@, text@),
{
    let Ok(regex) = regex::Regex::new(pattern) else { return text.to_string() };
    regex.replace_all(text, "").into_owned()
}

} // verus!
