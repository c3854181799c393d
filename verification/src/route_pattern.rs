//! Compiled patterns of transport routes.

use vstd::prelude::*;

verus! {

/// Whether a text is a regular expression.
pub uninterp spec fn regex_valid(pattern: Seq<char>) -> bool;

/// Whether a regular expression matches somewhere in a text.
pub uninterp spec fn regex_found(pattern: Seq<char>, text: Seq<char>) -> bool;

/// A compiled regular expression.
#[verifier::external_type_specification]
#[verifier::external_body]
pub struct ExRegex(regex::Regex);

/// A regular expression with the text that it was compiled from. Only
/// `RoutePattern::compile` makes one.
pub struct RoutePattern {
    text: String,
    regex: regex::Regex,
}

impl View for RoutePattern {
    type V = Seq<char>;

    closed spec fn view(&self) -> Seq<char> {
        self.text@
    }
}

impl RoutePattern {
    /// `regex::Regex::new`, with its default settings: it compiles exactly the
    /// valid patterns.
    #[verifier::external_body]
    pub(crate) fn compile(pattern: &str) -> (r: Option<RoutePattern>)
        ensures
            r is Some <==> regex_valid(pattern@),
            r matches Some(p) ==> p@ == pattern@,
    {
        let regex = regex::Regex::new(pattern).ok()?;
        Some(RoutePattern { text: pattern.to_string(), regex })
    }

    /// `regex::Regex::is_match`: whether the pattern matches somewhere. The value
    /// was compiled from its text with the default settings, so the text alone
    /// decides.
    #[verifier::external_body]
    pub(crate) fn is_match(&self, text: &str) -> (b: bool)
        ensures
            b == regex_found(self@, text@),
    {
        self.regex.is_match(text)
    }

    /// The text of the pattern.
    pub fn text(&self) -> (r: &str)
        ensures
            r@ == self@,
    {
        self.text.as_str()
    }
}

} // verus!
