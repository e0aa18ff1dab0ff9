//! Regular expressions, as the `regex` crate compiles and applies them.

use vstd::prelude::*;

verus! {

/// Makes `regex::Regex` known as an opaque type.
#[verifier::external_type_specification]
#[verifier::external_body]
pub struct ExRegex(regex::Regex);

/// The pattern text that a compiled expression was made from.
pub uninterp spec fn regex_source(re: regex::Regex) -> Seq<char>;

/// Whether a pattern text compiles to a regular expression.
pub uninterp spec fn pattern_compiles(pattern: Seq<char>) -> bool;

/// Whether the expression of a pattern matches anywhere in a text.
pub uninterp spec fn pattern_matches(pattern: Seq<char>, text: Seq<char>) -> bool;

/// A text after each non-overlapping match of a pattern has been replaced
/// by the expansion of a replacement template.
pub uninterp spec fn pattern_replaced(
    pattern: Seq<char>,
    text: Seq<char>,
    template: Seq<char>,
) -> Seq<char>;

/// A text after all matches of a pattern have been replaced; a text in
/// which the pattern matches nowhere stays as it is.
pub open spec fn rewritten(pattern: Seq<char>, text: Seq<char>, template: Seq<char>) -> Seq<char> {
    if pattern_matches(pattern, text) {
        pattern_replaced(pattern, text, template)
    } else {
        text
    }
}

/// Compiles a pattern.
///
/// Trusted: `regex::Regex::new`. Whether it succeeds depends on the
/// pattern text alone, and the expression it returns is that of this
/// pattern text.
#[verifier::external_body]
pub(crate) fn compile(pattern: &str) -> (r: Option<regex::Regex>)
    ensures
        r is Some <==> pattern_compiles(pattern@),
        r matches Some(re) ==> regex_source(re) == pattern@,
{
    regex::Regex::new(pattern).ok()
}

/// Whether the expression matches anywhere in `text`.
///
/// Trusted: `regex::Regex::is_match`, whose result depends on the
/// expression's pattern and on the text alone.
#[verifier::external_body]
pub(crate) fn matches_in(re: &regex::Regex, text: &str) -> (r: bool)
    ensures
        r == pattern_matches(regex_source(*re), text@),
{
    re.is_match(text)
}

/// Replaces every non-overlapping match of the expression in `text` by
/// the expansion of `template`.
///
/// Trusted: `regex::Regex::replace_all` with a string as the replacement.
/// Its result depends on the expression's pattern, the text and the
/// template alone, and where nothing matches it is the text unchanged.
#[verifier::external_body]
pub(crate) fn replace_all(re: &regex::Regex, text: &str, template: &str) -> (r: String)
    ensures
        pattern_matches(regex_source(*re), text@) ==> r@ == pattern_replaced(
            regex_source(*re),
            text@,
            template@,
        ),
        !pattern_matches(regex_source(*re), text@) ==> r@ == text@,
{
    re.replace_all(text, template).into_owned()
}

} // verus!
