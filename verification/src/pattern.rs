use vstd::prelude::*;

verus! {

/// `regex::Regex` as an opaque type, so the optional ignore pattern can sit
/// in the configuration and be consulted by the watch dispatcher.
#[verifier::external_type_specification]
#[verifier::external_body]
pub struct ExRegex(regex::Regex);

/// What `regex::Regex::is_match` returns for a compiled pattern and a text.
/// The regex crate computes the answer from those two alone, the same way on
/// every run, so the result carries a name here; the regex language itself
/// is not restated.
pub uninterp spec fn regex_match(re: regex::Regex, text: Seq<char>) -> bool;

/// Relies on regex::Regex::is_match: whether the compiled pattern matches
/// anywhere inside `text`.
#[verifier::external_body]
pub(crate) fn re_is_match(re: &regex::Regex, text: &str) -> (r: bool)
    ensures
        r == regex_match(*re, text@),
{
    re.is_match(text)
}

} // verus!
