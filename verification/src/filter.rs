//! Title filters: patterns of the `regex` crate.
use vstd::prelude::*;

verus! {

/// `regex::Error`, why a text is no pattern; the verifier sees nothing
/// inside.
#[verifier::external_type_specification]
#[verifier::external_body]
pub struct ExRegexError(regex::Error);

/// Whether the `regex` crate takes `pattern` for a pattern.
pub uninterp spec fn regex_compiles(pattern: Seq<char>) -> bool;

/// Whether `pattern`, which compiles, matches somewhere in `text`.
pub uninterp spec fn regex_is_match(pattern: Seq<char>, text: Seq<char>) -> bool;

/// Whether `pattern` matches somewhere in `text`, or why `pattern` is no
/// pattern.
///
/// Trusted: compiles the pattern with `regex::Regex::new` and asks the
/// compiled pattern `is_match` of the text. The outcome is fixed by the two
/// texts: an error exactly where `regex_compiles` does not hold of the
/// pattern, else the answer that `regex_is_match` names.
#[verifier::external_body]
fn regex_match(pattern: &str, text: &str) -> (r: Result<bool, regex::Error>)
    ensures
        r is Ok <==> regex_compiles(pattern@),
        r matches Ok(b) ==> b == regex_is_match(pattern@, text@),
{
    Ok(regex::Regex::new(pattern)?.is_match(text))
}

/// Whether a filter with this pattern holds a title back: the pattern
/// compiles and matches the title.
pub open spec fn filters(pattern: Seq<char>, title: Seq<char>) -> bool {
    regex_compiles(pattern) && regex_is_match(pattern, title)
}

/// Checks that `pattern` compiles.
pub fn check_pattern(pattern: &str) -> (r: Result<(), regex::Error>)
    ensures
        r is Ok <==> regex_compiles(pattern@),
{
    let nothing = String::new();
    match regex_match(pattern, nothing.as_str()) {
        Ok(_) => Ok(()),
        Err(e) => Err(e),
    }
}

/// Whether the filter `pattern` holds the title `title` back. A pattern
/// that does not compile holds nothing back.
pub fn title_filtered(pattern: &str, title: &str) -> (r: bool)
    ensures
        r == filters(pattern@, title@),
{
    match regex_match(pattern, title) {
        Ok(b) => b,
        Err(_) => false,
    }
}

} // verus!
