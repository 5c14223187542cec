//! Pattern matching for the regex fallback of the routing table.
//!
//! A stored path or method is treated as the anchored regular expression
//! `^pattern$`. What such an expression accepts is named, not restated: the
//! two spec functions below stand for the outcome of the regex engine on the
//! anchored pattern, a function of the pattern and text alone.

use vstd::prelude::*;

verus! {

pub uninterp spec fn regex_accepts(pattern: Seq<char>) -> bool;

pub uninterp spec fn regex_matches(pattern: Seq<char>, text: Seq<char>) -> bool;

/// Relies on `regex::Regex::new` and `regex::Regex::is_match`: `new` compiles
/// the anchored pattern `^pattern$` (an error for an invalid pattern), and
/// `is_match` reports whether the compiled expression matches the text; both
/// results depend on the pattern and text alone.
#[verifier::external_body]
pub(crate) fn anchored_regex_match(pattern: &str, text: &str) -> (r: Option<bool>)
    ensures
        r is Some <==> regex_accepts(pattern@),
        r matches Some(b) ==> b == regex_matches(pattern@, text@),
{
    match regex::Regex::new(format!("^{}$", pattern).as_str()) {
        Ok(re) => Some(re.is_match(text)),
        Err(_) => None,
    }
}

} // verus!
