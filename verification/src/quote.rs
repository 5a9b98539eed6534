//! Texts in quotes, as they stand in messages.

use vstd::prelude::*;

verus! {

/// A text in quotes, with what does not print in it escaped.
pub uninterp spec fn quoted(s: Seq<char>) -> Seq<char>;

/// The `Debug` form of `str` of std: the text in double quotes, with quotes,
/// backslashes and what does not print written as escapes.
#[verifier::external_body]
pub(crate) fn quote(s: &str) -> (r: String)
    ensures
        r@ == quoted(s@),
{
    format!("{s:?}")
}

} // verus!
