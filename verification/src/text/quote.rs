//! Quoting for messages.

use vstd::prelude::*;

verus! {

/// What `{:?}` writes for the text `s`: the text in double quotes, with the
/// characters that need it escaped.
pub uninterp spec fn quoted_text(s: Seq<char>) -> Seq<char>;

/// `<str as Debug>::fmt`, through `format!("{:?}")`. The result depends on the
/// text alone; how each character is escaped is left unsaid.
#[verifier::external_body]
pub(crate) fn quoted(s: &str) -> (r: String)
    ensures
        r@ == quoted_text(s@),
{
    format!("{s:?}")
}

} // verus!
