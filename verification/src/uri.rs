//! URI references, as the language server protocol reads them.

use crate::text;
use vstd::prelude::*;

verus! {

/// Whether `lsp_types::Uri` accepts the text as a URI reference.
pub uninterp spec fn is_uri(text: Seq<char>) -> bool;

/// Parses a URI reference with `lsp_types::Uri::from_str` and returns its text.
///
/// Claimed: whether a text is accepted depends on the text alone, and the URI that is
/// made of it has that text unchanged. The parser panics on a text of more than
/// `i32::MAX` bytes. Which texts are accepted is not said here.
#[verifier::external_body]
pub(crate) fn parse_uri(text: &str) -> (r: Option<String>)
    requires
        vstd::utf8::encode_utf8(text@).len() <= i32::MAX,
    ensures
        text::optional(r) == (if is_uri(text@) {
            Some(text@)
        } else {
            None
        }),
{
    match <lsp_types::Uri as std::str::FromStr>::from_str(text) {
        Ok(uri) => Some(uri.as_str().to_string()),
        Err(_) => None,
    }
}

} // verus!
