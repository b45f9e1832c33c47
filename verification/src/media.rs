//! The media type of what a template produces, from its extension.

use crate::text::str_eq;
use vstd::prelude::*;
use vstd::string::StringExecFns;

verus! {

/// The media type that `mime_guess` holds first for an extension, as text;
/// `application/octet-stream` where it holds none.
pub uninterp spec fn guessed_media_type(ext: Seq<char>) -> Seq<char>;

/// Calls `mime_guess::from_ext` and, on the guess,
/// `MimeGuess::first_or_octet_stream`, and gives the media type as text. The
/// guess is a lookup in a table that is compiled into the crate.
#[verifier::external_body]
fn guess_media_type(ext: &str) -> (r: String)
    ensures
        r@ == guessed_media_type(ext@),
{
    mime_guess::from_ext(ext).first_or_octet_stream().to_string()
}

/// The media type to announce for a guessed one: the textual types get
/// their `charset=utf-8` parameter, every other type stays as it is.
pub open spec fn spec_text_type(basic: Seq<char>) -> Seq<char> {
    if basic == "text/plain"@ {
        "text/plain; charset=utf-8"@
    } else if basic == "text/html"@ {
        "text/html; charset=utf-8"@
    } else if basic == "text/css"@ {
        "text/css; charset=utf-8"@
    } else if basic == "text/csv"@ {
        "text/csv; charset=utf-8"@
    } else if basic == "text/tab-separated-values"@ {
        "text/tab-separated-values; charset=utf-8"@
    } else if basic == "application/javascript"@ {
        "application/javascript; charset=utf-8"@
    } else {
        basic
    }
}

/// The media type to announce for a guessed one.
pub fn text_type(basic: String) -> (r: String)
    ensures
        r@ == spec_text_type(basic@),
{
    let b = basic.as_str();
    if str_eq(b, "text/plain") {
        String::from_str("text/plain; charset=utf-8")
    } else if str_eq(b, "text/html") {
        String::from_str("text/html; charset=utf-8")
    } else if str_eq(b, "text/css") {
        String::from_str("text/css; charset=utf-8")
    } else if str_eq(b, "text/csv") {
        String::from_str("text/csv; charset=utf-8")
    } else if str_eq(b, "text/tab-separated-values") {
        String::from_str("text/tab-separated-values; charset=utf-8")
    } else if str_eq(b, "application/javascript") {
        String::from_str("application/javascript; charset=utf-8")
    } else {
        basic
    }
}

/// The media type of what a template with the extension `ext` produces.
pub fn extension_to_mime_type(ext: &str) -> (r: String)
    ensures
        r@ == spec_text_type(guessed_media_type(ext@)),
{
    text_type(guess_media_type(ext))
}

} // verus!
