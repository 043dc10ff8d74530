//! The HTML path: UTF-8 validation around the collaborating HTML-to-Markdown
//! translator, with empty results rejected.

use vstd::prelude::*;
use crate::errors::ConvertError;
use crate::text::{bytes_to_str, chars_of_str, spec_trim, trim_chars};

verus! {

/// What the HTML-to-Markdown translation yields for a document; the result
/// depends on the markup alone.
pub uninterp spec fn html_md_of(s: Seq<char>) -> Seq<char>;

/// Relies on `html2md::parse_html`: translates an HTML document to
/// Markdown.
#[verifier::external_body]
fn parse_html_md(s: &str) -> (r: String)
    ensures
        r@ == html_md_of(s@),
{
    html2md::parse_html(s)
}

/// Converts HTML bytes to Markdown.
///
/// The bytes must be well-formed UTF-8; a translation whose trimmed result
/// is empty is rejected. Both failures are document parse errors.
pub fn run(bytes: &[u8]) -> (r: Result<String, ConvertError>)
    ensures
        !vstd::utf8::valid_utf8(bytes@) ==> (r matches Err(e) && e is DocumentParse),
        vstd::utf8::valid_utf8(bytes@) ==> (r is Ok <==> spec_trim(
            html_md_of(vstd::utf8::decode_utf8(bytes@)),
        ).len() > 0),
        r matches Ok(md) ==> md@ == html_md_of(vstd::utf8::decode_utf8(bytes@)),
        r matches Err(e) ==> e is DocumentParse,
{
    let owned = vstd::slice::slice_to_vec(bytes);
    let content = match bytes_to_str(&owned) {
        Some(s) => s,
        None => {
            return Err(
                ConvertError::DocumentParse(String::from_str("invalid UTF-8 encoding")),
            );
        },
    };
    let markdown = parse_html_md(content);
    let md_chars = chars_of_str(markdown.as_str());
    let trimmed = trim_chars(&md_chars);
    if trimmed.len() == 0 {
        return Err(
            ConvertError::DocumentParse(String::from_str("empty or unreadable markup")),
        );
    }
    Ok(markdown)
}

} // verus!
