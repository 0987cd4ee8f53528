use vstd::prelude::*;

verus! {

/// The display markup that the markdown conversion produces for a given
/// source text. The conversion is an outside pure function; this library
/// owns only its contract: same source text, same markup.
pub uninterp spec fn html_of(md: Seq<char>) -> Seq<char>;

/// Relies on pulldown_cmark::html::push_html over pulldown_cmark::Parser:
/// renders CommonMark text to HTML, a pure function of the source text.
#[verifier::external_body]
pub(crate) fn md_to_html(s: &str) -> (r: String)
    ensures
        r@ == html_of(s@),
{
    let mut out = String::new();
    pulldown_cmark::html::push_html(&mut out, pulldown_cmark::Parser::new(s));
    out
}

} // verus!
