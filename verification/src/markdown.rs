//! Markdown rendering, through `pulldown-cmark`.
use vstd::prelude::*;

verus! {

/// The HTML that `pulldown_cmark::html::push_html` writes for the events that
/// `pulldown_cmark::Parser::new` reads from the Markdown text `s`.
pub uninterp spec fn markdown_html(s: Seq<char>) -> Seq<char>;

/// Calls `pulldown_cmark::Parser::new` on `markdown` (CommonMark, no
/// extensions) and `pulldown_cmark::html::push_html` on its events into an
/// empty string. The rendering depends on the text alone; the contract names
/// it.
#[verifier::external_body]
pub(crate) fn markdown_to_html(markdown: &str) -> (r: String)
    ensures
        r@ == markdown_html(markdown@),
{
    let parser = pulldown_cmark::Parser::new(markdown);
    let mut out = String::new();
    pulldown_cmark::html::push_html(&mut out, parser);
    out
}

} // verus!
