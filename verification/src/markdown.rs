//! Conversion of Markdown to HTML, done by `pulldown_cmark`.

use pulldown_cmark::{html, Options, Parser};
use vstd::prelude::*;

verus! {

/// The HTML that `pulldown_cmark` writes for a Markdown text, with all of its
/// extensions switched on.
pub uninterp spec fn markdown_html(markdown: Seq<char>) -> Seq<char>;

/// Converts Markdown to HTML.
///
/// Trusted: the body runs `pulldown_cmark::Parser::new_ext` with
/// `Options::all()` over the text and hands the events to
/// `pulldown_cmark::html::push_html`. The contract claims only that the HTML
/// is a function of the text.
#[verifier::external_body]
pub fn markdown_to_html(markdown: &str) -> (html_output: String)
    ensures
        html_output@ == markdown_html(markdown@),
{
    let options = Options::all();
    let parser = Parser::new_ext(markdown, options);
    let mut html_output = String::new();
    html::push_html(&mut html_output, parser);
    html_output
}

} // verus!
