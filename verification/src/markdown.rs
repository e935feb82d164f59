//! Markdown rendering. Turning markdown into HTML is pulldown-cmark's
//! work, behind a trusted wrapper; deriving plain text from it is ours.

use vstd::prelude::*;
use crate::doc::Doc;
use crate::doc::DocView;
use crate::html::strip_html;
use crate::html::strip_html_spec;
use crate::text;

verus! {

/// Stands for what pulldown-cmark renders from a markdown text: the HTML,
/// a function of the text alone.
pub uninterp spec fn markdown_html_of(s: Seq<char>) -> Seq<char>;

/// Relies on pulldown-cmark: `Parser::new` over the text, pushed through
/// `html::push_html`. The result depends on the text alone.
#[verifier::external_body]
pub fn render_markdown(markdown: &str) -> (r: String)
    ensures
        r@ == markdown_html_of(markdown@),
{
    let parser = pulldown_cmark::Parser::new(markdown);
    let mut html_output = String::new();
    pulldown_cmark::html::push_html(&mut html_output, parser);
    html_output
}

/// Markdown reduced to plain text: rendered to HTML, then every tag
/// stripped.
pub fn strip_markdown(markdown: &str) -> (r: String)
    ensures
        r@ == strip_html_spec(markdown_html_of(markdown@)),
{
    let html = render_markdown(markdown);
    strip_html(html.as_str())
}

/// What rendering does to a document: content becomes the rendered HTML,
/// an empty summary is derived from it, and the output path turns `.html`.
pub open spec fn render_markdown_spec(d: DocView) -> DocView {
    let html = markdown_html_of(d.content);
    let summary = if d.summary.len() == 0 {
        text::truncate_spec(strip_html_spec(html), 280, "…"@)
    } else {
        d.summary
    };
    DocView {
        content: html,
        summary: summary,
        output_path: crate::paths::set_extension_spec(d.output_path, "html"@),
        ..d
    }
}

impl Doc {
    /// Render the content as markdown, derive a summary where none is
    /// set, and point the output path at `.html`.
    pub fn render_markdown(self) -> (r: Self)
        ensures
            r@ == render_markdown_spec(self@),
    {
        let content = render_markdown(self.content.as_str());
        let r = self.set_content(content.as_str()).auto_summary().set_extension_html();
        proof {
            assert(r@ =~= render_markdown_spec(self@));
        }
        r
    }
}

} // verus!
