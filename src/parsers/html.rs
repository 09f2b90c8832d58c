//! HTML extraction: the visible text under `<body>` and the targets of `<a>` links.
use vstd::prelude::*;

use crate::parsers::ParseResult;
use crate::strs::{
    lemma_char_views_push, lemma_string_views_push, chars_of, char_views, collapse_chars, collapse_ws, join, join_chars, string_of, string_views,
};

verus! {

/// The text nodes under the document's `<body>`, in document order, as
/// scraper reads them.
pub uninterp spec fn body_text_nodes(html: Seq<char>) -> Seq<Seq<char>>;

/// The `href` values of the document's `<a>` elements that have one, in
/// document order, as scraper reads them.
pub uninterp spec fn anchor_hrefs(html: Seq<char>) -> Seq<Seq<char>>;

/// Relies on scraper's `Html::parse_document`, `Selector::parse` and
/// `ElementRef::text`: the text nodes under each `body` element. The
/// selector `body` is valid, so the `unwrap` does not fail.
#[verifier::external_body]
fn body_texts(html: &str) -> (r: Vec<String>)
    ensures
        string_views(r@) == body_text_nodes(html@),
{
    let doc = scraper::Html::parse_document(html);
    let sel = scraper::Selector::parse("body").unwrap();
    doc.select(&sel).flat_map(|n| n.text()).map(|t| t.to_string()).collect()
}

/// Relies on scraper's `Html::parse_document`, `Selector::parse` and
/// `ElementRef::attr`: the `href` of each `a` element that has one. The
/// selector `a` is valid, so the `unwrap` does not fail.
#[verifier::external_body]
fn link_targets(html: &str) -> (r: Vec<String>)
    ensures
        string_views(r@) == anchor_hrefs(html@),
{
    let doc = scraper::Html::parse_document(html);
    let sel = scraper::Selector::parse("a").unwrap();
    doc.select(&sel).filter_map(|e| e.attr("href")).map(|s| s.to_string()).collect()
}

/// The page text of an HTML document: its body's text nodes joined by
/// spaces, with whitespace collapsed.
pub open spec fn html_text(html: Seq<char>) -> Seq<char> {
    collapse_ws(join(body_text_nodes(html), seq![' ']))
}

fn body_text(html: &str) -> (r: String)
    ensures
        r@ == html_text(html@),
{
    let texts = body_texts(html);
    let mut parts: Vec<Vec<char>> = Vec::new();
    let mut i: usize = 0;
    while i < texts.len()
        invariant
            i <= texts.len(),
            char_views(parts@) == string_views(texts@.subrange(0, i as int)),
        decreases texts.len() - i,
    {
        let cs = chars_of(texts[i].as_str());
        proof {
            lemma_char_views_push(parts@, cs);
            lemma_string_views_push(texts@.subrange(0, i as int), texts@[i as int]);
            assert(texts@.subrange(0, i + 1) =~= texts@.subrange(0, i as int).push(texts@[i as int]));
        }
        parts.push(cs);
        i += 1;
    }
    assert(texts@.subrange(0, texts.len() as int) =~= texts@);
    let mut sep: Vec<char> = Vec::new();
    sep.push(' ');
    assert(sep@ =~= seq![' ']);
    let joined = join_chars(&parts, &sep);
    let collapsed = collapse_chars(&joined);
    string_of(&collapsed)
}

/// Parses HTML content into its text and its links.
pub fn parse(html: &str) -> (r: ParseResult)
    ensures
        r.content@ == html_text(html@),
        string_views(r.links@) == anchor_hrefs(html@),
{
    let text = body_text(html);
    let links = link_targets(html);
    ParseResult::new(text, links)
}

/// Parses HTML content for its text only.
pub fn parse_text_only(html: &str) -> (r: ParseResult)
    ensures
        r.content@ == html_text(html@),
        r.links@.len() == 0,
{
    ParseResult::content_only(body_text(html))
}

/// Parses HTML content for its links only.
pub fn parse_links_only(html: &str) -> (r: Vec<String>)
    ensures
        string_views(r@) == anchor_hrefs(html@),
{
    link_targets(html)
}

} // verus!
