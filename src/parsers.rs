//! Content classification by URL, and extraction dispatched by kind.
pub mod html;
pub mod text;

use vstd::prelude::*;

use crate::parsers::html::{anchor_hrefs, html_text};
use crate::parsers::text::{default_options, parsed_text, TextParserOptions};
use crate::strs::{chars_of, contains_seq, ends_with, has_substring, has_suffix, string_views};

verus! {

/// The kinds of content a fetched resource can hold.
#[derive(Debug, Clone, Copy, PartialEq, Eq, Structural)]
pub enum ParserType {
    /// HTML, scanned for links.
    Html,
    /// Plain text (text files, YAML, page sources).
    Text,
    /// PDF, not parsed yet.
    Pdf,
    /// Media and web assets, read as plain text.
    Other,
}

/// The kind of content that a URL or file path names, by its ending.
pub open spec fn classify(u: Seq<char>) -> ParserType {
    if ends_with(u, ".txt"@) || ends_with(u, ".yaml"@) || ends_with(u, ".yml"@) {
        ParserType::Text
    } else if ends_with(u, ".pdf"@) {
        ParserType::Pdf
    } else if contains_seq(u, "/_sources/"@) {
        ParserType::Text
    } else if ends_with(u, ".jpg"@) || ends_with(u, ".jpeg"@) || ends_with(u, ".png"@) || ends_with(
        u,
        ".gif"@,
    ) || ends_with(u, ".css"@) || ends_with(u, ".js"@) {
        ParserType::Other
    } else {
        ParserType::Html
    }
}

impl ParserType {
    /// Determines the content kind from the URL or file path.
    pub fn from_url(url: &str) -> (r: ParserType)
        ensures
            r == classify(url@),
    {
        let u = chars_of(url);
        if has_suffix(&u, ".txt") || has_suffix(&u, ".yaml") || has_suffix(&u, ".yml") {
            ParserType::Text
        } else if has_suffix(&u, ".pdf") {
            ParserType::Pdf
        } else if has_substring(&u, "/_sources/") {
            ParserType::Text
        } else if has_suffix(&u, ".jpg") || has_suffix(&u, ".jpeg") || has_suffix(&u, ".png")
            || has_suffix(&u, ".gif") || has_suffix(&u, ".css") || has_suffix(&u, ".js") {
            ParserType::Other
        } else {
            ParserType::Html
        }
    }

    /// Whether content of this kind is scanned for links: only HTML is.
    pub fn should_extract_links(&self) -> (r: bool)
        ensures
            r == (*self == ParserType::Html),
    {
        match self {
            ParserType::Html => true,
            _ => false,
        }
    }
}

/// Result of parsing content.
pub struct ParseResult {
    /// Extracted text content.
    pub content: String,
    /// Extracted links, if any.
    pub links: Vec<String>,
}

impl ParseResult {
    /// A result with the given content and links.
    pub fn new(content: String, links: Vec<String>) -> (r: Self)
        ensures
            r.content == content,
            r.links == links,
    {
        ParseResult { content, links }
    }

    /// A result with content and no links.
    pub fn content_only(content: String) -> (r: Self)
        ensures
            r.content == content,
            r.links@.len() == 0,
    {
        ParseResult { content, links: Vec::new() }
    }
}

/// The text extracted from `content` of kind `k`, text kinds read with options `o`.
pub open spec fn extracted_text(content: Seq<char>, k: ParserType, o: TextParserOptions) -> Seq<
    char,
> {
    match k {
        ParserType::Html => html_text(content),
        ParserType::Text => parsed_text(content, o),
        ParserType::Pdf => "PDF parsing not implemented yet"@,
        ParserType::Other => parsed_text(content, o),
    }
}

/// The links extracted from `content` of kind `k`: only HTML has any.
pub open spec fn extracted_links(content: Seq<char>, k: ParserType) -> Seq<Seq<char>> {
    match k {
        ParserType::Html => anchor_hrefs(content),
        _ => Seq::empty(),
    }
}

/// Dispatches content to the extractor for its kind.
pub struct Parser;

impl Parser {
    /// Parses content of the given kind with the default text options.
    pub fn parse(content: &str, parser_type: ParserType) -> (r: ParseResult)
        ensures
            r.content@ == extracted_text(content@, parser_type, default_options()),
            string_views(r.links@) == extracted_links(content@, parser_type),
    {
        let options = TextParserOptions::default();
        Parser::parse_with_text_options(content, parser_type, &options)
    }

    /// Parses content of the given kind, text kinds with the given options.
    pub fn parse_with_text_options(
        content: &str,
        parser_type: ParserType,
        text_options: &TextParserOptions,
    ) -> (r: ParseResult)
        ensures
            r.content@ == extracted_text(content@, parser_type, *text_options),
            string_views(r.links@) == extracted_links(content@, parser_type),
    {
        match parser_type {
            ParserType::Html => html::parse(content),
            ParserType::Text => {
                let r = text::parse_with_options(content, text_options);
                assert(string_views(r.links@) =~= Seq::empty());
                r
            },
            ParserType::Pdf => {
                let r = ParseResult::content_only(String::from_str("PDF parsing not implemented yet"));
                assert(string_views(r.links@) =~= Seq::empty());
                r
            },
            ParserType::Other => {
                let r = text::parse_with_options(content, text_options);
                assert(string_views(r.links@) =~= Seq::empty());
                r
            },
        }
    }

    /// Classifies by URL, then parses with the default text options.
    pub fn parse_from_url(content: &str, url: &str) -> (r: ParseResult)
        ensures
            r.content@ == extracted_text(content@, classify(url@), default_options()),
            string_views(r.links@) == extracted_links(content@, classify(url@)),
    {
        let parser_type = ParserType::from_url(url);
        Parser::parse(content, parser_type)
    }

    /// Classifies by URL, then parses with the given text options.
    pub fn parse_from_url_with_text_options(
        content: &str,
        url: &str,
        text_options: &TextParserOptions,
    ) -> (r: ParseResult)
        ensures
            r.content@ == extracted_text(content@, classify(url@), *text_options),
            string_views(r.links@) == extracted_links(content@, classify(url@)),
    {
        let parser_type = ParserType::from_url(url);
        Parser::parse_with_text_options(content, parser_type, text_options)
    }
}

} // verus!
