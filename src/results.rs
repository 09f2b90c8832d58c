//! The record emitted for each fetched page.
use vstd::prelude::*;

verus! {

/// A fetched page: its URL, title, extracted text and outbound links.
#[derive(Debug, Clone)]
pub struct PageData {
    /// URL of the page.
    pub url: String,
    /// Title of the page, if known.
    pub title: Option<String>,
    /// Extracted text content.
    pub content: String,
    /// Links found on the page, as written there.
    pub links: Vec<String>,
}

impl PageData {
    /// A page record of the given parts.
    pub fn new(url: String, title: Option<String>, content: String, links: Vec<String>) -> (r: Self)
        ensures
            r.url == url,
            r.title == title,
            r.content == content,
            r.links == links,
    {
        PageData { url, title, content, links }
    }
}

} // verus!
