//! A concurrent web crawler's verified core: text extraction, URL scope
//! rules, and the decisions of the crawl engine.
pub mod args;
pub mod config;
pub mod crawl;
pub mod filter;
pub mod pages;
pub mod parsers;
pub mod results;
pub mod strs;
pub mod utils;

pub use pages::{Pages, UriType};
pub use results::PageData;
