//! The builder that configures a crawl from a URI.
use vstd::prelude::*;

use crate::config::{CrawlerConfigType, WebCrawlerConfig};

verus! {

/// Kinds of URIs that can be crawled.
#[derive(Debug, Clone)]
pub enum UriType {
    /// A web URL.
    Web(String),
    /// A Git repository.
    Git(String),
    /// A local filesystem path.
    Filesystem(String),
    /// An S3 bucket: its name and region.
    S3(String, String),
}

/// The default number of concurrent crawlers of a builder.
pub const DEFAULT_CONCURRENCY: usize = 4;

/// Builder for page generation from a URI.
pub struct Pages {
    uri_type: UriType,
    max_concurrency: usize,
    idle_timeout_secs: Option<u64>,
    total_timeout_secs: Option<u64>,
}

impl Pages {
    /// The URI to crawl.
    pub closed spec fn uri(&self) -> UriType {
        self.uri_type
    }

    /// The maximum number of concurrent crawlers.
    pub closed spec fn concurrency(&self) -> usize {
        self.max_concurrency
    }

    /// The idle timeout in seconds, if set.
    pub closed spec fn idle_timeout(&self) -> Option<u64> {
        self.idle_timeout_secs
    }

    /// The total timeout in seconds, if set.
    pub closed spec fn total_timeout(&self) -> Option<u64> {
        self.total_timeout_secs
    }

    /// A builder for `uri_type` with concurrency 4 and no timeouts.
    pub fn new(uri_type: UriType) -> (r: Self)
        ensures
            r.uri() == uri_type,
            r.concurrency() == 4,
            r.idle_timeout() is None,
            r.total_timeout() is None,
    {
        Pages {
            uri_type,
            max_concurrency: DEFAULT_CONCURRENCY,
            idle_timeout_secs: None,
            total_timeout_secs: None,
        }
    }

    /// Sets the maximum number of concurrent crawlers.
    pub fn with_max_concurrency(self, max_concurrency: usize) -> (r: Self)
        ensures
            r.uri() == self.uri(),
            r.concurrency() == max_concurrency,
            r.idle_timeout() == self.idle_timeout(),
            r.total_timeout() == self.total_timeout(),
    {
        Pages { max_concurrency, ..self }
    }

    /// Sets the idle timeout: the crawl stops when no page came for this long.
    pub fn with_idle_timeout(self, timeout_seconds: u64) -> (r: Self)
        ensures
            r.uri() == self.uri(),
            r.concurrency() == self.concurrency(),
            r.idle_timeout() == Some(timeout_seconds),
            r.total_timeout() == self.total_timeout(),
    {
        Pages { idle_timeout_secs: Some(timeout_seconds), ..self }
    }

    /// Sets the total timeout: the longest a crawl runs.
    pub fn with_total_timeout(self, timeout_seconds: u64) -> (r: Self)
        ensures
            r.uri() == self.uri(),
            r.concurrency() == self.concurrency(),
            r.idle_timeout() == self.idle_timeout(),
            r.total_timeout() == Some(timeout_seconds),
    {
        Pages { total_timeout_secs: Some(timeout_seconds), ..self }
    }

    /// Applies a configuration: a web configuration sets the concurrency;
    /// the other kinds set nothing yet.
    pub fn with_config(self, config: CrawlerConfigType) -> (r: Self)
        ensures
            r.uri() == self.uri(),
            r.concurrency() == (match config {
                CrawlerConfigType::Web(w) => w.max_concurrency,
                _ => self.concurrency(),
            }),
            r.idle_timeout() == self.idle_timeout(),
            r.total_timeout() == self.total_timeout(),
    {
        match config {
            CrawlerConfigType::Web(w) => Pages { max_concurrency: w.max_concurrency, ..self },
            _ => self,
        }
    }

    /// The URI to crawl.
    pub fn uri_type(&self) -> (r: &UriType)
        ensures
            *r == self.uri(),
    {
        &self.uri_type
    }

    /// The maximum number of concurrent crawlers.
    pub fn max_concurrency(&self) -> (r: usize)
        ensures
            r == self.concurrency(),
    {
        self.max_concurrency
    }

    /// The idle timeout in seconds, if set.
    pub fn idle_timeout_secs(&self) -> (r: Option<u64>)
        ensures
            r == self.idle_timeout(),
    {
        self.idle_timeout_secs
    }

    /// The total timeout in seconds, if set.
    pub fn total_timeout_secs(&self) -> (r: Option<u64>)
        ensures
            r == self.total_timeout(),
    {
        self.total_timeout_secs
    }

    /// The web crawler configuration the builder starts: for a web URI, the
    /// defaults for its URL with the builder's concurrency; `None` for kinds
    /// that have no crawler yet.
    pub fn web_config(&self) -> (r: Option<WebCrawlerConfig>)
        ensures
            match self.uri() {
                UriType::Web(u) => r is Some && r->Some_0.start_url@ == u@
                    && r->Some_0.max_concurrency == self.concurrency() && !r->Some_0.allow_external
                    && r->Some_0.include_patterns@.len() == 0
                    && r->Some_0.exclude_patterns@.len() == 0
                    && r->Some_0.webdriver_url@ == "http://localhost:4444"@,
                _ => r is None,
            },
    {
        match &self.uri_type {
            UriType::Web(u) => {
                let mut c = WebCrawlerConfig::new(u.as_str());
                c.max_concurrency = self.max_concurrency;
                Some(c)
            },
            _ => None,
        }
    }
}

} // verus!
