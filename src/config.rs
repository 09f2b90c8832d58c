//! Crawler configuration, as plain values.
use vstd::prelude::*;

use crate::strs::string_views;

verus! {

/// Configuration for the web crawler.
#[derive(Debug, Clone)]
pub struct WebCrawlerConfig {
    /// URL to start crawling from.
    pub start_url: String,
    /// Maximum number of concurrent fetches, and of workers.
    pub max_concurrency: usize,
    /// Whether to allow crawling external domains.
    pub allow_external: bool,
    /// Patterns for URLs to include.
    pub include_patterns: Vec<String>,
    /// Patterns for URLs to exclude.
    pub exclude_patterns: Vec<String>,
    /// Address of the remote rendering (WebDriver) endpoint.
    pub webdriver_url: String,
}

/// Configuration for a Git repository crawler.
#[derive(Debug, Clone)]
pub struct GitCrawlerConfig {
    /// Repository URL.
    pub repo_url: String,
    /// Branch to read.
    pub branch: String,
    /// Patterns to include.
    pub include_patterns: Vec<String>,
    /// Patterns to exclude.
    pub exclude_patterns: Vec<String>,
}

/// Configuration for a filesystem crawler.
#[derive(Debug, Clone)]
pub struct FilesystemCrawlerConfig {
    /// Root directory.
    pub root_dir: String,
    /// Maximum recursion depth.
    pub max_depth: usize,
    /// File patterns to include.
    pub include_patterns: Vec<String>,
    /// File patterns to exclude.
    pub exclude_patterns: Vec<String>,
}

/// Configuration for an S3 crawler.
#[derive(Debug, Clone)]
pub struct S3CrawlerConfig {
    /// Bucket name.
    pub bucket: String,
    /// Region.
    pub region: String,
    /// Key prefix.
    pub prefix: String,
    /// File patterns to include.
    pub include_patterns: Vec<String>,
    /// File patterns to exclude.
    pub exclude_patterns: Vec<String>,
}

/// A crawler configuration of any kind.
#[derive(Debug, Clone)]
pub enum CrawlerConfigType {
    /// Web crawler configuration.
    Web(WebCrawlerConfig),
    /// Git crawler configuration.
    Git(GitCrawlerConfig),
    /// Filesystem crawler configuration.
    Filesystem(FilesystemCrawlerConfig),
    /// S3 crawler configuration.
    S3(S3CrawlerConfig),
}

/// The default maximum concurrency of a web configuration.
pub fn default_max_concurrency() -> (r: usize)
    ensures
        r == 5,
{
    5
}

/// The default WebDriver address.
pub fn default_webdriver_url() -> (r: String)
    ensures
        r@ == "http://localhost:4444"@,
{
    String::from_str("http://localhost:4444")
}

/// The default Git branch.
pub fn default_git_branch() -> (r: String)
    ensures
        r@ == "main"@,
{
    String::from_str("main")
}

/// The default recursion depth of a filesystem crawl.
pub fn default_max_depth() -> (r: usize)
    ensures
        r == 10,
{
    10
}

impl WebCrawlerConfig {
    /// A configuration for `start_url` with default values: concurrency 5,
    /// external domains disallowed, no patterns, the local WebDriver address.
    pub fn new(start_url: &str) -> (r: Self)
        ensures
            r.start_url@ == start_url@,
            r.max_concurrency == 5,
            !r.allow_external,
            r.include_patterns@.len() == 0,
            r.exclude_patterns@.len() == 0,
            r.webdriver_url@ == "http://localhost:4444"@,
    {
        WebCrawlerConfig {
            start_url: String::from_str(start_url),
            max_concurrency: default_max_concurrency(),
            allow_external: false,
            include_patterns: Vec::new(),
            exclude_patterns: Vec::new(),
            webdriver_url: default_webdriver_url(),
        }
    }

    /// Replaces the WebDriver address with `value` where one is given and it
    /// is not empty (the caller reads it from the environment).
    pub fn apply_webdriver_override(&mut self, value: Option<String>)
        ensures
            final(self).start_url == old(self).start_url,
            final(self).max_concurrency == old(self).max_concurrency,
            final(self).allow_external == old(self).allow_external,
            final(self).include_patterns == old(self).include_patterns,
            final(self).exclude_patterns == old(self).exclude_patterns,
            match value {
                Some(v) => v@.len() > 0 ==> final(self).webdriver_url == v,
                None => true,
            },
            (value is None || value->Some_0@.len() == 0) ==> final(self).webdriver_url == old(
                self).webdriver_url,
    {
        match value {
            Some(v) => {
                if !v.as_str().is_empty() {
                    self.webdriver_url = v;
                }
            },
            None => {},
        }
    }
}

/// A copy of each string.
pub fn copy_strings(v: &Vec<String>) -> (r: Vec<String>)
    ensures
        string_views(r@) == string_views(v@),
{
    let mut out: Vec<String> = Vec::new();
    let mut i: usize = 0;
    while i < v.len()
        invariant
            i <= v.len(),
            string_views(out@) == string_views(v@.subrange(0, i as int)),
        decreases v.len() - i,
    {
        let s = v[i].clone();
        proof {
            crate::strs::lemma_string_views_push(out@, s);
            crate::strs::lemma_string_views_push(v@.subrange(0, i as int), v@[i as int]);
            assert(v@.subrange(0, i + 1) =~= v@.subrange(0, i as int).push(v@[i as int]));
        }
        out.push(s);
        i += 1;
    }
    assert(v@.subrange(0, v.len() as int) =~= v@);
    out
}

} // verus!
