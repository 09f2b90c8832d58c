//! Scope rules: which discovered URLs may be crawled, and the canonical
//! (fragment-free) form under which they are deduplicated.
use vstd::prelude::*;

use crate::strs::{chars_of, has_prefix, starts_with};

verus! {

#[verifier::external_type_specification]
#[verifier::external_body]
pub struct ExUrl(url::Url);

#[verifier::external_type_specification]
#[verifier::external_body]
pub struct ExUrlParseError(url::ParseError);

#[verifier::external_type_specification]
#[verifier::external_body]
pub struct ExRegex(regex::Regex);

#[verifier::external_type_specification]
#[verifier::external_body]
pub struct ExRegexError(regex::Error);

/// What the scope rules read of a URL.
pub struct UrlView {
    /// The whole serialized URL.
    pub href: Seq<char>,
    /// The host, where it is a domain name (not an IP address).
    pub domain: Option<Seq<char>>,
    /// The path component.
    pub path: Seq<char>,
}

/// What `url::Url::parse` makes of `s`: `None` where it fails.
pub uninterp spec fn parsed_url(s: Seq<char>) -> Option<UrlView>;

/// What `url::Url::join` makes of `link` against the URL serialized as
/// `base`: `None` where it fails.
pub uninterp spec fn joined_url(base: Seq<char>, link: Seq<char>) -> Option<UrlView>;

/// The URL serialized as `href` after `url::Url::set_fragment(None)`.
pub uninterp spec fn unfragmented(href: Seq<char>) -> UrlView;

/// Whether `regex::Regex::new` accepts `pattern`.
pub uninterp spec fn regex_compiles(pattern: Seq<char>) -> bool;

/// Whether the compiled `pattern` matches somewhere in `text`.
pub uninterp spec fn regex_finds(pattern: Seq<char>, text: Seq<char>) -> bool;

/// `href` up to its first `#`, where the fragment starts.
pub open spec fn before_fragment(href: Seq<char>) -> Seq<char>
    decreases href.len(),
{
    if href.len() == 0 {
        href
    } else if href[0] == '#' {
        Seq::empty()
    } else {
        seq![href[0]] + before_fragment(href.drop_first())
    }
}

/// A parsed absolute URL, with the parts the scope rules read.
#[derive(Debug)]
pub struct WebUrl {
    inner: url::Url,
    href: String,
    domain: Option<String>,
    path: String,
}

impl View for WebUrl {
    type V = UrlView;

    closed spec fn view(&self) -> UrlView {
        UrlView {
            href: self.href@,
            domain: match self.domain {
                Some(d) => Some(d@),
                None => None,
            },
            path: self.path@,
        }
    }
}

/// Relies on `url::Url::parse`, then reads `as_str`, `domain` and `path` of the result.
#[verifier::external_body]
fn parse_url(s: &str) -> (r: Result<WebUrl, url::ParseError>)
    ensures
        match r {
            Ok(u) => parsed_url(s@) == Some(u@),
            Err(_) => parsed_url(s@) is None,
        },
{
    url::Url::parse(s).map(
        |u| WebUrl {
            href: u.as_str().to_string(),
            domain: u.domain().map(|d| d.to_string()),
            path: u.path().to_string(),
            inner: u,
        },
    )
}

/// Relies on `url::Url::join`, then reads `as_str`, `domain` and `path` of the result.
#[verifier::external_body]
fn join_url(base: &WebUrl, link: &str) -> (r: Result<WebUrl, url::ParseError>)
    ensures
        match r {
            Ok(u) => joined_url(base@.href, link@) == Some(u@),
            Err(_) => joined_url(base@.href, link@) is None,
        },
{
    base.inner.join(link).map(
        |u| WebUrl {
            href: u.as_str().to_string(),
            domain: u.domain().map(|d| d.to_string()),
            path: u.path().to_string(),
            inner: u,
        },
    )
}

/// Relies on `url::Url::set_fragment(None)`, then reads `as_str`, `domain`
/// and `path` of the result. It truncates the serialization at the fragment
/// start, which is its first `#` (the parser percent-encodes `#` everywhere
/// else), and strips trailing spaces only from URLs that cannot be a base,
/// which have no host. So with a domain the result is the serialization up
/// to its first `#`; the domain stays; and with no fragment left a second
/// removal changes nothing.
#[verifier::external_body]
fn clear_fragment(u: &WebUrl) -> (r: WebUrl)
    ensures
        r@ == unfragmented(u@.href),
        unfragmented(r@.href) == r@,
        r@.domain == u@.domain,
        u@.domain is Some ==> r@.path == u@.path,
        u@.domain is Some ==> r@.href == before_fragment(u@.href),
{
    let mut v = u.inner.clone();
    v.set_fragment(None);
    WebUrl {
        href: v.as_str().to_string(),
        domain: v.domain().map(|d| d.to_string()),
        path: v.path().to_string(),
        inner: v,
    }
}

impl WebUrl {
    /// Parses an absolute URL.
    pub fn parse(s: &str) -> (r: Result<WebUrl, url::ParseError>)
        ensures
            match r {
                Ok(u) => parsed_url(s@) == Some(u@),
                Err(_) => parsed_url(s@) is None,
            },
    {
        parse_url(s)
    }

    /// Resolves `link` against this URL as a base.
    pub fn join(&self, link: &str) -> (r: Result<WebUrl, url::ParseError>)
        ensures
            match r {
                Ok(u) => joined_url(self@.href, link@) == Some(u@),
                Err(_) => joined_url(self@.href, link@) is None,
            },
    {
        join_url(self, link)
    }

    /// The whole serialized URL.
    pub fn as_str(&self) -> (r: &str)
        ensures
            r@ == self@.href,
    {
        self.href.as_str()
    }

    /// The host, where it is a domain name.
    pub fn domain(&self) -> (r: Option<&str>)
        ensures
            match r {
                Some(d) => self@.domain == Some(d@),
                None => self@.domain is None,
            },
    {
        match &self.domain {
            Some(d) => Some(d.as_str()),
            None => None,
        }
    }

    /// The path component.
    pub fn path(&self) -> (r: &str)
        ensures
            r@ == self@.path,
    {
        self.path.as_str()
    }
}

/// A compiled regular expression with the pattern it was compiled from.
pub struct Matcher {
    source: String,
    re: regex::Regex,
}

impl View for Matcher {
    type V = Seq<char>;

    closed spec fn view(&self) -> Seq<char> {
        self.source@
    }
}

/// Relies on `regex::Regex::new`: it compiles `pattern` or fails, by the
/// pattern alone. The pattern is kept beside the compiled form.
#[verifier::external_body]
fn compile(pattern: &str) -> (r: Result<Matcher, regex::Error>)
    ensures
        r is Ok <==> regex_compiles(pattern@),
        r matches Ok(m) ==> m@ == pattern@,
{
    regex::Regex::new(pattern).map(|re| Matcher { source: pattern.to_string(), re })
}

/// Relies on `regex::Regex::is_match`: whether the expression compiled from
/// the matcher's pattern matches somewhere in `text`.
#[verifier::external_body]
fn finds(m: &Matcher, text: &str) -> (r: bool)
    ensures
        r == regex_finds(m@, text@),
{
    m.re.is_match(text)
}

/// Configuration for URL filtering.
#[derive(Debug, Clone)]
pub struct UrlFilterConfig {
    /// Whether to allow crawling external domains.
    pub allow_external: bool,
    /// The one domain that may be crawled, if any.
    pub required_domain: Option<String>,
    /// The prefix every crawled path must start with, if any.
    pub required_path_prefix: Option<String>,
    /// Patterns of which one must match, where any are given.
    pub include_patterns: Vec<String>,
    /// Patterns of which none may match; they take precedence over includes.
    pub exclude_patterns: Vec<String>,
}

/// The exclusions a default configuration holds: static assets, and sources directories.
pub open spec fn default_excludes() -> Seq<Seq<char>> {
    seq!["\\.(jpg|jpeg|png|gif|css|js|ico|svg|woff|woff2|ttf|eot|pdf)$"@, "/_sources/"@]
}

/// The views of a vector of strings.
pub open spec fn patterns_of(v: Vec<String>) -> Seq<Seq<char>> {
    v@.map_values(|s: String| s@)
}

impl Default for UrlFilterConfig {
    fn default() -> (r: Self)
        ensures
            !r.allow_external,
            r.required_domain is None,
            r.required_path_prefix is None,
            r.include_patterns@.len() == 0,
            patterns_of(r.exclude_patterns) == default_excludes(),
    {
        let mut exclude_patterns: Vec<String> = Vec::new();
        exclude_patterns.push(
            String::from_str("\\.(jpg|jpeg|png|gif|css|js|ico|svg|woff|woff2|ttf|eot|pdf)$"),
        );
        exclude_patterns.push(String::from_str("/_sources/"));
        assert(patterns_of(exclude_patterns) =~= default_excludes());
        UrlFilterConfig {
            allow_external: false,
            required_domain: None,
            required_path_prefix: None,
            include_patterns: Vec::new(),
            exclude_patterns,
        }
    }
}

/// Whether the URL's domain is within the configured scope.
pub open spec fn in_domain_scope(c: UrlFilterConfig, u: UrlView) -> bool {
    if c.allow_external && c.required_domain is None {
        true
    } else {
        match c.required_domain {
            Some(d) => u.domain == Some(d@),
            None => false,
        }
    }
}

/// Whether the URL's path is within the configured scope.
pub open spec fn in_path_scope(c: UrlFilterConfig, u: UrlView) -> bool {
    match c.required_path_prefix {
        Some(p) => starts_with(u.path, p@),
        None => true,
    }
}

/// Whether some pattern of `ps` matches somewhere in `text`.
pub open spec fn any_finds(ps: Seq<Seq<char>>, text: Seq<char>) -> bool {
    exists|i: int| 0 <= i < ps.len() && regex_finds(#[trigger] ps[i], text)
}

/// Whether the rules of `c` let the URL be crawled.
pub open spec fn crawl_allowed(c: UrlFilterConfig, u: UrlView) -> bool {
    &&& in_domain_scope(c, u)
    &&& in_path_scope(c, u)
    &&& !any_finds(patterns_of(c.exclude_patterns), u.href)
    &&& (c.include_patterns@.len() == 0 || any_finds(patterns_of(c.include_patterns), u.href))
}

/// Whether every pattern of `ps` compiles.
pub open spec fn all_compile(ps: Seq<Seq<char>>) -> bool {
    forall|i: int| 0 <= i < ps.len() ==> regex_compiles(#[trigger] ps[i])
}

/// The patterns whose match keeps a resource from being scanned for links.
pub open spec fn no_parse_patterns() -> Seq<Seq<char>> {
    seq!["\\.txt$"@, "\\.ya?ml$"@, "/_sources/"@]
}

/// Whether some pattern of `ps` compiles and matches somewhere in `text`.
pub open spec fn any_compiled_finds(ps: Seq<Seq<char>>, text: Seq<char>) -> bool {
    exists|i: int| 0 <= i < ps.len() && regex_compiles(#[trigger] ps[i]) && regex_finds(ps[i], text)
}

/// URL filter: the scope rules with their patterns compiled.
pub struct UrlFilter {
    config: UrlFilterConfig,
    include_regexes: Vec<Matcher>,
    exclude_regexes: Vec<Matcher>,
}

/// The views of a vector of matchers.
pub open spec fn matcher_views(v: Seq<Matcher>) -> Seq<Seq<char>> {
    v.map_values(|m: Matcher| m@)
}

fn compile_all(patterns: &Vec<String>) -> (r: Result<Vec<Matcher>, regex::Error>)
    ensures
        r is Ok <==> all_compile(patterns_of(*patterns)),
        r matches Ok(ms) ==> matcher_views(ms@) == patterns_of(*patterns),
{
    let mut out: Vec<Matcher> = Vec::new();
    let mut i: usize = 0;
    while i < patterns.len()
        invariant
            i <= patterns.len(),
            matcher_views(out@) == patterns_of(*patterns).subrange(0, i as int),
            all_compile(patterns_of(*patterns).subrange(0, i as int)),
        decreases patterns.len() - i,
    {
        match compile(patterns[i].as_str()) {
            Ok(m) => {
                proof {
                    let ps = patterns_of(*patterns);
                    assert(ps.subrange(0, i + 1) =~= ps.subrange(0, i as int).push(ps[i as int]));
                    crate::strs::lemma_map_push(out@, m, |x: Matcher| x@);
                    assert forall|k: int| 0 <= k < i + 1 implies regex_compiles(
                        #[trigger] ps.subrange(0, i + 1)[k],
                    ) by {
                        if k < i {
                            assert(ps.subrange(0, i as int)[k] == ps.subrange(0, i + 1)[k]);
                        }
                    }
                }
                out.push(m);
            },
            Err(e) => {
                proof {
                    let ps = patterns_of(*patterns);
                    assert(!regex_compiles(ps[i as int]));
                }
                return Err(e);
            },
        }
        i += 1;
    }
    assert(patterns_of(*patterns).subrange(0, patterns.len() as int) =~= patterns_of(*patterns));
    Ok(out)
}

fn any_matcher_finds(ms: &Vec<Matcher>, text: &str) -> (r: bool)
    ensures
        r == any_finds(matcher_views(ms@), text@),
{
    let mut i: usize = 0;
    while i < ms.len()
        invariant
            i <= ms.len(),
            forall|k: int| 0 <= k < i ==> !regex_finds(#[trigger] matcher_views(ms@)[k], text@),
        decreases ms.len() - i,
    {
        if finds(&ms[i], text) {
            assert(regex_finds(matcher_views(ms@)[i as int], text@));
            return true;
        }
        i += 1;
    }
    false
}

impl UrlFilter {
    /// The configuration the filter was made from.
    pub closed spec fn config_view(&self) -> UrlFilterConfig {
        self.config
    }

    /// The compiled patterns are those of the configuration, in order.
    pub closed spec fn wf(&self) -> bool {
        &&& matcher_views(self.include_regexes@) == patterns_of(self.config.include_patterns)
        &&& matcher_views(self.exclude_regexes@) == patterns_of(self.config.exclude_patterns)
    }

    /// Compiles the configuration's patterns; fails when any does not compile.
    pub fn new(config: UrlFilterConfig) -> (r: Result<UrlFilter, regex::Error>)
        ensures
            r is Ok <==> (all_compile(patterns_of(config.include_patterns)) && all_compile(
                patterns_of(config.exclude_patterns),
            )),
            r matches Ok(f) ==> f.wf() && f.config_view() == config,
    {
        let include_regexes = match compile_all(&config.include_patterns) {
            Ok(v) => v,
            Err(e) => return Err(e),
        };
        let exclude_regexes = match compile_all(&config.exclude_patterns) {
            Ok(v) => v,
            Err(e) => return Err(e),
        };
        Ok(UrlFilter { config, include_regexes, exclude_regexes })
    }

    /// The same as `new`.
    pub fn with_config(config: UrlFilterConfig) -> (r: Result<UrlFilter, regex::Error>)
        ensures
            r is Ok <==> (all_compile(patterns_of(config.include_patterns)) && all_compile(
                patterns_of(config.exclude_patterns),
            )),
            r matches Ok(f) ==> f.wf() && f.config_view() == config,
    {
        UrlFilter::new(config)
    }

    /// Whether the URL may be crawled: domain scope, path scope, no exclude
    /// pattern matching, and an include pattern matching where any are given.
    pub fn should_crawl(&self, url: &WebUrl, _base_url: Option<&WebUrl>) -> (r: bool)
        requires
            self.wf(),
        ensures
            r == crawl_allowed(self.config_view(), url@),
    {
        if !self.is_in_domain_scope(url) {
            return false;
        }
        if !self.is_in_path_scope(url) {
            return false;
        }
        let text = url.as_str();
        assert(self.include_regexes@.len() == self.config.include_patterns@.len()) by {
            assert(matcher_views(self.include_regexes@).len() == self.include_regexes@.len());
            assert(patterns_of(self.config.include_patterns).len()
                == self.config.include_patterns@.len());
        }
        if any_matcher_finds(&self.exclude_regexes, text) {
            return false;
        }
        if self.include_regexes.len() > 0 {
            if !any_matcher_finds(&self.include_regexes, text) {
                return false;
            }
        }
        true
    }

    /// Whether a fetched resource should be scanned for links: not when a
    /// text-file, YAML or sources pattern matches its URL.
    pub fn should_parse_links(&self, url: &WebUrl) -> (r: bool)
        ensures
            r == !any_compiled_finds(no_parse_patterns(), url@.href),
    {
        let mut patterns: Vec<&str> = Vec::new();
        patterns.push("\\.txt$");
        patterns.push("\\.ya?ml$");
        patterns.push("/_sources/");
        let ghost ps = no_parse_patterns();
        assert(patterns@.map_values(|p: &str| p@) =~= ps);
        let text = url.as_str();
        let mut i: usize = 0;
        while i < patterns.len()
            invariant
                i <= patterns.len(),
                patterns@.map_values(|p: &str| p@) == ps,
                ps == no_parse_patterns(),
                text@ == url@.href,
                forall|k: int|
                    0 <= k < i ==> !(regex_compiles(#[trigger] ps[k]) && regex_finds(ps[k], text@)),
            decreases patterns.len() - i,
        {
            assert(patterns@[i as int]@ == ps[i as int]);
            match compile(patterns[i]) {
                Ok(m) => {
                    if finds(&m, text) {
                        assert(regex_compiles(ps[i as int]) && regex_finds(ps[i as int], url@.href));
                        assert(any_compiled_finds(ps, url@.href));
                        return false;
                    }
                },
                Err(_) => {},
            }
            i += 1;
        }
        true
    }

    fn is_in_domain_scope(&self, url: &WebUrl) -> (r: bool)
        ensures
            r == in_domain_scope(self.config_view(), url@),
    {
        if self.config.allow_external && self.config.required_domain.is_none() {
            return true;
        }
        match &self.config.required_domain {
            Some(required) => match url.domain() {
                Some(d) => {
                    let a = chars_of(d);
                    let b = chars_of(required.as_str());
                    let eq = same_chars(&a, &b);
                    eq
                },
                None => false,
            },
            None => false,
        }
    }

    fn is_in_path_scope(&self, url: &WebUrl) -> (r: bool)
        ensures
            r == in_path_scope(self.config_view(), url@),
    {
        match &self.config.required_path_prefix {
            Some(prefix) => {
                let p = chars_of(url.path());
                let q = chars_of(prefix.as_str());
                has_prefix(&p, &q)
            },
            None => true,
        }
    }

    /// The URL without its fragment: the key under which URLs are deduplicated.
    pub fn normalize_url(&self, url: &WebUrl) -> (r: WebUrl)
        ensures
            r@ == unfragmented(url@.href),
            unfragmented(r@.href) == r@,
            r@.domain == url@.domain,
            url@.domain is Some ==> r@.path == url@.path,
            url@.domain is Some ==> r@.href == before_fragment(url@.href),
    {
        clear_fragment(url)
    }
}

/// Whether two character sequences are equal.
pub fn same_chars(a: &Vec<char>, b: &Vec<char>) -> (r: bool)
    ensures
        r == (a@ == b@),
{
    if a.len() != b.len() {
        return false;
    }
    let mut i: usize = 0;
    while i < a.len()
        invariant
            a.len() == b.len(),
            i <= a.len(),
            a@.subrange(0, i as int) == b@.subrange(0, i as int),
        decreases a.len() - i,
    {
        if a[i] != b[i] {
            return false;
        }
        i += 1;
        assert(a@.subrange(0, i as int) =~= b@.subrange(0, i as int)) by {
            assert(a@.subrange(0, i - 1) == b@.subrange(0, i - 1));
            assert forall|k: int| 0 <= k < i implies a@.subrange(0, i as int)[k] == b@.subrange(
                0,
                i as int,
            )[k] by {
                if k < i - 1 {
                    assert(a@.subrange(0, i - 1)[k] == b@.subrange(0, i - 1)[k]);
                }
            }
        }
    }
    assert(a@ =~= a@.subrange(0, a.len() as int));
    assert(b@ =~= b@.subrange(0, b.len() as int));
    true
}

/// A URL allowed while external domains are disallowed and a domain is
/// required lies in that very domain (no subdomains).
pub proof fn lemma_scope_containment(c: UrlFilterConfig, u: UrlView, d: String)
    requires
        !c.allow_external,
        c.required_domain == Some(d),
        crawl_allowed(c, u),
    ensures
        u.domain == Some(d@),
{
}

/// With external domains disallowed and no domain recorded, nothing is allowed.
pub proof fn lemma_no_domain_no_crawl(c: UrlFilterConfig, u: UrlView)
    requires
        !c.allow_external,
        c.required_domain is None,
    ensures
        !crawl_allowed(c, u),
{
}

/// A URL allowed under a required path prefix has a path that starts with it.
pub proof fn lemma_path_containment(c: UrlFilterConfig, u: UrlView, p: String)
    requires
        c.required_path_prefix == Some(p),
        crawl_allowed(c, u),
    ensures
        starts_with(u.path, p@),
{
}

/// A URL that matches an exclude pattern is never allowed, whatever include
/// patterns it matches.
pub proof fn lemma_exclude_precedence(c: UrlFilterConfig, u: UrlView, i: int)
    requires
        0 <= i < c.exclude_patterns@.len(),
        regex_finds(c.exclude_patterns@[i]@, u.href),
    ensures
        !crawl_allowed(c, u),
{
    assert(patterns_of(c.exclude_patterns)[i] == c.exclude_patterns@[i]@);
}

/// Two URLs that differ only in their fragment (`p` and `p#f`) have the
/// same text before the fragment, so with a domain they normalize to the
/// same key.
pub proof fn lemma_fragment_ignored(p: Seq<char>, f: Seq<char>)
    requires
        forall|i: int| 0 <= i < p.len() ==> p[i] != '#',
    ensures
        before_fragment(p + seq!['#'] + f) == p,
        before_fragment(p) == p,
    decreases p.len(),
{
    if p.len() > 0 {
        lemma_fragment_ignored(p.drop_first(), f);
        assert((p + seq!['#'] + f).drop_first() =~= p.drop_first() + seq!['#'] + f);
        assert(seq![p[0]] + p.drop_first() =~= p);
    } else {
        assert(p + seq!['#'] + f =~= seq!['#'] + f);
    }
}

} // verus!
