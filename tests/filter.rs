use yield_page::filter::{UrlFilter, UrlFilterConfig, WebUrl};

#[test]
fn test_default_filter() {
    let filter = UrlFilter::new(UrlFilterConfig::default()).unwrap();

    // Common file types should be excluded
    let image_url = WebUrl::parse("https://example.com/image.jpg").unwrap();
    assert!(!filter.should_crawl(&image_url, None));

    // HTML files are rejected under the default allow_external: false
    let html_url = WebUrl::parse("https://example.com/page.html").unwrap();
    let result = filter.should_crawl(&html_url, None);
    assert!(
        !result,
        "HTML URL should be rejected with default settings due to external domain"
    );

    let config = UrlFilterConfig {
        allow_external: true,
        required_domain: None,
        required_path_prefix: None,
        include_patterns: vec![],
        exclude_patterns: vec![
            r"\.(jpg|jpeg|png|gif|css|js|ico|svg|woff|woff2|ttf|eot|pdf)$".to_string(),
            r"/_sources/".to_string(),
        ],
    };
    let filter_allowing_external = UrlFilter::new(config).unwrap();
    assert!(filter_allowing_external.should_crawl(&html_url, None));
}

#[test]
fn test_domain_restriction() {
    let config = UrlFilterConfig {
        allow_external: false,
        required_domain: Some("example.com".to_string()),
        required_path_prefix: None,
        include_patterns: vec![],
        exclude_patterns: vec![],
    };
    let filter = UrlFilter::new(config).unwrap();

    let correct_domain = WebUrl::parse("https://example.com/page").unwrap();
    assert!(filter.should_crawl(&correct_domain, None));

    let wrong_domain = WebUrl::parse("https://other.com/page").unwrap();
    assert!(!filter.should_crawl(&wrong_domain, None));
}

#[test]
fn test_path_restriction() {
    let config = UrlFilterConfig {
        allow_external: true,
        required_domain: None,
        required_path_prefix: Some("/docs".to_string()),
        include_patterns: vec![],
        exclude_patterns: vec![],
    };
    let filter = UrlFilter::new(config).unwrap();

    let correct_path = WebUrl::parse("https://example.com/docs/page").unwrap();
    assert!(filter.should_crawl(&correct_path, None));

    let wrong_path = WebUrl::parse("https://example.com/blog/post").unwrap();
    assert!(!filter.should_crawl(&wrong_path, None));
}

#[test]
fn test_regex_patterns() {
    let config = UrlFilterConfig {
        allow_external: true,
        required_domain: None,
        required_path_prefix: None,
        include_patterns: vec![r"/docs/.*\.html$".to_string()],
        exclude_patterns: vec![r"/docs/draft/".to_string()],
    };
    let filter = UrlFilter::new(config).unwrap();

    let included = WebUrl::parse("https://example.com/docs/page.html").unwrap();
    assert!(filter.should_crawl(&included, None));

    let not_included = WebUrl::parse("https://example.com/docs/page.txt").unwrap();
    assert!(!filter.should_crawl(&not_included, None));

    let excluded = WebUrl::parse("https://example.com/docs/draft/page.html").unwrap();
    assert!(!filter.should_crawl(&excluded, None));
}

#[test]
fn test_should_parse_links() {
    let filter = UrlFilter::new(UrlFilterConfig::default()).unwrap();

    let text_url = WebUrl::parse("https://example.com/document.txt").unwrap();
    assert!(!filter.should_parse_links(&text_url));

    let yaml_url = WebUrl::parse("https://example.com/config.yaml").unwrap();
    assert!(!filter.should_parse_links(&yaml_url));

    let html_url = WebUrl::parse("https://example.com/page.html").unwrap();
    assert!(filter.should_parse_links(&html_url));
}

#[test]
fn subdomain_is_outside_required_domain() {
    let config = UrlFilterConfig {
        allow_external: false,
        required_domain: Some("example.com".to_string()),
        required_path_prefix: None,
        include_patterns: vec![],
        exclude_patterns: vec![],
    };
    let filter = UrlFilter::new(config).unwrap();
    let sub = WebUrl::parse("https://docs.example.com/page").unwrap();
    assert!(!filter.should_crawl(&sub, None));
}

#[test]
fn no_required_domain_rejects_everything_when_external_disallowed() {
    let config = UrlFilterConfig {
        allow_external: false,
        required_domain: None,
        required_path_prefix: None,
        include_patterns: vec![],
        exclude_patterns: vec![],
    };
    let filter = UrlFilter::new(config).unwrap();
    let u = WebUrl::parse("https://example.com/page").unwrap();
    assert!(!filter.should_crawl(&u, None));
}

#[test]
fn ip_host_has_no_domain() {
    let config = UrlFilterConfig {
        allow_external: false,
        required_domain: Some("127.0.0.1".to_string()),
        required_path_prefix: None,
        include_patterns: vec![],
        exclude_patterns: vec![],
    };
    let filter = UrlFilter::new(config).unwrap();
    let u = WebUrl::parse("http://127.0.0.1/page").unwrap();
    assert_eq!(u.domain(), None);
    assert!(!filter.should_crawl(&u, None));
}

#[test]
fn path_prefix_is_a_raw_string_prefix() {
    let config = UrlFilterConfig {
        allow_external: true,
        required_domain: None,
        required_path_prefix: Some("/docs".to_string()),
        include_patterns: vec![],
        exclude_patterns: vec![],
    };
    let filter = UrlFilter::new(config).unwrap();
    let u = WebUrl::parse("https://example.com/docsextra/page").unwrap();
    assert!(filter.should_crawl(&u, None));
}

#[test]
fn exclude_beats_include_scenario() {
    let config = UrlFilterConfig {
        allow_external: true,
        required_domain: None,
        required_path_prefix: None,
        include_patterns: vec![r"/docs/.*\.html$".to_string()],
        exclude_patterns: vec![r"/docs/draft/".to_string()],
    };
    let filter = UrlFilter::new(config).unwrap();
    let rejected = WebUrl::parse("https://example.com/docs/draft/page.html").unwrap();
    let accepted = WebUrl::parse("https://example.com/docs/page.html").unwrap();
    assert!(!filter.should_crawl(&rejected, None));
    assert!(filter.should_crawl(&accepted, None));
}

#[test]
fn invalid_pattern_is_refused() {
    let config = UrlFilterConfig {
        allow_external: true,
        required_domain: None,
        required_path_prefix: None,
        include_patterns: vec!["(".to_string()],
        exclude_patterns: vec![],
    };
    assert!(UrlFilter::new(config).is_err());
    let config = UrlFilterConfig {
        allow_external: true,
        required_domain: None,
        required_path_prefix: None,
        include_patterns: vec![],
        exclude_patterns: vec!["[".to_string()],
    };
    assert!(UrlFilter::with_config(config).is_err());
}

#[test]
fn normalize_strips_fragment_and_is_idempotent() {
    let filter = UrlFilter::new(UrlFilterConfig::default()).unwrap();
    let u = WebUrl::parse("https://example.com/page?q=1#section").unwrap();
    let once = filter.normalize_url(&u);
    assert_eq!(once.as_str(), "https://example.com/page?q=1");
    let twice = filter.normalize_url(&once);
    assert_eq!(twice.as_str(), once.as_str());
    let other = WebUrl::parse("https://example.com/page?q=1#other").unwrap();
    assert_eq!(filter.normalize_url(&other).as_str(), once.as_str());
    assert_eq!(once.domain(), Some("example.com"));
    assert_eq!(once.path(), "/page");
}

#[test]
fn url_parse_and_join() {
    assert!(WebUrl::parse("not a url").is_err());
    let base = WebUrl::parse("https://example.com/docs/index.html").unwrap();
    let joined = base.join("guide.html").unwrap();
    assert_eq!(joined.as_str(), "https://example.com/docs/guide.html");
    let abs = base.join("/top").unwrap();
    assert_eq!(abs.as_str(), "https://example.com/top");
    assert_eq!(abs.path(), "/top");
}
