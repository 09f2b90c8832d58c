use yield_page::args::{convert_uri_type, Args, UriTypeArg};
use yield_page::config::{default_max_concurrency, default_webdriver_url, CrawlerConfigType, WebCrawlerConfig};
use yield_page::crawl::{
    connection_candidates, create_url_filter, dequeue_timeout_secs, discover_links, page_record,
    scope_rules, session_lost, Coordinator, FailureAction, Frontier, Offer, RetryPolicy, Throttle,
    Worker, WorkerStep, FRONTIER_CAPACITY,
};
use yield_page::filter::WebUrl;
use yield_page::utils::{calculate_timeout, sanitize_filename};
use yield_page::{Pages, UriType};

#[test]
fn frontier_claims_each_url_once() {
    let mut f = Frontier::new(FRONTIER_CAPACITY);
    assert_eq!(f.offer("https://example.com/".to_string()), Offer::Queued);
    // the enqueue gate records the URL: a repeated link is not queued again
    assert_eq!(f.offer("https://example.com/".to_string()), Offer::AlreadyVisited);
    assert_eq!(f.offer("https://example.com/a".to_string()), Offer::Queued);
    assert_eq!(f.pending_len(), 2);
    assert!(f.is_visited(&"https://example.com/a".to_string()));
    assert_eq!(f.next_claimed(), Some("https://example.com/".to_string()));
    assert_eq!(f.next_claimed(), Some("https://example.com/a".to_string()));
    assert_eq!(f.next_claimed(), None);
    assert_eq!(f.offer("https://example.com/a".to_string()), Offer::AlreadyVisited);
    assert_eq!(f.offer("https://example.com/".to_string()), Offer::AlreadyVisited);
    assert_eq!(f.pending_len(), 0);
}

#[test]
fn frontier_full_refuses_without_change() {
    let mut f = Frontier::new(1);
    assert_eq!(f.offer("a".to_string()), Offer::Queued);
    assert_eq!(f.offer("b".to_string()), Offer::Full);
    assert!(!f.is_visited(&"b".to_string()));
    assert_eq!(f.pending_len(), 1);
    assert_eq!(f.next_claimed(), Some("a".to_string()));
    assert_eq!(f.offer("b".to_string()), Offer::Queued);
    assert_eq!(f.next_claimed(), Some("b".to_string()));
    assert_eq!(f.next_claimed(), None);
}

#[test]
fn throttle_bounds_in_flight_fetches() {
    let mut t = Throttle::new(2);
    assert!(t.try_acquire());
    assert!(t.try_acquire());
    assert!(!t.try_acquire());
    t.release();
    assert!(t.is_busy());
    assert!(t.try_acquire());
    t.release();
    t.release();
    assert!(!t.is_busy());
    let mut none = Throttle::new(0);
    assert!(!none.try_acquire());
}

#[test]
fn lost_session_reconnects_once_then_abandons() {
    let mut p = RetryPolicy::new();
    assert_eq!(p.on_failure(true), FailureAction::Reconnect);
    assert_eq!(p.on_failure(true), FailureAction::Abandon);
    assert_eq!(p.on_failure(true), FailureAction::Abandon);
    let mut q = RetryPolicy::new();
    assert_eq!(q.on_failure(false), FailureAction::Abandon);
}

#[test]
fn session_loss_signature() {
    assert!(session_lost("invalid session id: Unable to find session with ID 42"));
    assert!(!session_lost("timeout while waiting for page"));
    assert!(!session_lost(""));
}

#[test]
fn fallback_endpoints_skip_the_primary() {
    let c = connection_candidates("http://localhost:4444");
    assert_eq!(
        c,
        vec![
            "http://localhost:4444",
            "http://localhost:9515",
            "http://localhost:4723",
            "http://localhost:9222",
            "http://127.0.0.1:4444",
        ]
    );
    let c = connection_candidates("http://localhost:9515");
    assert_eq!(
        c,
        vec![
            "http://localhost:9515",
            "http://localhost:4723",
            "http://localhost:9222",
            "http://127.0.0.1:4444",
        ]
    );
}

#[test]
fn dequeue_timeouts_shrink_with_worker_index() {
    let got: Vec<u64> = (0..7).map(dequeue_timeout_secs).collect();
    assert_eq!(got, vec![5, 4, 3, 2, 1, 1, 1]);
}

#[test]
fn worker_connects_lazily_and_closes_once() {
    let mut w = Worker::new();
    assert!(!w.holds_session());
    assert_eq!(w.on_claimed(), WorkerStep::Connect);
    assert_eq!(w.on_connected(true), WorkerStep::Fetch);
    assert_eq!(w.on_fetched(true), WorkerStep::Emit);
    assert_eq!(w.on_emitted(true), WorkerStep::Dequeue);
    assert_eq!(w.on_claimed(), WorkerStep::Fetch);
    assert_eq!(w.on_fetched(false), WorkerStep::Dequeue);
    assert_eq!(w.on_idle(), WorkerStep::CloseAndStop);
    assert!(!w.holds_session());

    let mut idle = Worker::new();
    assert_eq!(idle.on_idle(), WorkerStep::Stop);

    assert!(!w.ended_by_failure());

    let mut failed = Worker::new();
    assert_eq!(failed.on_claimed(), WorkerStep::Connect);
    assert_eq!(failed.on_connected(false), WorkerStep::Dequeue);
    assert_eq!(failed.on_claimed(), WorkerStep::Connect);
}

#[test]
fn emission_failure_ends_the_worker() {
    let mut w = Worker::new();
    w.on_claimed();
    w.on_connected(true);
    w.on_fetched(true);
    assert_eq!(w.on_emitted(false), WorkerStep::CloseAndStop);
    assert!(w.ended_by_failure());
}

#[test]
fn coordinator_closes_output_after_last_worker() {
    let mut c = Coordinator::new(4);
    assert!(c.is_output_open());
    assert!(!c.worker_finished());
    assert!(!c.worker_finished());
    assert!(!c.worker_finished());
    assert!(c.is_output_open());
    assert!(c.worker_finished());
    assert!(!c.is_output_open());
    let none = Coordinator::new(0);
    assert!(!none.is_output_open());
}

#[test]
fn zero_link_seed_shuts_down_early() {
    let root = WebUrl::parse("https://example.com/").unwrap();
    let filter = create_url_filter(&root, &WebCrawlerConfig::new("https://example.com/")).unwrap();
    let mut frontier = Frontier::new(FRONTIER_CAPACITY);
    assert_eq!(frontier.offer(filter.normalize_url(&root).as_str().to_string()), Offer::Queued);
    let seed = frontier.next_claimed().unwrap();
    let record = page_record(&seed, "<html><body><p>Only text</p></body></html>");
    assert!(record.links.is_empty());
    assert!(discover_links(&filter, &seed, &record.links).is_empty());
    // the seed is emitted, but queued nothing: the grace period ends the crawl
    let mut c = Coordinator::new(4);
    c.page_emitted(false);
    assert!(c.grace_elapsed());
    assert!(c.should_stop());
    assert_eq!(frontier.next_claimed(), None);
    let closes: usize = (0..4).filter(|_| c.worker_finished()).count();
    assert_eq!(closes, 1);
    assert!(!c.is_output_open());
    // a seed that led to more work keeps the crawl going
    let mut d = Coordinator::new(4);
    d.page_emitted(true);
    assert!(!d.grace_elapsed());
    assert!(!d.should_stop());
    let mut e = Coordinator::new(2);
    e.cancel();
    assert!(e.should_stop());
}

#[test]
fn repeated_links_queue_once() {
    let root = WebUrl::parse("https://example.com/docs/").unwrap();
    let filter = create_url_filter(&root, &WebCrawlerConfig::new("https://example.com/docs/")).unwrap();
    let links = vec!["a".to_string(), "a#x".to_string(), "a".to_string()];
    let keys = discover_links(&filter, "https://example.com/docs/", &links);
    assert_eq!(keys.len(), 3);
    let mut f = Frontier::new(FRONTIER_CAPACITY);
    let outcomes: Vec<Offer> = keys.into_iter().map(|k| f.offer(k)).collect();
    assert_eq!(outcomes, vec![Offer::Queued, Offer::AlreadyVisited, Offer::AlreadyVisited]);
    assert_eq!(f.pending_len(), 1);
}

#[test]
fn links_are_resolved_filtered_and_normalized() {
    let root = WebUrl::parse("https://example.com/docs/").unwrap();
    let filter = create_url_filter(&root, &WebCrawlerConfig::new("https://example.com/docs/")).unwrap();
    let links = vec![
        "guide.html#intro".to_string(),
        "/docs/api".to_string(),
        "https://other.com/docs/x".to_string(),
        "/blog/post".to_string(),
        "logo.png".to_string(),
        "http://[broken".to_string(),
    ];
    let got = discover_links(&filter, "https://example.com/docs/index.html", &links);
    assert_eq!(
        got,
        vec!["https://example.com/docs/guide.html", "https://example.com/docs/api"]
    );
    assert!(discover_links(&filter, "not a url", &links).is_empty());
}

#[test]
fn scope_rules_follow_the_root() {
    let root = WebUrl::parse("https://example.com/docs/").unwrap();
    let mut config = WebCrawlerConfig::new("https://example.com/docs/");
    config.exclude_patterns = vec!["/private/".to_string()];
    let rules = scope_rules(&root, &config);
    assert_eq!(rules.required_domain, Some("example.com".to_string()));
    assert_eq!(rules.required_path_prefix, Some("/docs/".to_string()));
    assert_eq!(rules.exclude_patterns.len(), 2);
    assert_eq!(rules.exclude_patterns[1], "/private/");
    config.allow_external = true;
    let open = scope_rules(&root, &config);
    assert_eq!(open.required_domain, None);
    assert_eq!(open.required_path_prefix, None);
    config.include_patterns = vec!["(".to_string()];
    assert!(create_url_filter(&root, &config).is_err());
}

#[test]
fn page_records_by_kind() {
    let text = page_record("https://example.com/notes.txt", "Paragraph 1.\n\n\n\nParagraph 2.");
    assert_eq!(text.url, "https://example.com/notes.txt");
    assert_eq!(text.title, None);
    assert_eq!(text.content, "Paragraph 1.\n\nParagraph 2.");
    assert!(text.links.is_empty());
    let html = page_record(
        "https://example.com/page",
        "<html><body><p>Hi</p><a href=\"/next\">Next</a></body></html>",
    );
    assert_eq!(html.content, "Hi Next");
    assert_eq!(html.links, vec!["/next"]);
}

#[test]
fn timeout_grows_with_url_length() {
    assert_eq!(calculate_timeout(1000, 45), 1200);
    assert_eq!(calculate_timeout(500, 19), 500);
    assert_eq!(calculate_timeout(0, 0), 0);
}

#[test]
fn pages_builder_and_configs() {
    let pages = Pages::new(UriType::Web("https://example.com/".to_string()));
    assert_eq!(pages.max_concurrency(), 4);
    assert_eq!(pages.idle_timeout_secs(), None);
    let pages = pages
        .with_max_concurrency(8)
        .with_idle_timeout(300)
        .with_total_timeout(1200);
    assert_eq!(pages.max_concurrency(), 8);
    assert_eq!(pages.idle_timeout_secs(), Some(300));
    assert_eq!(pages.total_timeout_secs(), Some(1200));
    let web = pages.web_config().unwrap();
    assert_eq!(web.start_url, "https://example.com/");
    assert_eq!(web.max_concurrency, 8);
    let mut cfg = WebCrawlerConfig::new("https://x.org/");
    cfg.max_concurrency = 2;
    let pages = pages.with_config(CrawlerConfigType::Web(cfg));
    assert_eq!(pages.max_concurrency(), 2);
    assert!(Pages::new(UriType::Git("repo".to_string())).web_config().is_none());
    assert_eq!(default_max_concurrency(), 5);
    assert_eq!(default_webdriver_url(), "http://localhost:4444");
}

#[test]
fn webdriver_override_only_when_non_empty() {
    let mut cfg = WebCrawlerConfig::new("https://x.org/");
    cfg.apply_webdriver_override(Some(String::new()));
    assert_eq!(cfg.webdriver_url, "http://localhost:4444");
    cfg.apply_webdriver_override(None);
    assert_eq!(cfg.webdriver_url, "http://localhost:4444");
    cfg.apply_webdriver_override(Some("http://remote:9000".to_string()));
    assert_eq!(cfg.webdriver_url, "http://remote:9000");
}

#[test]
fn command_line_values() {
    let args = Args::with_defaults("https://example.com/".to_string());
    assert_eq!(args.concurrency, 4);
    assert_eq!(args.idle_timeout, 300);
    assert_eq!(args.total_timeout, 1200);
    match convert_uri_type(UriTypeArg::Web, "https://example.com/") {
        UriType::Web(u) => assert_eq!(u, "https://example.com/"),
        _ => panic!("expected a web URI"),
    }
}

#[test]
fn file_names_from_urls() {
    assert_eq!(sanitize_filename("https://example.com/a?b=c#d"), "example.com_a_b_c_d");
    assert_eq!(sanitize_filename("http://x.org/100%"), "x.org_100_");
    let long = format!("https://{}", "a".repeat(150));
    assert_eq!(sanitize_filename(&long), "a".repeat(100));
    let wide = "é".repeat(60);
    assert_eq!(sanitize_filename(&wide), "é".repeat(50));
}

