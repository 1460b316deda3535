use web_crawler::engine::Advance;
use web_crawler::engine::Crawler;
use web_crawler::engine::SkipReason;
use web_crawler::urls::parse_url;

fn need_robots(r: Advance) -> String {
    match r {
        Advance::NeedRobots { robots_url } => robots_url,
        _ => panic!("expected a robots.txt fetch request"),
    }
}

fn need_page(r: Advance) -> String {
    match r {
        Advance::NeedPage { url } => url,
        _ => panic!("expected a page fetch request"),
    }
}

fn progressed(r: Advance) -> Option<SkipReason> {
    match r {
        Advance::Progressed { skipped } => skipped,
        _ => panic!("expected a finished step"),
    }
}

#[test]
fn scenario_records_page_and_links_but_filters_frontier() {
    let mut c = Crawler::new("http://a.test/", "tester", None);
    let robots_url = need_robots(c.advance());
    assert_eq!(robots_url, "http://a.test/robots.txt");
    let robots = "User-agent: *\nDisallow: /skip".to_string();
    let asked = need_page(c.supply_robots(Some(&robots)));
    assert_eq!(asked, "http://a.test/");
    let body = "<a href=\"/ok\">one</a><a href=\"/skip\">two</a>".to_string();
    assert_eq!(progressed(c.supply_page(Some(&body))), None);

    let store = c.store_ref();
    assert_eq!(store.pages_len(), 1);
    let (page_id, page_url, _hash) = store.page_at(0);
    assert_eq!(page_id, 1);
    assert_eq!(page_url, "http://a.test/");
    assert_eq!(store.links_len(), 2);
    assert_eq!(store.link_at(0), (1, "http://a.test/ok".to_string()));
    assert_eq!(store.link_at(1), (1, "http://a.test/skip".to_string()));
    assert_eq!(store.patterns_len(), 1);
    assert_eq!(store.pattern_at(0), (1, "/skip".to_string()));

    // only /ok survived into the frontier
    let next = need_page(c.advance());
    assert_eq!(next, "http://a.test/ok");
    assert_eq!(progressed(c.supply_page(None)), Some(SkipReason::FetchFailed));
    assert!(matches!(c.advance(), Advance::Exhausted));
}

#[test]
fn no_refetch_once_page_is_recorded() {
    let mut c = Crawler::new("http://a.test/", "tester", None);
    need_robots(c.advance());
    need_page(c.supply_robots(None));
    let body = "<p>no links</p>".to_string();
    assert_eq!(progressed(c.supply_page(Some(&body))), None);

    let u = parse_url("http://a.test/").unwrap();
    let (ok, reason) = c.is_url_crawlable(&u, 1);
    assert!(!ok);
    assert_eq!(reason, Some(SkipReason::AlreadyCrawled));
    assert_eq!(reason.unwrap().message(), "already crawled");
}

#[test]
fn no_refetch_holds_with_robots_ignored() {
    let mut c = Crawler::new("http://a.test/", "tester", Some(true));
    need_robots(c.advance());
    need_page(c.supply_robots(None));
    let body = "<p>no links</p>".to_string();
    assert_eq!(progressed(c.supply_page(Some(&body))), None);

    let u = parse_url("http://a.test/").unwrap();
    let (ok, reason) = c.is_url_crawlable(&u, 1);
    assert!(!ok);
    assert_eq!(reason, Some(SkipReason::AlreadyCrawled));
}

#[test]
fn failed_robots_fetch_is_fail_open() {
    let mut c = Crawler::new("http://b.test/deep/page", "tester", None);
    need_robots(c.advance());
    // the fetch failed: no pattern rows, and the page fetch is still asked for
    let asked = need_page(c.supply_robots(None));
    assert_eq!(asked, "http://b.test/deep/page");
    assert_eq!(c.store_ref().patterns_len(), 0);
    let u = parse_url("http://b.test/any/path/at/all").unwrap();
    let (ok, reason) = c.is_url_crawlable(&u, 1);
    assert!(ok);
    assert_eq!(reason, None);
}

#[test]
fn stored_patterns_decide_crawlability() {
    let mut c = Crawler::new("https://ex.com/private/x", "tester", None);
    need_robots(c.advance());
    let robots = "User-agent: *\nDisallow: /private".to_string();
    let skipped = progressed(c.supply_robots(Some(&robots)));
    assert_eq!(skipped, Some(SkipReason::DisallowedByRobots));
    assert_eq!(skipped.unwrap().message(), "disallowed by robots.txt");

    let blocked = parse_url("https://ex.com/private/x").unwrap();
    let (ok, reason) = c.is_url_crawlable(&blocked, 1);
    assert!(!ok);
    assert_eq!(reason, Some(SkipReason::DisallowedByRobots));
    let open = parse_url("https://ex.com/pub").unwrap();
    let (ok, reason) = c.is_url_crawlable(&open, 1);
    assert!(ok);
    assert_eq!(reason, None);
}

#[test]
fn ignoring_robots_skips_the_decision() {
    let mut c = Crawler::new("https://ex.com/private/x", "tester", Some(true));
    need_robots(c.advance());
    let robots = "User-agent: *\nDisallow: /private".to_string();
    let asked = need_page(c.supply_robots(Some(&robots)));
    assert_eq!(asked, "https://ex.com/private/x");
}

#[test]
fn unparsable_seed_progresses_without_work() {
    let mut c = Crawler::new("not a url at all", "tester", None);
    assert_eq!(progressed(c.advance()), Some(SkipReason::InvalidUrl));
    assert_eq!(SkipReason::InvalidUrl.message(), "invalid URL");
    assert!(matches!(c.advance(), Advance::Exhausted));
    assert_eq!(c.store_ref().pages_len(), 0);
}

#[test]
fn exhaustion_after_page_with_no_links() {
    let mut c = Crawler::new("http://a.test/", "tester", None);
    need_robots(c.advance());
    need_page(c.supply_robots(None));
    let body = "<p>nothing here</p>".to_string();
    assert_eq!(progressed(c.supply_page(Some(&body))), None);
    assert!(c.frontier_is_empty());
    assert!(matches!(c.advance(), Advance::Exhausted));
}

#[test]
fn same_body_under_two_urls_shares_one_digest() {
    let mut c = Crawler::new("http://a.test/one", "tester", None);
    need_robots(c.advance());
    need_page(c.supply_robots(None));
    let body = "<a href=\"/two\">next</a>".to_string();
    assert_eq!(progressed(c.supply_page(Some(&body))), None);
    let next = need_page(c.advance());
    assert_eq!(next, "http://a.test/two");
    assert_eq!(progressed(c.supply_page(Some(&body))), None);

    let store = c.store_ref();
    assert_eq!(store.pages_len(), 2);
    let (_, u1, h1) = store.page_at(0);
    let (_, u2, h2) = store.page_at(1);
    assert_ne!(u1, u2);
    assert_eq!(h1, h2);
}

#[test]
fn robots_fetched_once_per_domain() {
    let mut c = Crawler::new("http://a.test/one", "tester", None);
    need_robots(c.advance());
    need_page(c.supply_robots(None));
    let body = "<a href=\"/two\">next</a>".to_string();
    assert_eq!(progressed(c.supply_page(Some(&body))), None);
    // the second URL of the same domain asks for no robots.txt again
    let next = need_page(c.advance());
    assert_eq!(next, "http://a.test/two");
}

#[test]
fn domains_get_dense_identities() {
    let mut c = Crawler::new("http://a.test/one", "tester", None);
    need_robots(c.advance());
    need_page(c.supply_robots(None));
    let body = "<a href=\"/two\">next</a><a href=\"http://b.test/\">other</a>".to_string();
    assert_eq!(progressed(c.supply_page(Some(&body))), None);
    // the cross-domain link was pushed last, so it is popped first and its
    // domain is registered under the next identity
    let other_robots = need_robots(c.advance());
    assert_eq!(other_robots, "http://b.test/robots.txt");
    let store = c.store_ref();
    assert_eq!(store.domains_len(), 2);
    assert_eq!(store.domain_at(0), (1, "a.test".to_string()));
    assert_eq!(store.domain_at(1), (2, "b.test".to_string()));
}
