use web_crawler::digest::blob_name;
use web_crawler::digest::content_digest;
use web_crawler::urls::parse_url;
use web_crawler::urls::resolve_href;
use web_crawler::urls::robots_url_for;

#[test]
fn parsing_strips_query_and_fragment() {
    let u = parse_url("https://ex.com/a/b?x=1#y").unwrap();
    assert_eq!(u.full, "https://ex.com/a/b");
    assert_eq!(u.scheme, "https");
    assert_eq!(u.host, "ex.com");
    assert_eq!(u.path, "/a/b");
}

#[test]
fn parsing_rejects_hostless_and_malformed_strings() {
    assert!(parse_url("not a url").is_none());
    assert!(parse_url("mailto:a@b.test").is_none());
    assert!(parse_url("/relative/only").is_none());
}

#[test]
fn host_relative_href_takes_scheme_and_host() {
    let base = parse_url("https://ex.com/a/b?x=1#y").unwrap();
    let r = resolve_href(&base, "/c").unwrap();
    assert_eq!(r.full, "https://ex.com/c");
    assert_eq!(r.path, "/c");
}

#[test]
fn relative_href_resolves_against_base_path() {
    let base = parse_url("https://ex.com/a/b").unwrap();
    let up = resolve_href(&base, "../d").unwrap();
    assert_eq!(up.full, "https://ex.com/d");
    let sibling = resolve_href(&base, "c").unwrap();
    assert_eq!(sibling.full, "https://ex.com/a/c");
}

#[test]
fn scheme_relative_href_takes_base_scheme() {
    let base = parse_url("https://ex.com/a").unwrap();
    let r = resolve_href(&base, "//other.test/p?q#f").unwrap();
    assert_eq!(r.full, "https://other.test/p");
}

#[test]
fn absolute_href_stands_alone() {
    let base = parse_url("https://ex.com/a").unwrap();
    let r = resolve_href(&base, "http://b.test/x?q=2").unwrap();
    assert_eq!(r.full, "http://b.test/x");
}

#[test]
fn unresolvable_href_is_dropped() {
    let base = parse_url("https://ex.com/a").unwrap();
    assert!(resolve_href(&base, "mailto:x@y.test").is_none());
}

#[test]
fn robots_address_uses_scheme_and_host() {
    let u = parse_url("https://ex.com/deep/path").unwrap();
    assert_eq!(robots_url_for(&u), "https://ex.com/robots.txt");
}

#[test]
fn digest_is_content_addressed() {
    let a = content_digest("<p>same</p>");
    let b = content_digest("<p>same</p>");
    let c = content_digest("<p>other</p>");
    assert_eq!(a, b);
    assert_ne!(a, c);
    assert_eq!(a.len(), 64);
    assert_eq!(blob_name(&a), format!("{}.html", a));
}

#[test]
fn digest_of_empty_body_is_the_known_value() {
    assert_eq!(
        content_digest(""),
        "af1349b9f5f9a1a6a0404dea36dcc9499bcb25c9adc112b7cc9a93cae41f3262"
    );
}
