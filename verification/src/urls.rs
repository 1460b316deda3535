//! The crawler's URL model and link normalization.
//!
//! A `CrawlUrl` holds, as plain strings, everything the crawl logic reads
//! from a parsed URL: the full normalized form (query and fragment removed),
//! the scheme, the host name and the path. Parsing and standard relative
//! resolution are the outside URL parser's work; the resolution policy for
//! an anchor's href — absolute as-is, scheme-relative, host-relative, or
//! relative to the base — is the library's own and is verified here.

use vstd::prelude::*;
use vstd::string::StrSliceExecFns;
use vstd::string::StringExecFns;

verus! {

/// The ghost image of a parsed URL: the strings the crawler reads from it.
pub ghost struct UrlParts {
    pub full: Seq<char>,
    pub scheme: Seq<char>,
    pub host: Seq<char>,
    pub path: Seq<char>,
}

/// What the outside URL parser makes of a string: `None` when the string
/// does not parse as an absolute URL or names no host (a domain); otherwise
/// the parsed URL with query and fragment removed. A function of the input
/// string alone.
pub uninterp spec fn url_norm_of(s: Seq<char>) -> Option<UrlParts>;

/// What standard relative resolution of `href` against the absolute URL
/// `base` yields, query and fragment removed, `None` on failure or a missing
/// host. A function of the two strings alone.
pub uninterp spec fn url_join_of(base: Seq<char>, href: Seq<char>) -> Option<UrlParts>;

/// A normalized absolute URL with a host, held as plain strings.
pub struct CrawlUrl {
    /// The whole URL, without query or fragment.
    pub full: String,
    pub scheme: String,
    pub host: String,
    pub path: String,
}

impl CrawlUrl {
    /// The ghost image of this URL.
    pub open spec fn parts(&self) -> UrlParts {
        UrlParts { full: self.full@, scheme: self.scheme@, host: self.host@, path: self.path@ }
    }

    /// An equal copy.
    pub fn duplicate(&self) -> (r: CrawlUrl)
        ensures
            r == *self,
    {
        CrawlUrl {
            full: self.full.clone(),
            scheme: self.scheme.clone(),
            host: self.host.clone(),
            path: self.path.clone(),
        }
    }
}

/// Relies on url::Url::parse, Url::set_query, Url::set_fragment, Url::domain:
/// parsing, dropping the query and fragment, and reading the components, all
/// functions of the input string alone.
#[verifier::external_body]
fn parse_url_raw(s: &str) -> (r: Option<CrawlUrl>)
    ensures
        match r {
            Some(u) => url_norm_of(s@) == Some(u.parts()),
            None => url_norm_of(s@) is None,
        },
{
    let mut parsed = url::Url::parse(s).ok()?;
    parsed.set_query(None);
    parsed.set_fragment(None);
    let host = parsed.domain()?.to_string();
    Some(
        CrawlUrl {
            full: parsed.as_str().to_string(),
            scheme: parsed.scheme().to_string(),
            host,
            path: parsed.path().to_string(),
        },
    )
}

/// Relies on url::Url::parse, Url::join, Url::set_query, Url::set_fragment,
/// Url::domain: standard relative resolution, a function of the two strings
/// alone.
#[verifier::external_body]
fn join_url_raw(base: &str, href: &str) -> (r: Option<CrawlUrl>)
    ensures
        match r {
            Some(u) => url_join_of(base@, href@) == Some(u.parts()),
            None => url_join_of(base@, href@) is None,
        },
{
    let parsed_base = url::Url::parse(base).ok()?;
    let mut joined = parsed_base.join(href).ok()?;
    joined.set_query(None);
    joined.set_fragment(None);
    let host = joined.domain()?.to_string();
    Some(
        CrawlUrl {
            full: joined.as_str().to_string(),
            scheme: joined.scheme().to_string(),
            host,
            path: joined.path().to_string(),
        },
    )
}

/// Parses a string as a normalized absolute URL with a host.
pub fn parse_url(s: &str) -> (r: Option<CrawlUrl>)
    ensures
        (r matches Some(u) && url_norm_of(s@) == Some(u.parts())) || (r is None && url_norm_of(
            s@,
        ) is None),
{
    parse_url_raw(s)
}

/// Where a resolved href comes from, in order: an absolute URL stands on its
/// own; `//` takes the base's scheme; a leading `/` takes the base's scheme
/// and host with the href as path; anything else resolves relative to the
/// base URL. Query and fragment are always removed; a href that yields no
/// host is dropped.
pub open spec fn resolve_href_spec(base: UrlParts, href: Seq<char>) -> Option<UrlParts> {
    if url_norm_of(href) is Some {
        url_norm_of(href)
    } else if href.len() >= 2 && href[0] == '/' && href[1] == '/' {
        url_norm_of(base.scheme + ":"@ + href)
    } else if href.len() >= 1 && href[0] == '/' {
        url_norm_of(base.scheme + "://"@ + base.host + href)
    } else {
        url_join_of(base.full, href)
    }
}

/// Resolves the href attribute of an anchor against a base URL.
pub fn resolve_href(base: &CrawlUrl, href: &str) -> (r: Option<CrawlUrl>)
    ensures
        (r matches Some(u) && resolve_href_spec(base.parts(), href@) == Some(u.parts())) || (r
            is None && resolve_href_spec(base.parts(), href@) is None),
{
    if let Some(u) = parse_url_raw(href) {
        return Some(u);
    }
    let n = href.unicode_len();
    if n >= 2 && href.get_char(0) == '/' && href.get_char(1) == '/' {
        let mut joined = base.scheme.clone();
        joined.append(":");
        joined.append(href);
        proof {
            assert(joined@ == base.scheme@ + ":"@ + href@);
        }
        parse_url_raw(joined.as_str())
    } else if n >= 1 && href.get_char(0) == '/' {
        let mut joined = base.scheme.clone();
        joined.append("://");
        joined.append(base.host.as_str());
        joined.append(href);
        proof {
            assert(joined@ == base.scheme@ + "://"@ + base.host@ + href@);
        }
        parse_url_raw(joined.as_str())
    } else {
        join_url_raw(base.full.as_str(), href)
    }
}

/// The address a domain's robots.txt is fetched from.
pub open spec fn robots_url_spec(scheme: Seq<char>, host: Seq<char>) -> Seq<char> {
    scheme + "://"@ + host + "/robots.txt"@
}

/// Builds the robots.txt address for the domain of `url`.
pub fn robots_url_for(url: &CrawlUrl) -> (r: String)
    ensures
        r@ == robots_url_spec(url.scheme@, url.host@),
{
    let mut address = url.scheme.clone();
    address.append("://");
    address.append(url.host.as_str());
    address.append("/robots.txt");
    address
}

} // verus!
