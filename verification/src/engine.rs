//! The crawl engine: one frontier item is processed per step.
//!
//! Network transfer cannot happen inside the library, so one step of the
//! engine is driven as a short exchange. `advance` pops a URL and carries it
//! to the first fetch the step needs: it either finishes the step itself
//! (frontier empty, unparsable URL, or a skip decided without fetching) or
//! asks the caller for a body. The caller performs the fetch and hands the
//! outcome — or `None` on any transport or status failure, which is always
//! recoverable — to `supply_robots` or `supply_page`, which finish the step.
//! The engine never asks for a page it has already recorded, and it asks for
//! a domain's robots.txt only when the domain has no pattern rows and has
//! not been handled this run.

use crate::digest::content_digest;
use crate::digest::blob_name_spec;
use crate::digest::digest_spec;
use crate::html::extract_hrefs;
use crate::html::hrefs_of;
use crate::robots::is_path_disallowed;
use crate::robots::parse_robots;
use crate::robots::path_disallowed;
use crate::robots::robots_patterns;
use crate::store::max_id;
use crate::store::Store;
use crate::unique_queue::no_dup;
use crate::unique_queue::push_spec;
use crate::unique_queue::UniqueQueue;
use crate::urls::parse_url;
use crate::urls::resolve_href;
use crate::urls::resolve_href_spec;
use crate::urls::robots_url_for;
use crate::urls::robots_url_spec;
use crate::urls::url_norm_of;
use crate::urls::CrawlUrl;
use crate::urls::UrlParts;
use vstd::pervasive::unreached;
use vstd::prelude::*;
use vstd::string::StrSliceExecFns;

verus! {

/// Why a popped URL was not fetched during a step.
#[derive(Clone, Copy, PartialEq, Eq, Structural, Debug)]
pub enum SkipReason {
    /// The popped string does not parse as an absolute URL with a host.
    InvalidUrl,
    /// A page row already exists for the URL.
    AlreadyCrawled,
    /// A stored robots.txt pattern matches the URL's path.
    DisallowedByRobots,
    /// The page fetch itself failed; nothing was recorded.
    FetchFailed,
}

impl SkipReason {
    /// The reason as reported alongside the decision.
    pub open spec fn message_spec(&self) -> Seq<char> {
        match self {
            SkipReason::InvalidUrl => "invalid URL"@,
            SkipReason::AlreadyCrawled => "already crawled"@,
            SkipReason::DisallowedByRobots => "disallowed by robots.txt"@,
            SkipReason::FetchFailed => "fetch failed"@,
        }
    }

    /// Renders the reason.
    pub fn message(&self) -> (r: String)
        ensures
            r@ == self.message_spec(),
    {
        match self {
            SkipReason::InvalidUrl => "invalid URL".to_owned(),
            SkipReason::AlreadyCrawled => "already crawled".to_owned(),
            SkipReason::DisallowedByRobots => "disallowed by robots.txt".to_owned(),
            SkipReason::FetchFailed => "fetch failed".to_owned(),
        }
    }
}

/// Where a step stands after a call into the engine.
pub enum Advance {
    /// The frontier was empty; the run is over.
    Exhausted,
    /// The step needs this domain's robots.txt; call `supply_robots` next.
    NeedRobots { robots_url: String },
    /// The step needs this page's body; call `supply_page` next.
    NeedPage { url: String },
    /// The step ended; `skipped` says why no page was recorded, if so.
    Progressed { skipped: Option<SkipReason> },
}

/// What the engine is waiting for within a step.
pub enum Phase {
    Ready,
    AwaitingRobots { url: CrawlUrl, domain_id: i64 },
    AwaitingPage { url: CrawlUrl, domain_id: i64 },
}

/// The crawlability decision for a URL against the store: an existing page
/// row wins over everything; then the robots-ignore switch; then the
/// domain's stored patterns against the URL's path. `None` means crawlable.
pub open spec fn verdict_spec(
    store: Store,
    ignore_robots: bool,
    full: Seq<char>,
    path: Seq<char>,
    domain_id: i64,
) -> Option<SkipReason> {
    if store.has_page(full) {
        Some(SkipReason::AlreadyCrawled)
    } else if ignore_robots {
        None
    } else if path_disallowed(path, store.patterns_for(domain_id)) {
        Some(SkipReason::DisallowedByRobots)
    } else {
        None
    }
}

/// A domain's robots.txt is fetched once, lazily: only when the domain has
/// no pattern rows yet and was not handled earlier in this run.
pub open spec fn robots_fetch_needed(store: Store, domain_id: i64) -> bool {
    !store.robots_loaded_for(domain_id) && store.patterns_for(domain_id).len() == 0
}

/// The two stores hold the same rows.
pub open spec fn store_eq(a: Store, b: Store) -> bool {
    &&& a.domains() == b.domains()
    &&& a.pages() == b.pages()
    &&& a.links() == b.links()
    &&& a.patterns() == b.patterns()
    &&& a.loaded() == b.loaded()
}

/// `b` is `a` after recording the domain `name` under identity `id`:
/// insert-if-absent, everything else untouched.
pub open spec fn domain_recorded(a: Store, b: Store, name: Seq<char>, id: i64) -> bool {
    &&& b.domain_has_id(name, id)
    &&& (a.has_domain(name) ==> b.domains() == a.domains())
    &&& (!a.has_domain(name) ==> b.domains().len() == a.domains().len() + 1 && b.domains().take(
        a.domains().len() as int,
    ) == a.domains() && b.domains().last().name@ == name)
    &&& b.pages() == a.pages()
    &&& b.links() == a.links()
    &&& b.patterns() == a.patterns()
    &&& b.loaded() == a.loaded()
}

/// `b` is `a` after recording the parsed robots.txt patterns `pats` for
/// domain `d` and marking the domain handled: every pattern is present
/// afterwards, any row added belongs to `d` and comes from `pats`, and
/// nothing else moves. With `pats` empty — a failed fetch — no pattern row
/// is added at all.
pub open spec fn robots_recorded(a: Store, b: Store, d: i64, pats: Seq<Seq<char>>) -> bool {
    &&& (forall|p: Seq<char>| pats.contains(p) ==> b.has_pattern(d, p))
    &&& (forall|d2: i64| #[trigger] b.robots_loaded_for(d2) == (a.robots_loaded_for(d2) || d2 == d))
    &&& a.patterns().len() <= b.patterns().len()
    &&& b.patterns().take(a.patterns().len() as int) == a.patterns()
    &&& (forall|k: int|
        a.patterns().len() <= k < b.patterns().len() ==> (#[trigger] b.patterns()[k]).domain_id == d
            && pats.contains(b.patterns()[k].pattern@))
    &&& b.domains() == a.domains()
    &&& b.pages() == a.pages()
    &&& b.links() == a.links()
}

/// `b` is `a` after recording one new page row.
pub open spec fn page_recorded(a: Store, b: Store, url: Seq<char>, hash: Seq<char>, id: i64) -> bool {
    &&& b.pages().len() == a.pages().len() + 1
    &&& b.pages().take(a.pages().len() as int) == a.pages()
    &&& b.pages().last().url@ == url
    &&& b.pages().last().hash@ == hash
    &&& b.pages().last().id == id
    &&& id == a.pages().len() + 1
    &&& b.domains() == a.domains()
    &&& b.patterns() == a.patterns()
    &&& b.loaded() == a.loaded()
    &&& b.links() == a.links()
}

/// `b` is `a` after recording a link edge from page `page_id` to each of
/// `dests` (insert-if-absent): all are present afterwards, any row added is
/// such an edge, and the other tables do not move.
pub open spec fn links_recorded(a: Store, b: Store, page_id: i64, dests: Seq<Seq<char>>) -> bool {
    &&& (forall|u: Seq<char>| dests.contains(u) ==> b.has_link(page_id, u))
    &&& a.links().len() <= b.links().len()
    &&& b.links().take(a.links().len() as int) == a.links()
    &&& (forall|k: int|
        a.links().len() <= k < b.links().len() ==> (#[trigger] b.links()[k]).page_id == page_id
            && dests.contains(b.links()[k].url@))
    &&& b.domains() == a.domains()
    &&& b.pages() == a.pages()
    &&& b.patterns() == a.patterns()
    &&& b.loaded() == a.loaded()
}

/// The destinations of the hrefs that resolve against `base`, in document
/// order: every such destination becomes a link edge of the page.
pub open spec fn resolved_links(base: UrlParts, hrefs: Seq<Seq<char>>) -> Seq<Seq<char>>
    decreases hrefs.len(),
{
    if hrefs.len() == 0 {
        Seq::empty()
    } else {
        let rest = resolved_links(base, hrefs.drop_last());
        match resolve_href_spec(base, hrefs.last()) {
            Some(p) => rest.push(p.full),
            None => rest,
        }
    }
}

/// The destinations that also pass the crawlability decision against the
/// source page's domain, in document order: only these enter the frontier.
pub open spec fn accepted_links(
    store: Store,
    ignore_robots: bool,
    base: UrlParts,
    hrefs: Seq<Seq<char>>,
    domain_id: i64,
) -> Seq<Seq<char>>
    decreases hrefs.len(),
{
    if hrefs.len() == 0 {
        Seq::empty()
    } else {
        let rest = accepted_links(store, ignore_robots, base, hrefs.drop_last(), domain_id);
        match resolve_href_spec(base, hrefs.last()) {
            Some(p) => if verdict_spec(store, ignore_robots, p.full, p.path, domain_id) is None {
                rest.push(p.full)
            } else {
                rest
            },
            None => rest,
        }
    }
}

/// The frontier after pushing each of `us` in order, duplicates ignored.
pub open spec fn push_all_spec(s: Seq<Seq<char>>, us: Seq<Seq<char>>) -> Seq<Seq<char>>
    decreases us.len(),
{
    if us.len() == 0 {
        s
    } else {
        push_spec(push_all_spec(s, us.drop_last()), us.last())
    }
}

/// What `advance` does: with an empty frontier the run is exhausted;
/// otherwise the most recently accepted URL leaves the frontier and the step
/// either ends at once (unparsable, or skipped by the decision) or stops at
/// the first fetch it needs, with the domain recorded.
pub open spec fn advance_post(pre: Crawler, post: Crawler, r: Advance) -> bool {
    &&& post.agent_spec() == pre.agent_spec()
    &&& post.ignores_robots() == pre.ignores_robots()
    &&& if pre.frontier().len() == 0 {
        &&& r is Exhausted
        &&& post.frontier() == pre.frontier()
        &&& store_eq(post.store(), pre.store())
        &&& post.phase() is Ready
    } else {
        let u = pre.frontier().last();
        &&& post.frontier() == pre.frontier().drop_last()
        &&& match url_norm_of(u) {
            None => {
                &&& r == (Advance::Progressed { skipped: Some(SkipReason::InvalidUrl) })
                &&& store_eq(post.store(), pre.store())
                &&& post.phase() is Ready
            },
            Some(parts) => exists|id: i64|
                {
                    &&& #[trigger] domain_recorded(pre.store(), post.store(), parts.host, id)
                    &&& if robots_fetch_needed(post.store(), id) {
                        &&& (r matches Advance::NeedRobots { robots_url } && robots_url@
                            == robots_url_spec(parts.scheme, parts.host))
                        &&& (post.phase() matches Phase::AwaitingRobots { url, domain_id }
                            && url.parts() == parts && domain_id == id)
                    } else {
                        match verdict_spec(
                            post.store(),
                            pre.ignores_robots(),
                            parts.full,
                            parts.path,
                            id,
                        ) {
                            Some(reason) => {
                                &&& r == (Advance::Progressed { skipped: Some(reason) })
                                &&& post.phase() is Ready
                            },
                            None => {
                                &&& (r matches Advance::NeedPage { url } && url@ == parts.full)
                                &&& (post.phase() matches Phase::AwaitingPage { url, domain_id }
                                    && url.parts() == parts && domain_id == id)
                            },
                        }
                    }
                },
        }
    }
}

/// What `supply_robots` does: the fetched body's patterns (none, when the
/// fetch failed — fail-open) are recorded for the awaited domain, and the
/// step continues into the decision exactly as an already-loaded domain
/// would.
pub open spec fn supply_robots_post(
    pre: Crawler,
    post: Crawler,
    body: Option<Seq<char>>,
    r: Advance,
) -> bool {
    match pre.phase() {
        Phase::AwaitingRobots { url, domain_id } => {
            let pats = match body {
                Some(text) => robots_patterns(text, pre.agent_spec()),
                None => Seq::empty(),
            };
            &&& post.agent_spec() == pre.agent_spec()
            &&& post.ignores_robots() == pre.ignores_robots()
            &&& post.frontier() == pre.frontier()
            &&& robots_recorded(pre.store(), post.store(), domain_id, pats)
            &&& match verdict_spec(post.store(), pre.ignores_robots(), url.full@, url.path@, domain_id) {
                Some(reason) => {
                    &&& r == (Advance::Progressed { skipped: Some(reason) })
                    &&& post.phase() is Ready
                },
                None => {
                    &&& (r matches Advance::NeedPage { url: asked } && asked@ == url.full@)
                    &&& (post.phase() matches Phase::AwaitingPage { url: kept, domain_id: kept_id }
                        && kept == url && kept_id == domain_id)
                },
            }
        },
        _ => false,
    }
}

/// What `supply_page` does: a failed fetch records nothing; a body is
/// recorded as a page row keyed by its content digest, every resolved link
/// becomes a link edge of that page, and the links that pass the decision
/// enter the frontier in document order.
/// The successful-page case of `supply_page`, with the intermediate store
/// `mid` (the page row recorded, links not yet) and the page identity laid
/// open.
pub open spec fn supply_page_ok_post(
    pre: Crawler,
    post: Crawler,
    text: Seq<char>,
    r: Advance,
    mid: Store,
    id: i64,
) -> bool {
    match pre.phase() {
        Phase::AwaitingPage { url, domain_id } => {
            &&& post.agent_spec() == pre.agent_spec()
            &&& post.ignores_robots() == pre.ignores_robots()
            &&& post.phase() is Ready
            &&& page_recorded(pre.store(), mid, url.full@, digest_spec(text), id)
            &&& links_recorded(mid, post.store(), id, resolved_links(url.parts(), hrefs_of(text)))
            &&& post.frontier() == push_all_spec(
                pre.frontier(),
                accepted_links(mid, pre.ignores_robots(), url.parts(), hrefs_of(text), domain_id),
            )
            &&& r == (Advance::Progressed { skipped: None })
        },
        _ => false,
    }
}

/// The failed-fetch case of `supply_page`: the step ends, nothing is
/// recorded, the frontier does not move.
pub open spec fn supply_page_failed_post(pre: Crawler, post: Crawler, r: Advance) -> bool {
    &&& post.agent_spec() == pre.agent_spec()
    &&& post.ignores_robots() == pre.ignores_robots()
    &&& post.phase() is Ready
    &&& r == (Advance::Progressed { skipped: Some(SkipReason::FetchFailed) })
    &&& store_eq(post.store(), pre.store())
    &&& post.frontier() == pre.frontier()
}

// ---------------------------------------------------------------------------
// Transfer lemmas: the decision and the row predicates depend only on the
// tables they read.
// ---------------------------------------------------------------------------
/// A page row's existence depends on the page table alone.
proof fn lemma_has_page_same(a: Store, b: Store, u: Seq<char>)
    requires
        a.pages() == b.pages(),
    ensures
        a.has_page(u) == b.has_page(u),
{
    if a.has_page(u) {
        let w = choose|w: int| 0 <= w < a.pages().len() && a.pages()[w].url@ == u;
        assert(b.pages()[w].url@ == u);
    }
    if b.has_page(u) {
        let w = choose|w: int| 0 <= w < b.pages().len() && b.pages()[w].url@ == u;
        assert(a.pages()[w].url@ == u);
    }
}

/// The crawlability decision depends on the page and pattern tables alone.
proof fn lemma_verdict_same_tables(
    a: Store,
    b: Store,
    ignore_robots: bool,
    full: Seq<char>,
    path: Seq<char>,
    d: i64,
)
    requires
        a.pages() == b.pages(),
        a.patterns() == b.patterns(),
    ensures
        verdict_spec(a, ignore_robots, full, path, d) == verdict_spec(b, ignore_robots, full, path, d),
{
    lemma_has_page_same(a, b, full);
}

/// A pattern row, once present, stays present as the table grows at the end.
proof fn lemma_has_pattern_preserved(b: Store, c: Store, d: i64, p: Seq<char>)
    requires
        b.has_pattern(d, p),
        b.patterns().len() <= c.patterns().len(),
        c.patterns().take(b.patterns().len() as int) == b.patterns(),
    ensures
        c.has_pattern(d, p),
{
    let w = choose|w: int|
        0 <= w < b.patterns().len() && b.patterns()[w].domain_id == d && b.patterns()[w].pattern@
            == p;
    assert(c.patterns().take(b.patterns().len() as int)[w] == b.patterns()[w]);
    assert(c.patterns()[w] == b.patterns()[w]);
}

/// A link row, once present, stays present as the table grows at the end.
proof fn lemma_has_link_preserved(b: Store, c: Store, page_id: i64, u: Seq<char>)
    requires
        b.has_link(page_id, u),
        b.links().len() <= c.links().len(),
        c.links().take(b.links().len() as int) == b.links(),
    ensures
        c.has_link(page_id, u),
{
    let w = choose|w: int|
        0 <= w < b.links().len() && b.links()[w].page_id == page_id && b.links()[w].url@ == u;
    assert(c.links().take(b.links().len() as int)[w] == b.links()[w]);
    assert(c.links()[w] == b.links()[w]);
}

/// Earlier prefixes are untouched when a table grows at the end twice over.
proof fn lemma_take_chain<A>(s: Seq<A>, t: Seq<A>, m: int)
    requires
        0 <= m <= t.len() <= s.len(),
        s.take(t.len() as int) == t,
    ensures
        s.take(m) == t.take(m),
{
    assert(s.take(m) =~= t.take(m)) by {
        assert(forall|i: int| 0 <= i < m ==> s.take(t.len() as int)[i] == s[i]);
    }
}

/// One step of collecting the resolved links href by href.
proof fn lemma_take_step_resolved(base: UrlParts, hrefs: Seq<Seq<char>>, k: int)
    requires
        0 <= k < hrefs.len(),
    ensures
        resolved_links(base, hrefs.take(k + 1)) == match resolve_href_spec(base, hrefs[k]) {
            Some(p) => resolved_links(base, hrefs.take(k)).push(p.full),
            None => resolved_links(base, hrefs.take(k)),
        },
{
    let t = hrefs.take(k + 1);
    assert(t.drop_last() =~= hrefs.take(k));
    assert(t.last() == hrefs[k]);
}

/// One step of collecting the accepted links href by href.
proof fn lemma_take_step_accepted(
    store: Store,
    ignore_robots: bool,
    base: UrlParts,
    hrefs: Seq<Seq<char>>,
    k: int,
    domain_id: i64,
)
    requires
        0 <= k < hrefs.len(),
    ensures
        accepted_links(store, ignore_robots, base, hrefs.take(k + 1), domain_id) == match resolve_href_spec(
            base,
            hrefs[k],
        ) {
            Some(p) => if verdict_spec(store, ignore_robots, p.full, p.path, domain_id) is None {
                accepted_links(store, ignore_robots, base, hrefs.take(k), domain_id).push(p.full)
            } else {
                accepted_links(store, ignore_robots, base, hrefs.take(k), domain_id)
            },
            None => accepted_links(store, ignore_robots, base, hrefs.take(k), domain_id),
        },
{
    let t = hrefs.take(k + 1);
    assert(t.drop_last() =~= hrefs.take(k));
    assert(t.last() == hrefs[k]);
}

/// Pushing one more destination extends the frontier fold by one push.
proof fn lemma_push_all_step(s: Seq<Seq<char>>, us: Seq<Seq<char>>, u: Seq<char>)
    ensures
        push_all_spec(s, us.push(u)) == push_spec(push_all_spec(s, us), u),
{
    assert(us.push(u).drop_last() =~= us);
    assert(us.push(u).last() == u);
}

/// Recording one more destination preserves the link-recording relation.
proof fn lemma_links_step(a: Store, b: Store, c: Store, page_id: i64, dests: Seq<Seq<char>>, u: Seq<char>)
    requires
        links_recorded(a, b, page_id, dests),
        c.has_link(page_id, u),
        b.has_link(page_id, u) ==> c.links() == b.links(),
        !b.has_link(page_id, u) ==> c.links().len() == b.links().len() + 1 && c.links().take(
            b.links().len() as int,
        ) == b.links() && c.links().last().page_id == page_id && c.links().last().url@ == u,
        c.domains() == b.domains(),
        c.pages() == b.pages(),
        c.patterns() == b.patterns(),
        c.loaded() == b.loaded(),
    ensures
        links_recorded(a, c, page_id, dests.push(u)),
{
    let dests2 = dests.push(u);
    assert(dests2[dests.len() as int] == u);
    assert(forall|i: int| 0 <= i < dests.len() ==> dests2[i] == dests[i]);
    assert forall|v: Seq<char>| dests2.contains(v) implies c.has_link(page_id, v) by {
        let w = choose|w: int| 0 <= w < dests2.len() && dests2[w] == v;
        if w < dests.len() {
            assert(dests.contains(v)) by {
                assert(dests[w] == v);
            }
            assert(b.has_link(page_id, v));
            if b.has_link(page_id, u) {
                let x = choose|x: int|
                    0 <= x < b.links().len() && b.links()[x].page_id == page_id && b.links()[x].url@
                        == v;
                assert(c.links()[x] == b.links()[x]);
            } else {
                lemma_has_link_preserved(b, c, page_id, v);
            }
        } else {
            assert(v == u);
        }
    }
    if b.has_link(page_id, u) {
        assert(c.links() == b.links());
        assert(c.links().take(a.links().len() as int) == a.links());
        assert forall|k: int|
            a.links().len() <= k < c.links().len() implies (#[trigger] c.links()[k]).page_id
            == page_id && dests2.contains(c.links()[k].url@) by {
            assert(b.links()[k].page_id == page_id && dests.contains(b.links()[k].url@));
            let w = choose|w: int| 0 <= w < dests.len() && dests[w] == b.links()[k].url@;
            assert(dests2[w] == dests[w]);
        }
    } else {
        lemma_take_chain(c.links(), b.links(), a.links().len() as int);
        assert forall|k: int|
            a.links().len() <= k < c.links().len() implies (#[trigger] c.links()[k]).page_id
            == page_id && dests2.contains(c.links()[k].url@) by {
            if k < b.links().len() {
                assert(c.links().take(b.links().len() as int)[k] == c.links()[k]);
                assert(c.links()[k] == b.links()[k]);
                assert(b.links()[k].page_id == page_id && dests.contains(b.links()[k].url@));
                let w = choose|w: int| 0 <= w < dests.len() && dests[w] == b.links()[k].url@;
                assert(dests2[w] == dests[w]);
            } else {
                assert(c.links()[k] == c.links().last());
                assert(dests2[dests.len() as int] == u);
            }
        }
    }
}

/// A web crawler that follows links on webpages and records page contents,
/// link edges and robots.txt policy in its store.
pub struct Crawler {
    pub user_agent: String,
    pub ignore_robots: bool,
    url_queue: UniqueQueue,
    store: Store,
    phase: Phase,
}

impl Crawler {
    /// The pending URLs, most recently accepted last.
    pub closed spec fn frontier(&self) -> Seq<Seq<char>> {
        self.url_queue@
    }

    /// The configured user-agent name.
    pub closed spec fn agent_spec(&self) -> Seq<char> {
        self.user_agent@
    }

    /// Whether robots.txt policy is ignored.
    pub closed spec fn ignores_robots(&self) -> bool {
        self.ignore_robots
    }

    /// The recorded state.
    pub closed spec fn store(&self) -> Store {
        self.store
    }

    /// What the engine is waiting for.
    pub closed spec fn phase(&self) -> Phase {
        self.phase
    }

    /// The engine invariant: the frontier holds no duplicates, the store is
    /// well formed, and a step paused at a fetch awaits a recorded domain —
    /// and, for a page fetch, a URL with no page row yet.
    pub open spec fn wf(&self) -> bool {
        &&& no_dup(self.frontier())
        &&& self.store().wf()
        &&& match self.phase() {
            Phase::Ready => true,
            Phase::AwaitingRobots { url, domain_id } => self.store().domain_has_id(
                url.host@,
                domain_id,
            ),
            Phase::AwaitingPage { url, domain_id } => self.store().domain_has_id(
                url.host@,
                domain_id,
            ) && !self.store().has_page(url.full@),
        }
    }

    /// Creates a new crawler with the seed URL pending.
    pub fn new(start_url: &str, user_agent: &str, ignore_robots: Option<bool>) -> (c: Crawler)
        ensures
            c.wf(),
            c.phase() is Ready,
            c.agent_spec() == user_agent@,
            c.ignores_robots() == (ignore_robots matches Some(true)),
            c.frontier() == Seq::<Seq<char>>::empty().push(start_url@),
            c.store().domains() == Seq::<crate::store::DomainRow>::empty(),
            c.store().pages() == Seq::<crate::store::PageRow>::empty(),
            c.store().links() == Seq::<crate::store::LinkRow>::empty(),
            c.store().patterns() == Seq::<crate::store::PatternRow>::empty(),
            c.store().loaded() == Seq::<i64>::empty(),
    {
        let mut url_queue = UniqueQueue::new();
        url_queue.push(start_url.to_owned());
        let ignore = match ignore_robots {
            Some(b) => b,
            None => false,
        };
        Crawler {
            user_agent: user_agent.to_owned(),
            ignore_robots: ignore,
            url_queue,
            store: Store::new(),
            phase: Phase::Ready,
        }
    }

    /// Checks if the URL is crawlable: already-recorded pages are never
    /// fetched again; otherwise the robots-ignore switch, then the domain's
    /// stored patterns against the URL's path, decide.
    pub fn is_url_crawlable(&self, url: &CrawlUrl, domain_id: i64) -> (r: (
        bool,
        Option<SkipReason>,
    ))
        ensures
            r.1 == verdict_spec(self.store(), self.ignores_robots(), url.full@, url.path@, domain_id),
            r.0 == (r.1 is None),
    {
        if self.store.is_url_crawled(&url.full) {
            return (false, Some(SkipReason::AlreadyCrawled));
        }
        if self.ignore_robots {
            return (true, None);
        }
        let patterns = self.store.disallowed_patterns_for(domain_id);
        if is_path_disallowed(url.path.as_str(), &patterns) {
            (false, Some(SkipReason::DisallowedByRobots))
        } else {
            (true, None)
        }
    }

    /// The recorded state, for mirroring to durable storage.
    pub fn store_ref(&self) -> (r: &Store)
        ensures
            *r == self.store(),
    {
        &self.store
    }

    /// Whether the frontier is empty.
    pub fn frontier_is_empty(&self) -> (r: bool)
        ensures
            r == (self.frontier().len() == 0),
    {
        self.url_queue.is_empty()
    }

    /// Starts one step: pops a URL, records its domain, and carries the step
    /// to its first fetch or to its end.
    pub fn advance(&mut self) -> (r: Advance)
        requires
            old(self).wf(),
            old(self).phase() is Ready,
            old(self).store().domains().len() < max_id(),
        ensures
            final(self).wf(),
            advance_post(*old(self), *final(self), r),
    {
        let popped = self.url_queue.pop();
        match popped {
            None => Advance::Exhausted,
            Some(u) => {
                match parse_url(u.as_str()) {
                    None => Advance::Progressed { skipped: Some(SkipReason::InvalidUrl) },
                    Some(url) => {
                        let ghost parts_g = url.parts();
                        let domain_id = self.store.record_domain(&url.host);
                        proof {
                            assert(domain_recorded(
                                old(self).store(),
                                self.store(),
                                parts_g.host,
                                domain_id,
                            ));
                        }
                        let ghost store_g = self.store();
                        let loaded = self.store.robots_loaded_contains(domain_id);
                        let patterns = self.store.disallowed_patterns_for(domain_id);
                        proof {
                            assert(patterns.deep_view().len() == patterns@.len());
                            assert((!loaded && patterns@.len() == 0) == robots_fetch_needed(
                                store_g,
                                domain_id,
                            ));
                        }
                        if !loaded && patterns.len() == 0 {
                            let robots_url = robots_url_for(&url);
                            self.phase = Phase::AwaitingRobots { url, domain_id };
                            proof {
                                assert(self.store() == store_g);
                                assert(domain_recorded(
                                    old(self).store(),
                                    self.store(),
                                    parts_g.host,
                                    domain_id,
                                ));
                                assert(robots_fetch_needed(self.store(), domain_id));
                                assert(self.phase() matches Phase::AwaitingRobots {
                                    url: u2,
                                    domain_id: d2,
                                } && u2.parts() == parts_g && d2 == domain_id);
                            }
                            Advance::NeedRobots { robots_url }
                        } else {
                            let (ok, reason) = self.is_url_crawlable(&url, domain_id);
                            proof {
                                assert(!robots_fetch_needed(store_g, domain_id));
                                assert(reason == verdict_spec(
                                    store_g,
                                    self.ignores_robots(),
                                    parts_g.full,
                                    parts_g.path,
                                    domain_id,
                                ));
                            }
                            if ok {
                                let asked = url.full.clone();
                                self.phase = Phase::AwaitingPage { url, domain_id };
                                proof {
                                    assert(self.store() == store_g);
                                    assert(domain_recorded(
                                        old(self).store(),
                                        self.store(),
                                        parts_g.host,
                                        domain_id,
                                    ));
                                    assert(self.phase() matches Phase::AwaitingPage {
                                        url: u2,
                                        domain_id: d2,
                                    } && u2.parts() == parts_g && d2 == domain_id);
                                }
                                Advance::NeedPage { url: asked }
                            } else {
                                Advance::Progressed { skipped: reason }
                            }
                        }
                    },
                }
            },
        }
    }

    /// Finishes the robots part of a step: records the fetched policy (or
    /// nothing, fail-open, when the fetch failed) and carries the step to
    /// the decision.
    pub fn supply_robots(&mut self, body: Option<&String>) -> (r: Advance)
        requires
            old(self).wf(),
            old(self).phase() matches Phase::AwaitingRobots { .. },
        ensures
            final(self).wf(),
            supply_robots_post(
                *old(self),
                *final(self),
                match body {
                    Some(text) => Some(text@),
                    None => None,
                },
                r,
            ),
    {
        let (url, domain_id) = match &self.phase {
            Phase::AwaitingRobots { url, domain_id } => (url.duplicate(), *domain_id),
            _ => unreached(),
        };
        let ghost pre_store = self.store();
        let ghost pats: Seq<Seq<char>> = match body {
            Some(text) => robots_patterns(text@, self.user_agent@),
            None => Seq::empty(),
        };
        match body {
            Some(text) => {
                let parsed = parse_robots(text.as_str(), self.user_agent.as_str());
                let n = parsed.len();
                let mut k: usize = 0;
                proof {
                    assert(self.store().patterns().take(pre_store.patterns().len() as int)
                        =~= pre_store.patterns());
                }
                while k < n
                    invariant
                        k <= n,
                        n == parsed.len(),
                        parsed.deep_view() == pats,
                        self.url_queue == old(self).url_queue,
                        self.phase == old(self).phase,
                        self.user_agent == old(self).user_agent,
                        self.ignore_robots == old(self).ignore_robots,
                        self.store().wf(),
                        forall|j: int|
                            0 <= j < k ==> self.store().has_pattern(
                                domain_id,
                                #[trigger] parsed.deep_view()[j],
                            ),
                        pre_store.patterns().len() <= self.store().patterns().len(),
                        self.store().patterns().take(pre_store.patterns().len() as int)
                            == pre_store.patterns(),
                        forall|j: int|
                            pre_store.patterns().len() <= j < self.store().patterns().len()
                                ==> (#[trigger] self.store().patterns()[j]).domain_id == domain_id
                                && pats.contains(self.store().patterns()[j].pattern@),
                        self.store().domains() == pre_store.domains(),
                        self.store().pages() == pre_store.pages(),
                        self.store().links() == pre_store.links(),
                        self.store().loaded() == pre_store.loaded(),
                    decreases n - k,
                {
                    let ghost snap = self.store();
                    self.store.record_disallowed_pattern(domain_id, &parsed[k]);
                    proof {
                        assert(parsed.deep_view()[k as int] == parsed[k as int]@);
                        assert(pats.contains(parsed.deep_view()[k as int])) by {
                            assert(pats[k as int] == parsed.deep_view()[k as int]);
                        }
                        if !snap.has_pattern(domain_id, parsed.deep_view()[k as int]) {
                            lemma_take_chain(
                                self.store().patterns(),
                                snap.patterns(),
                                pre_store.patterns().len() as int,
                            );
                        }
                        assert forall|j: int| 0 <= j < k + 1 implies self.store().has_pattern(
                            domain_id,
                            #[trigger] parsed.deep_view()[j],
                        ) by {
                            if j < k {
                                if snap.has_pattern(domain_id, parsed.deep_view()[k as int]) {
                                    assert(self.store().patterns() == snap.patterns());
                                    let w = choose|w: int|
                                        0 <= w < snap.patterns().len() && snap.patterns()[w].domain_id
                                            == domain_id && snap.patterns()[w].pattern@
                                            == parsed.deep_view()[j];
                                    assert(self.store().patterns()[w] == snap.patterns()[w]);
                                } else {
                                    lemma_has_pattern_preserved(
                                        snap,
                                        self.store(),
                                        domain_id,
                                        parsed.deep_view()[j],
                                    );
                                }
                            }
                        }
                        assert forall|j: int|
                            pre_store.patterns().len() <= j < self.store().patterns().len()
                            implies (#[trigger] self.store().patterns()[j]).domain_id == domain_id
                            && pats.contains(self.store().patterns()[j].pattern@) by {
                            if j < snap.patterns().len() {
                                assert(self.store().patterns().take(snap.patterns().len() as int)[j]
                                    == self.store().patterns()[j]);
                                assert(self.store().patterns()[j] == snap.patterns()[j]);
                            } else {
                                assert(self.store().patterns()[j] == self.store().patterns().last());
                            }
                        }
                    }
                    k += 1;
                }
                let ghost after_pats = self.store();
                self.store.mark_robots_loaded(domain_id);
                proof {
                    assert forall|p: Seq<char>| pats.contains(p) implies self.store().has_pattern(
                        domain_id,
                        p,
                    ) by {
                        let j = choose|j: int| 0 <= j < pats.len() && pats[j] == p;
                        assert(after_pats.has_pattern(domain_id, parsed.deep_view()[j]));
                        let w = choose|w: int|
                            0 <= w < after_pats.patterns().len()
                                && after_pats.patterns()[w].domain_id == domain_id
                                && after_pats.patterns()[w].pattern@ == p;
                        assert(self.store().patterns()[w] == after_pats.patterns()[w]);
                    }
                    assert(robots_recorded(pre_store, self.store(), domain_id, pats));
                }
            },
            None => {
                self.store.mark_robots_loaded(domain_id);
                proof {
                    assert(self.store().patterns().take(pre_store.patterns().len() as int)
                        =~= pre_store.patterns());
                    assert(robots_recorded(pre_store, self.store(), domain_id, pats));
                }
            },
        }
        proof {
            let w = choose|w: int|
                0 <= w < pre_store.domains().len() && pre_store.domains()[w].name@ == url.host@
                    && pre_store.domains()[w].id == domain_id;
            assert(self.store().domains()[w] == pre_store.domains()[w]);
            assert(self.store().domain_has_id(url.host@, domain_id));
        }
        let (ok, reason) = self.is_url_crawlable(&url, domain_id);
        if ok {
            let asked = url.full.clone();
            self.phase = Phase::AwaitingPage { url, domain_id };
            Advance::NeedPage { url: asked }
        } else {
            self.phase = Phase::Ready;
            Advance::Progressed { skipped: reason }
        }
    }

    /// Finishes the page part of a step: records the page keyed by its
    /// content digest, records every resolved link as an edge, and feeds the
    /// links that pass the decision into the frontier. A failed fetch
    /// records nothing.
    #[verifier::rlimit(50)]
    pub fn supply_page(&mut self, body: Option<&String>) -> (r: Advance)
        requires
            old(self).wf(),
            old(self).phase() matches Phase::AwaitingPage { .. },
            old(self).store().pages().len() < max_id(),
        ensures
            final(self).wf(),
            body is None ==> supply_page_failed_post(*old(self), *final(self), r),
            body matches Some(text) ==> (exists|mid: Store, id: i64|
                #[trigger] supply_page_ok_post(*old(self), *final(self), text@, r, mid, id)),
    {
        let (url, domain_id) = match &self.phase {
            Phase::AwaitingPage { url, domain_id } => (url.duplicate(), *domain_id),
            _ => unreached(),
        };
        self.phase = Phase::Ready;
        let text = match body {
            Some(text) => text,
            None => {
                return Advance::Progressed { skipped: Some(SkipReason::FetchFailed) };
            },
        };
        let hash = content_digest(text.as_str());
        let page_id = self.store.record_page(&url.full, &hash);
        let ghost mid = self.store();
        let ghost f0 = self.url_queue@;
        let hrefs = extract_hrefs(text.as_str());
        let n = hrefs.len();
        let mut k: usize = 0;
        proof {
            assert(hrefs.deep_view().take(0) =~= Seq::<Seq<char>>::empty());
            assert(self.store().links().take(mid.links().len() as int) =~= mid.links());
            assert(links_recorded(
                mid,
                self.store(),
                page_id,
                resolved_links(url.parts(), hrefs.deep_view().take(0)),
            ));
        }
        while k < n
            invariant
                k <= n,
                n == hrefs.len(),
                hrefs.deep_view() == hrefs_of(text@),
                self.phase() is Ready,
                self.user_agent == old(self).user_agent,
                self.ignore_robots == old(self).ignore_robots,
                no_dup(self.url_queue@),
                self.store().wf(),
                links_recorded(
                    mid,
                    self.store(),
                    page_id,
                    resolved_links(url.parts(), hrefs.deep_view().take(k as int)),
                ),
                self.url_queue@ == push_all_spec(
                    f0,
                    accepted_links(
                        mid,
                        self.ignore_robots,
                        url.parts(),
                        hrefs.deep_view().take(k as int),
                        domain_id,
                    ),
                ),
            decreases n - k,
        {
            let ghost dests_k = resolved_links(url.parts(), hrefs.deep_view().take(k as int));
            let ghost acc_k = accepted_links(
                mid,
                self.ignore_robots,
                url.parts(),
                hrefs.deep_view().take(k as int),
                domain_id,
            );
            proof {
                lemma_take_step_resolved(url.parts(), hrefs.deep_view(), k as int);
                lemma_take_step_accepted(
                    mid,
                    self.ignore_robots,
                    url.parts(),
                    hrefs.deep_view(),
                    k as int,
                    domain_id,
                );
                assert(hrefs.deep_view()[k as int] == hrefs[k as int]@);
            }
            match resolve_href(&url, hrefs[k].as_str()) {
                Some(link) => {
                    let ghost snap = self.store();
                    self.store.record_link(page_id, &link.full);
                    proof {
                        lemma_links_step(mid, snap, self.store(), page_id, dests_k, link.full@);
                    }
                    let (ok, _reason) = self.is_url_crawlable(&link, domain_id);
                    proof {
                        lemma_verdict_same_tables(
                            self.store(),
                            mid,
                            self.ignore_robots,
                            link.full@,
                            link.path@,
                            domain_id,
                        );
                        lemma_push_all_step(f0, acc_k, link.full@);
                    }
                    if ok {
                        self.url_queue.push(link.full);
                    }
                },
                None => {},
            }
            k += 1;
        }
        proof {
            assert(hrefs.deep_view().take(n as int) =~= hrefs.deep_view());
            assert(page_recorded(old(self).store(), mid, url.full@, digest_spec(text@), page_id));
            assert(links_recorded(
                mid,
                self.store(),
                page_id,
                resolved_links(url.parts(), hrefs_of(text@)),
            ));
            assert(supply_page_ok_post(
                *old(self),
                *self,
                text@,
                Advance::Progressed { skipped: None },
                mid,
                page_id,
            ));
        }
        Advance::Progressed { skipped: None }
    }
}

// ---------------------------------------------------------------------------
// Laws.
// ---------------------------------------------------------------------------
/// No re-fetch: once a page row has been recorded for a URL, the
/// crawlability decision for that exact URL is "already crawled", whatever
/// the robots configuration and whatever the domain's patterns say.
pub proof fn lemma_no_refetch(
    a: Store,
    b: Store,
    url: Seq<char>,
    hash: Seq<char>,
    id: i64,
    ignore_robots: bool,
    path: Seq<char>,
    domain_id: i64,
)
    requires
        page_recorded(a, b, url, hash, id),
    ensures
        verdict_spec(b, ignore_robots, url, path, domain_id) == Some(SkipReason::AlreadyCrawled),
{
    assert(b.pages()[b.pages().len() - 1].url@ == url);
    assert(b.has_page(url));
}

/// Fail-open robots: when a domain with no pattern rows has its robots.txt
/// fetch fail, the store gains no pattern row for it and every URL of that
/// domain that is not already crawled stays crawlable.
pub proof fn lemma_fail_open(
    a: Store,
    b: Store,
    domain_id: i64,
    ignore_robots: bool,
    full: Seq<char>,
    path: Seq<char>,
)
    requires
        robots_recorded(a, b, domain_id, Seq::<Seq<char>>::empty()),
        a.patterns_for(domain_id) == Seq::<Seq<char>>::empty(),
        !b.has_page(full),
    ensures
        b.patterns_for(domain_id) == Seq::<Seq<char>>::empty(),
        verdict_spec(b, ignore_robots, full, path, domain_id) is None,
{
    assert(b.patterns() =~= a.patterns()) by {
        if b.patterns().len() > a.patterns().len() {
            assert(Seq::<Seq<char>>::empty().contains(
                b.patterns()[a.patterns().len() as int].pattern@,
            ));
        }
        assert(forall|i: int|
            0 <= i < a.patterns().len() ==> b.patterns().take(a.patterns().len() as int)[i]
                == #[trigger] b.patterns()[i]);
    }
    assert(b.patterns_for(domain_id) == a.patterns_for(domain_id));
    assert(!path_disallowed(path, b.patterns_for(domain_id)));
}

/// Content addressing: two pages recorded with the same body carry the same
/// digest, so their rows name one and the same blob file.
pub proof fn lemma_two_pages_one_blob(
    a: Store,
    b: Store,
    c: Store,
    u1: Seq<char>,
    u2: Seq<char>,
    t: Seq<char>,
    i1: i64,
    i2: i64,
)
    requires
        page_recorded(a, b, u1, digest_spec(t), i1),
        page_recorded(b, c, u2, digest_spec(t), i2),
    ensures
        exists|j: int, k: int|
            0 <= j < k < c.pages().len() && c.pages()[j].url@ == u1 && c.pages()[k].url@ == u2
                && #[trigger] blob_name_spec(c.pages()[j].hash@) == #[trigger] blob_name_spec(
                c.pages()[k].hash@,
            ),
{
    let j = b.pages().len() - 1;
    let k = c.pages().len() - 1;
    assert(c.pages().take(b.pages().len() as int)[j] == c.pages()[j]);
    assert(c.pages()[j] == b.pages().last());
    assert(c.pages()[j].url@ == u1 && c.pages()[j].hash@ == digest_spec(t));
    assert(c.pages()[k].url@ == u2 && c.pages()[k].hash@ == digest_spec(t));
    assert(blob_name_spec(c.pages()[j].hash@) == blob_name_spec(c.pages()[k].hash@));
}

/// Exhaustion is terminal: a step taken on an empty frontier reports the
/// run exhausted and leaves the frontier empty, so every later step does
/// the same.
pub proof fn lemma_exhaustion_stable(pre: Crawler, post: Crawler, r: Advance)
    requires
        advance_post(pre, post, r),
        pre.frontier().len() == 0,
    ensures
        r is Exhausted,
        post.frontier().len() == 0,
{
}

} // verus!
