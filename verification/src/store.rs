//! The persistence layer's logical content: domains, pages, link edges,
//! disallowed patterns, and the set of domains whose robots.txt has been
//! handled this run.
//!
//! The store is the model that the crawl engine decides against. Every write
//! is insert-if-absent except page rows, which are created exactly once per
//! URL; identities are assigned densely from 1 in insertion order, as a
//! database's row ids would be. The surrounding program mirrors new rows to
//! durable storage after each step; a crash loses no committed row of this
//! model, only unprocessed frontier entries.

use crate::robots::path_disallowed;
use vstd::prelude::*;

verus! {

/// A registered host name with its durable identity.
pub struct DomainRow {
    pub id: i64,
    pub name: String,
}

/// A fetched page: its unique URL and the content digest naming its blob.
pub struct PageRow {
    pub id: i64,
    pub url: String,
    pub hash: String,
}

/// A link edge from a recorded page to a destination URL.
pub struct LinkRow {
    pub page_id: i64,
    pub url: String,
}

/// One disallow pattern recorded for a domain.
pub struct PatternRow {
    pub domain_id: i64,
    pub pattern: String,
}

/// The largest row identity the store will assign.
pub open spec fn max_id() -> int {
    0x7fff_ffff_ffff_ffff
}

/// The patterns among `rows` that belong to domain `d`, in insertion order.
pub open spec fn patterns_for_rec(rows: Seq<PatternRow>, d: i64) -> Seq<Seq<char>>
    decreases rows.len(),
{
    if rows.len() == 0 {
        Seq::empty()
    } else {
        let rest = patterns_for_rec(rows.drop_last(), d);
        if rows.last().domain_id == d {
            rest.push(rows.last().pattern@)
        } else {
            rest
        }
    }
}

/// Domain identities are dense from 1 and names are unique.
pub open spec fn domains_wf(rows: Seq<DomainRow>) -> bool {
    &&& (forall|k: int| 0 <= k < rows.len() ==> (#[trigger] rows[k]).id == k + 1)
    &&& (forall|i: int, j: int| 0 <= i < j < rows.len() ==> rows[i].name@ != rows[j].name@)
}

/// Page identities are dense from 1 and URLs are unique.
pub open spec fn pages_wf(rows: Seq<PageRow>) -> bool {
    &&& (forall|k: int| 0 <= k < rows.len() ==> (#[trigger] rows[k]).id == k + 1)
    &&& (forall|i: int, j: int| 0 <= i < j < rows.len() ==> rows[i].url@ != rows[j].url@)
}

/// Link edges are unique per (page, destination) pair.
pub open spec fn links_wf(rows: Seq<LinkRow>) -> bool {
    forall|i: int, j: int|
        0 <= i < j < rows.len() ==> !(rows[i].page_id == rows[j].page_id && rows[i].url@
            == rows[j].url@)
}

/// Pattern rows are unique per (domain, pattern) pair.
pub open spec fn patterns_wf(rows: Seq<PatternRow>) -> bool {
    forall|i: int, j: int|
        0 <= i < j < rows.len() ==> !(rows[i].domain_id == rows[j].domain_id && rows[i].pattern@
            == rows[j].pattern@)
}

/// Loaded marks are unique.
pub open spec fn loaded_wf(rows: Seq<i64>) -> bool {
    forall|i: int, j: int| 0 <= i < j < rows.len() ==> rows[i] != rows[j]
}

/// The in-memory model of the crawler's durable state.
pub struct Store {
    domains: Vec<DomainRow>,
    pages: Vec<PageRow>,
    links: Vec<LinkRow>,
    patterns: Vec<PatternRow>,
    robots_loaded: Vec<i64>,
}

impl Store {
    pub closed spec fn domains(&self) -> Seq<DomainRow> {
        self.domains@
    }

    pub closed spec fn pages(&self) -> Seq<PageRow> {
        self.pages@
    }

    pub closed spec fn links(&self) -> Seq<LinkRow> {
        self.links@
    }

    pub closed spec fn patterns(&self) -> Seq<PatternRow> {
        self.patterns@
    }

    pub closed spec fn loaded(&self) -> Seq<i64> {
        self.robots_loaded@
    }

    /// A domain row exists for `name`.
    pub open spec fn has_domain(&self, name: Seq<char>) -> bool {
        exists|k: int| 0 <= k < self.domains().len() && self.domains()[k].name@ == name
    }

    /// The domain row for `name` carries identity `id`.
    pub open spec fn domain_has_id(&self, name: Seq<char>, id: i64) -> bool {
        exists|k: int|
            0 <= k < self.domains().len() && self.domains()[k].name@ == name
                && self.domains()[k].id == id
    }

    /// A page row exists for the exact normalized URL.
    pub open spec fn has_page(&self, url: Seq<char>) -> bool {
        exists|k: int| 0 <= k < self.pages().len() && self.pages()[k].url@ == url
    }

    /// A link edge exists for the pair.
    pub open spec fn has_link(&self, page_id: i64, url: Seq<char>) -> bool {
        exists|k: int|
            0 <= k < self.links().len() && self.links()[k].page_id == page_id
                && self.links()[k].url@ == url
    }

    /// A pattern row exists for the pair.
    pub open spec fn has_pattern(&self, domain_id: i64, pattern: Seq<char>) -> bool {
        exists|k: int|
            0 <= k < self.patterns().len() && self.patterns()[k].domain_id == domain_id
                && self.patterns()[k].pattern@ == pattern
    }

    /// The disallow patterns recorded for domain `d`, in insertion order.
    pub open spec fn patterns_for(&self, d: i64) -> Seq<Seq<char>> {
        patterns_for_rec(self.patterns(), d)
    }

    /// robots.txt has been handled for domain `d` during this run.
    pub open spec fn robots_loaded_for(&self, d: i64) -> bool {
        self.loaded().contains(d)
    }

    /// Well-formedness: each table is well formed on its own.
    pub open spec fn wf(&self) -> bool {
        &&& domains_wf(self.domains())
        &&& pages_wf(self.pages())
        &&& links_wf(self.links())
        &&& patterns_wf(self.patterns())
        &&& loaded_wf(self.loaded())
    }

    /// Creates an empty store.
    pub fn new() -> (s: Store)
        ensures
            s.wf(),
            s.domains() == Seq::<DomainRow>::empty(),
            s.pages() == Seq::<PageRow>::empty(),
            s.links() == Seq::<LinkRow>::empty(),
            s.patterns() == Seq::<PatternRow>::empty(),
            s.loaded() == Seq::<i64>::empty(),
    {
        let s = Store {
            domains: Vec::new(),
            pages: Vec::new(),
            links: Vec::new(),
            patterns: Vec::new(),
            robots_loaded: Vec::new(),
        };
        proof {
            assert(s.domains() =~= Seq::<DomainRow>::empty());
            assert(s.pages() =~= Seq::<PageRow>::empty());
            assert(s.links() =~= Seq::<LinkRow>::empty());
            assert(s.patterns() =~= Seq::<PatternRow>::empty());
            assert(s.loaded() =~= Seq::<i64>::empty());
        }
        s
    }

    /// Looks up the identity of an already-recorded domain.
    pub fn get_domain_id(&self, name: &String) -> (r: Option<i64>)
        ensures
            match r {
                Some(id) => self.domain_has_id(name@, id),
                None => !self.has_domain(name@),
            },
    {
        let n = self.domains.len();
        let mut k: usize = 0;
        while k < n
            invariant
                k <= n,
                n == self.domains().len(),
                forall|j: int| 0 <= j < k ==> self.domains()[j].name@ != name@,
            decreases n - k,
        {
            if self.domains[k].name == *name {
                return Some(self.domains[k].id);
            }
            k += 1;
        }
        None
    }

    /// Records the domain if absent and returns its identity; idempotent.
    pub fn record_domain(&mut self, name: &String) -> (id: i64)
        requires
            old(self).wf(),
            old(self).domains().len() < max_id(),
        ensures
            final(self).wf(),
            final(self).domain_has_id(name@, id),
            old(self).has_domain(name@) ==> final(self).domains() == old(self).domains(),
            !old(self).has_domain(name@) ==> (final(self).domains().len() == old(self).domains().len()
                + 1 && final(self).domains().take(old(self).domains().len() as int)
                == old(self).domains() && final(self).domains().last().name@ == name@ && id
                == old(self).domains().len() + 1),
            final(self).pages() == old(self).pages(),
            final(self).links() == old(self).links(),
            final(self).patterns() == old(self).patterns(),
            final(self).loaded() == old(self).loaded(),
    {
        match self.get_domain_id(name) {
            Some(id) => id,
            None => {
                let id = self.domains.len() as i64 + 1;
                let ghost before = self.domains();
                self.domains.push(DomainRow { id, name: name.clone() });
                proof {
                    assert(forall|j: int|
                        0 <= j < before.len() ==> self.domains()[j] == #[trigger] before[j]);
                    assert(self.domains().take(before.len() as int) =~= before);
                    assert(self.domains()[before.len() as int].name@ == name@);
                    assert(self.domains()[before.len() as int].id == before.len() + 1);
                    assert forall|i: int, j: int|
                        0 <= i < j < self.domains().len() implies self.domains()[i].name@
                        != self.domains()[j].name@ by {
                        if j == before.len() {
                            assert(self.domains()[i] == before[i]);
                            assert(old(self).domains()[i].name@ != name@);
                        }
                    }
                    assert forall|k: int|
                        0 <= k < self.domains().len() implies (#[trigger] self.domains()[k]).id == k
                        + 1 by {
                        if k < before.len() {
                            assert(self.domains()[k] == before[k]);
                        }
                    }
                }
                id
            },
        }
    }

    /// Reports whether a page row exists for the exact URL: such a URL has
    /// already been crawled and is never fetched again.
    pub fn is_url_crawled(&self, url: &String) -> (r: bool)
        ensures
            r == self.has_page(url@),
    {
        let n = self.pages.len();
        let mut k: usize = 0;
        while k < n
            invariant
                k <= n,
                n == self.pages().len(),
                forall|j: int| 0 <= j < k ==> self.pages()[j].url@ != url@,
            decreases n - k,
        {
            if self.pages[k].url == *url {
                proof {
                    assert(self.pages()[k as int].url@ == url@);
                }
                return true;
            }
            k += 1;
        }
        false
    }

    /// Records a page row for a URL fetched for the first time, keyed by its
    /// content digest, and returns the new page identity.
    pub fn record_page(&mut self, url: &String, hash: &String) -> (id: i64)
        requires
            old(self).wf(),
            old(self).pages().len() < max_id(),
            !old(self).has_page(url@),
        ensures
            final(self).wf(),
            final(self).pages().len() == old(self).pages().len() + 1,
            final(self).pages().take(old(self).pages().len() as int) == old(self).pages(),
            final(self).pages().last().id == id,
            final(self).pages().last().url@ == url@,
            final(self).pages().last().hash@ == hash@,
            id == old(self).pages().len() + 1,
            final(self).has_page(url@),
            final(self).domains() == old(self).domains(),
            final(self).links() == old(self).links(),
            final(self).patterns() == old(self).patterns(),
            final(self).loaded() == old(self).loaded(),
    {
        let id = self.pages.len() as i64 + 1;
        let ghost before = self.pages();
        self.pages.push(PageRow { id, url: url.clone(), hash: hash.clone() });
        proof {
            assert(forall|j: int| 0 <= j < before.len() ==> self.pages()[j] == #[trigger] before[j]);
            assert(self.pages().take(before.len() as int) =~= before);
            assert(self.pages()[before.len() as int].url@ == url@);
            assert(self.pages()[before.len() as int].id == before.len() + 1);
            assert forall|i: int, j: int|
                0 <= i < j < self.pages().len() implies self.pages()[i].url@
                != self.pages()[j].url@ by {
                if j == before.len() {
                    assert(self.pages()[i] == before[i]);
                    assert(old(self).pages()[i].url@ != url@);
                }
            }
            assert forall|k: int|
                0 <= k < self.pages().len() implies (#[trigger] self.pages()[k]).id == k + 1 by {
                if k < before.len() {
                    assert(self.pages()[k] == before[k]);
                }
            }
        }
        id
    }

    /// Reports whether a link edge is already recorded.
    fn has_link_exec(&self, page_id: i64, url: &String) -> (r: bool)
        ensures
            r == self.has_link(page_id, url@),
    {
        let n = self.links.len();
        let mut k: usize = 0;
        while k < n
            invariant
                k <= n,
                n == self.links().len(),
                forall|j: int|
                    0 <= j < k ==> !((#[trigger] self.links()[j]).page_id == page_id
                        && self.links()[j].url@ == url@),
            decreases n - k,
        {
            if self.links[k].page_id == page_id && self.links[k].url == *url {
                proof {
                    assert(self.links()[k as int].page_id == page_id && self.links()[k as int].url@
                        == url@);
                }
                return true;
            }
            k += 1;
        }
        false
    }

    /// Records a link edge if absent; idempotent.
    pub fn record_link(&mut self, page_id: i64, url: &String)
        requires
            old(self).wf(),
        ensures
            final(self).wf(),
            final(self).has_link(page_id, url@),
            old(self).has_link(page_id, url@) ==> final(self).links() == old(self).links(),
            !old(self).has_link(page_id, url@) ==> (final(self).links().len() == old(self).links().len()
                + 1 && final(self).links().take(old(self).links().len() as int)
                == old(self).links() && final(self).links().last().page_id == page_id && final(self).links().last().url@
                == url@),
            final(self).domains() == old(self).domains(),
            final(self).pages() == old(self).pages(),
            final(self).patterns() == old(self).patterns(),
            final(self).loaded() == old(self).loaded(),
    {
        if self.has_link_exec(page_id, url) {
            return ;
        }
        let ghost before = self.links();
        self.links.push(LinkRow { page_id, url: url.clone() });
        proof {
            assert(forall|j: int| 0 <= j < before.len() ==> self.links()[j] == #[trigger] before[j]);
            assert(self.links().take(before.len() as int) =~= before);
            assert(self.links()[before.len() as int].page_id == page_id);
            assert(self.links()[before.len() as int].url@ == url@);
            assert forall|i: int, j: int|
                0 <= i < j < self.links().len() implies !(self.links()[i].page_id
                == self.links()[j].page_id && self.links()[i].url@ == self.links()[j].url@) by {
                if j == before.len() {
                    assert(self.links()[i] == before[i]);
                    assert(!(old(self).links()[i].page_id == page_id && old(self).links()[i].url@
                        == url@));
                }
            }
        }
    }

    /// Reports whether a disallow pattern is already recorded for a domain.
    fn has_pattern_exec(&self, domain_id: i64, pattern: &String) -> (r: bool)
        ensures
            r == self.has_pattern(domain_id, pattern@),
    {
        let n = self.patterns.len();
        let mut k: usize = 0;
        while k < n
            invariant
                k <= n,
                n == self.patterns().len(),
                forall|j: int|
                    0 <= j < k ==> !((#[trigger] self.patterns()[j]).domain_id == domain_id
                        && self.patterns()[j].pattern@ == pattern@),
            decreases n - k,
        {
            if self.patterns[k].domain_id == domain_id && self.patterns[k].pattern == *pattern {
                proof {
                    assert(self.patterns()[k as int].domain_id == domain_id
                        && self.patterns()[k as int].pattern@ == pattern@);
                }
                return true;
            }
            k += 1;
        }
        false
    }

    /// Records a disallow pattern for a domain if absent; repeated parses of
    /// the same robots.txt add no second row.
    pub fn record_disallowed_pattern(&mut self, domain_id: i64, pattern: &String)
        requires
            old(self).wf(),
        ensures
            final(self).wf(),
            final(self).has_pattern(domain_id, pattern@),
            old(self).has_pattern(domain_id, pattern@) ==> final(self).patterns() == old(self).patterns(),
            !old(self).has_pattern(domain_id, pattern@) ==> (final(self).patterns().len()
                == old(self).patterns().len() + 1 && final(self).patterns().take(
                old(self).patterns().len() as int,
            ) == old(self).patterns() && final(self).patterns().last().domain_id == domain_id
                && final(self).patterns().last().pattern@ == pattern@),
            final(self).domains() == old(self).domains(),
            final(self).pages() == old(self).pages(),
            final(self).links() == old(self).links(),
            final(self).loaded() == old(self).loaded(),
    {
        if self.has_pattern_exec(domain_id, pattern) {
            return ;
        }
        let ghost before = self.patterns();
        self.patterns.push(PatternRow { domain_id, pattern: pattern.clone() });
        proof {
            assert(forall|j: int|
                0 <= j < before.len() ==> self.patterns()[j] == #[trigger] before[j]);
            assert(self.patterns().take(before.len() as int) =~= before);
            assert(self.patterns()[before.len() as int].domain_id == domain_id);
            assert(self.patterns()[before.len() as int].pattern@ == pattern@);
            assert forall|i: int, j: int|
                0 <= i < j < self.patterns().len() implies !(self.patterns()[i].domain_id
                == self.patterns()[j].domain_id && self.patterns()[i].pattern@
                == self.patterns()[j].pattern@) by {
                if j == before.len() {
                    assert(self.patterns()[i] == before[i]);
                    assert(!(old(self).patterns()[i].domain_id == domain_id && old(
                        self,
                    ).patterns()[i].pattern@ == pattern@));
                }
            }
        }
    }

    /// Reports whether robots.txt has been handled for a domain this run.
    pub fn robots_loaded_contains(&self, domain_id: i64) -> (r: bool)
        ensures
            r == self.robots_loaded_for(domain_id),
    {
        let n = self.robots_loaded.len();
        let mut k: usize = 0;
        while k < n
            invariant
                k <= n,
                n == self.loaded().len(),
                forall|j: int| 0 <= j < k ==> self.loaded()[j] != domain_id,
            decreases n - k,
        {
            if self.robots_loaded[k] == domain_id {
                proof {
                    assert(self.loaded()[k as int] == domain_id);
                }
                return true;
            }
            k += 1;
        }
        false
    }

    /// Marks robots.txt as handled for a domain this run; idempotent.
    pub fn mark_robots_loaded(&mut self, domain_id: i64)
        requires
            old(self).wf(),
        ensures
            final(self).wf(),
            forall|d: i64|
                #[trigger] final(self).robots_loaded_for(d) == (old(self).robots_loaded_for(d) || d
                    == domain_id),
            final(self).domains() == old(self).domains(),
            final(self).pages() == old(self).pages(),
            final(self).links() == old(self).links(),
            final(self).patterns() == old(self).patterns(),
    {
        if self.robots_loaded_contains(domain_id) {
            return ;
        }
        let ghost before = self.loaded();
        self.robots_loaded.push(domain_id);
        proof {
            assert(forall|j: int|
                0 <= j < before.len() ==> self.loaded()[j] == #[trigger] before[j]);
            assert(self.loaded()[before.len() as int] == domain_id);
            assert forall|i: int, j: int|
                0 <= i < j < self.loaded().len() implies self.loaded()[i] != self.loaded()[j] by {
                if j == before.len() {
                    assert(self.loaded()[i] == before[i]);
                    assert(old(self).loaded()[i] != domain_id);
                }
            }
            assert forall|d: i64| #[trigger]
                self.robots_loaded_for(d) == (before.contains(d) || d == domain_id) by {
                if before.contains(d) {
                    let j = choose|j: int| 0 <= j < before.len() && before[j] == d;
                    assert(self.loaded()[j] == d);
                    assert(self.loaded().contains(d));
                } else if d == domain_id {
                    assert(self.loaded().contains(d));
                } else {
                    if self.loaded().contains(d) {
                        let j = choose|j: int|
                            0 <= j < self.loaded().len() && self.loaded()[j] == d;
                        assert(j == before.len() || before[j] == d);
                        assert(false);
                    }
                }
            }
        }
    }

    /// Collects the disallow patterns recorded for a domain.
    pub fn disallowed_patterns_for(&self, domain_id: i64) -> (r: Vec<String>)
        ensures
            r.deep_view() == self.patterns_for(domain_id),
    {
        let n = self.patterns.len();
        let mut collected: Vec<String> = Vec::new();
        let mut k: usize = 0;
        proof {
            assert(self.patterns().take(0) =~= Seq::<PatternRow>::empty());
            assert(collected.deep_view() =~= Seq::<Seq<char>>::empty());
        }
        while k < n
            invariant
                k <= n,
                n == self.patterns().len(),
                collected.deep_view() =~= patterns_for_rec(
                    self.patterns().take(k as int),
                    domain_id,
                ),
            decreases n - k,
        {
            let ghost pre = collected.deep_view();
            proof {
                lemma_patterns_for_take_step(self.patterns(), domain_id, k as int);
            }
            if self.patterns[k].domain_id == domain_id {
                collected.push(self.patterns[k].pattern.clone());
                proof {
                    assert(collected.deep_view() =~= pre.push(self.patterns()[k as int].pattern@));
                }
            }
            k += 1;
        }
        proof {
            assert(self.patterns().take(n as int) =~= self.patterns());
        }
        collected
    }

    /// The number of domain rows.
    pub fn domains_len(&self) -> (r: usize)
        ensures
            r == self.domains().len(),
    {
        self.domains.len()
    }

    /// The domain row at an index, oldest first.
    pub fn domain_at(&self, k: usize) -> (r: (i64, String))
        requires
            k < self.domains().len(),
        ensures
            r.0 == self.domains()[k as int].id,
            r.1@ == self.domains()[k as int].name@,
    {
        (self.domains[k].id, self.domains[k].name.clone())
    }

    /// The number of page rows.
    pub fn pages_len(&self) -> (r: usize)
        ensures
            r == self.pages().len(),
    {
        self.pages.len()
    }

    /// The page row at an index, oldest first: identity, URL, digest.
    pub fn page_at(&self, k: usize) -> (r: (i64, String, String))
        requires
            k < self.pages().len(),
        ensures
            r.0 == self.pages()[k as int].id,
            r.1@ == self.pages()[k as int].url@,
            r.2@ == self.pages()[k as int].hash@,
    {
        (self.pages[k].id, self.pages[k].url.clone(), self.pages[k].hash.clone())
    }

    /// The number of link rows.
    pub fn links_len(&self) -> (r: usize)
        ensures
            r == self.links().len(),
    {
        self.links.len()
    }

    /// The link row at an index, oldest first: page identity, destination.
    pub fn link_at(&self, k: usize) -> (r: (i64, String))
        requires
            k < self.links().len(),
        ensures
            r.0 == self.links()[k as int].page_id,
            r.1@ == self.links()[k as int].url@,
    {
        (self.links[k].page_id, self.links[k].url.clone())
    }

    /// The number of pattern rows.
    pub fn patterns_len(&self) -> (r: usize)
        ensures
            r == self.patterns().len(),
    {
        self.patterns.len()
    }

    /// The pattern row at an index, oldest first: domain identity, pattern.
    pub fn pattern_at(&self, k: usize) -> (r: (i64, String))
        requires
            k < self.patterns().len(),
        ensures
            r.0 == self.patterns()[k as int].domain_id,
            r.1@ == self.patterns()[k as int].pattern@,
    {
        (self.patterns[k].domain_id, self.patterns[k].pattern.clone())
    }

    /// Assembles a domain's blocked list for the crawlability check.
    pub fn get_blocked_list(&self, domain_id: i64) -> (r: BlockedList)
        ensures
            r.root_id == domain_id,
            r.sub_url.deep_view() == self.patterns_for(domain_id),
    {
        BlockedList { root_id: domain_id, sub_url: self.disallowed_patterns_for(domain_id) }
    }
}

/// One step of collecting a domain's patterns row by row.
proof fn lemma_patterns_for_take_step(rows: Seq<PatternRow>, d: i64, k: int)
    requires
        0 <= k < rows.len(),
    ensures
        patterns_for_rec(rows.take(k + 1), d) == if rows[k].domain_id == d {
            patterns_for_rec(rows.take(k), d).push(rows[k].pattern@)
        } else {
            patterns_for_rec(rows.take(k), d)
        },
{
    let t = rows.take(k + 1);
    assert(t.drop_last() =~= rows.take(k));
    assert(t.last() == rows[k]);
}

/// A domain's disallow patterns, assembled once for a crawlability check.
pub struct BlockedList {
    pub root_id: i64,
    pub sub_url: Vec<String>,
}

/// Tests a URL path against an assembled blocked list.
pub fn check_blocked_list(path: &str, list: &BlockedList) -> (r: bool)
    ensures
        r == path_disallowed(path@, list.sub_url.deep_view()),
{
    crate::robots::is_path_disallowed(path, &list.sub_url)
}

} // verus!
