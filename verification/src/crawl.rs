//! The crawl engine: which pages were fetched, which are broken, and which
//! are fetched next.
//!
//! The engine does not fetch. It hands out a URL of the current round, the
//! caller fetches it and records what came back, and the engine works out
//! what that adds to the next round. When the last URL of a round is
//! recorded, the links found in that round become the next one; the crawl is
//! done when a round finds nothing new.

use vstd::prelude::*;
use crate::links::{
    all_normalizable,
    anchor_hrefs,
    get_links_from_raw_html,
    lemma_links_finite,
    page_links,
};
use crate::normalize::{base_error, format_url, seed_of, UrlError};
use crate::url_parts::parsed_url;
use crate::url_set::UrlSet;

verus! {

/// What a fetch came back with.
#[derive(Clone, Debug, PartialEq, Eq)]
pub enum FetchOutcome {
    /// The server answered.
    Response { status: u16, body: String },
    /// No answer could be had: the transport failed.
    Failed,
}

/// What the engine reports of one recorded fetch.
#[derive(Clone, Debug, PartialEq, Eq)]
pub struct Observation {
    /// The page that was fetched.
    pub url: String,
    /// The status of the answer, if there was one.
    pub status: Option<u16>,
    /// Whether the page passed; if not, it is now among the broken links.
    pub ok: bool,
    /// How many links of the page had not been visited before.
    pub reconciled: usize,
}

/// Why a fetch could not be recorded.
#[derive(Clone, Copy, Debug, PartialEq, Eq)]
pub enum CrawlError {
    /// The URL is not among those to be fetched in this round.
    NotPending,
    /// The page has a link that its URL cannot be the base of.
    Base(UrlError),
}

/// The state of a crawl, as sets of URLs.
pub ghost struct CrawlState {
    /// The pages fetched so far.
    pub visited: Set<Seq<char>>,
    /// The pages whose fetch did not succeed.
    pub broken: Set<Seq<char>>,
    /// The pages of the current round that are yet to be fetched.
    pub pending: Set<Seq<char>>,
    /// The pages found in the current round: the next round.
    pub upcoming: Set<Seq<char>>,
    /// The number of rounds completed.
    pub rounds: nat,
}

impl CrawlState {
    /// No crawl under way: nothing was fetched, nothing is to be fetched, and
    /// no round is complete.
    pub open spec fn idle() -> CrawlState {
        CrawlState {
            visited: Set::empty(),
            broken: Set::empty(),
            pending: Set::empty(),
            upcoming: Set::empty(),
            rounds: 0,
        }
    }

    /// A crawl before its first fetch: the seed is all there is to fetch.
    pub open spec fn start(seed: Seq<char>) -> CrawlState {
        CrawlState {
            visited: Set::empty(),
            broken: Set::empty(),
            pending: Set::empty().insert(seed),
            upcoming: Set::empty(),
            rounds: 0,
        }
    }

    /// No page is left to fetch.
    pub open spec fn is_done(self) -> bool {
        self.pending.is_empty()
    }

    /// What holds of every crawl: a page is in at most one of the visited
    /// pages, the current round and the next one; only visited pages are
    /// broken; while a round runs, and only then, there may be a next one;
    /// and every completed round fetched a page.
    pub open spec fn inv(self) -> bool {
        &&& self.visited.finite()
        &&& self.pending.finite()
        &&& self.upcoming.finite()
        &&& self.broken.subset_of(self.visited)
        &&& self.pending.disjoint(self.visited)
        &&& self.upcoming.disjoint(self.visited)
        &&& self.upcoming.disjoint(self.pending)
        &&& self.pending.is_empty() ==> self.upcoming.is_empty()
        &&& self.rounds <= self.visited.len()
    }

    /// The links of a page that were not visited when the page had been
    /// fetched.
    pub open spec fn fresh(self, url: Seq<char>, links: Set<Seq<char>>) -> Set<Seq<char>> {
        links.difference(self.visited.insert(url))
    }

    /// The state after the fetch of `url` is recorded, where `found` holds
    /// the links of the page, or is `None` for a fetch that did not succeed.
    ///
    /// The page counts as visited either way. Its links that were not
    /// visited go to the next round, but for those that are still to be
    /// fetched in this round: they will have been visited when the round
    /// ends. With the last page of the round, the next round begins: it is
    /// what the round found, less what has been visited.
    pub open spec fn after(self, url: Seq<char>, found: Option<Set<Seq<char>>>) -> CrawlState {
        let visited = self.visited.insert(url);
        let pending = self.pending.remove(url);
        let broken = if found is None {
            self.broken.insert(url)
        } else {
            self.broken
        };
        let upcoming = match found {
            Some(links) => self.upcoming.union(self.fresh(url, links).difference(pending)),
            None => self.upcoming,
        };
        if pending.is_empty() {
            CrawlState {
                visited,
                broken,
                pending: upcoming,
                upcoming: Set::empty(),
                rounds: self.rounds + 1,
            }
        } else {
            CrawlState { visited, broken, pending, upcoming, rounds: self.rounds }
        }
    }
}

/// The one status that counts as success.
pub const STATUS_OK: u16 = 200;

/// Whether a response with this status passes: only 200 does; a redirect or
/// any other status makes the link a broken one.
pub fn is_ok(status: u16) -> (ok: bool)
    ensures
        ok == (status == STATUS_OK),
{
    status == STATUS_OK
}

impl FetchOutcome {
    /// The status of the answer, if there was one.
    pub open spec fn status(self) -> Option<u16> {
        match self {
            FetchOutcome::Response { status, .. } => Some(status),
            FetchOutcome::Failed => None,
        }
    }

    /// Whether the fetch succeeded: the server answered with status 200.
    pub open spec fn passed(self) -> bool {
        self.status() == Some(STATUS_OK)
    }

    /// The links that the fetch of `url` brought: those of the page where the
    /// fetch succeeded, `None` where it did not.
    pub open spec fn found_on(self, url: Seq<char>) -> Option<Set<Seq<char>>> {
        match self {
            FetchOutcome::Response { status, body } => if status == STATUS_OK {
                Some(page_links(url, body@))
            } else {
                None
            },
            FetchOutcome::Failed => None,
        }
    }

    /// Whether the links of what came back can be read with `url` as their
    /// base: nothing is read of a fetch that did not succeed.
    pub open spec fn readable_from(self, url: Seq<char>) -> bool {
        match self {
            FetchOutcome::Response { status, body } => status == STATUS_OK ==> all_normalizable(
                url,
                anchor_hrefs(body@),
            ),
            FetchOutcome::Failed => true,
        }
    }
}

/// A crawl of one host.
pub struct Crawl {
    visited: UrlSet,
    broken: UrlSet,
    pending: UrlSet,
    upcoming: UrlSet,
    rounds: usize,
}

impl View for Crawl {
    type V = CrawlState;

    closed spec fn view(&self) -> CrawlState {
        CrawlState {
            visited: self.visited@,
            broken: self.broken@,
            pending: self.pending@,
            upcoming: self.upcoming@,
            rounds: self.rounds as nat,
        }
    }
}

impl Crawl {
    #[verifier::type_invariant]
    spec fn consistent(self) -> bool {
        self@.inv()
    }

    /// The crawl that is not under way: it holds no page at all, and stands
    /// in for a crawl while its state is rebuilt.
    fn idle() -> (crawl: Crawl)
        ensures
            crawl@ == CrawlState::idle(),
    {
        let crawl = Crawl {
            visited: UrlSet::new(),
            broken: UrlSet::new(),
            pending: UrlSet::new(),
            upcoming: UrlSet::new(),
            rounds: 0,
        };
        crawl
    }

    /// A crawl that begins at `seed`, taken as it is.
    pub fn new(seed: String) -> (crawl: Crawl)
        ensures
            crawl@ == CrawlState::start(seed@),
    {
        let mut pending = UrlSet::new();
        pending.insert(seed);
        let crawl = Crawl {
            visited: UrlSet::new(),
            broken: UrlSet::new(),
            pending,
            upcoming: UrlSet::new(),
            rounds: 0,
        };
        crawl
    }

    /// A crawl that begins at the root of the domain of `url`; fails, with
    /// nothing to fetch, where `url` does not parse or has no domain.
    pub fn start(url: &str) -> (crawl: Result<Crawl, UrlError>)
        ensures
            match crawl {
                Ok(begun) => seed_of(parsed_url(url@)) matches Ok(seed) && begun@
                    == CrawlState::start(seed),
                Err(error) => seed_of(parsed_url(url@)) == Err::<Seq<char>, UrlError>(error),
            },
    {
        match format_url(url) {
            Ok(seed) => Ok(Crawl::new(seed)),
            Err(error) => Err(error),
        }
    }

    /// Whether no page is left to fetch.
    pub fn is_done(&self) -> (done: bool)
        ensures
            done == self@.is_done(),
            self@.inv(),
    {
        proof {
            use_type_invariant(self);
        }
        self.pending.is_empty()
    }

    /// A page of the current round that is yet to be fetched: none when the
    /// crawl is done. It has not been fetched before.
    pub fn next_url(&self) -> (next: Option<String>)
        ensures
            self@.inv(),
            match next {
                Some(url) => self@.pending.contains(url@) && !self@.visited.contains(url@),
                None => self@.is_done(),
            },
    {
        proof {
            use_type_invariant(self);
        }
        let waiting = self.pending.urls();
        if waiting.len() == 0 {
            assert(self@.pending =~= Set::<Seq<char>>::empty());
            None
        } else {
            let url = waiting[0].clone();
            assert(waiting.deep_view()[0] == url@);
            Some(url)
        }
    }

    /// The pages fetched so far.
    pub fn visited(&self) -> (set: &UrlSet)
        ensures
            set@ == self@.visited,
    {
        &self.visited
    }

    /// The pages whose fetch did not succeed.
    pub fn broken(&self) -> (set: &UrlSet)
        ensures
            set@ == self@.broken,
    {
        &self.broken
    }

    /// The pages of the current round that are yet to be fetched.
    pub fn pending(&self) -> (set: &UrlSet)
        ensures
            set@ == self@.pending,
    {
        &self.pending
    }

    /// The number of rounds completed; never more than the pages fetched.
    pub fn rounds(&self) -> (rounds: usize)
        ensures
            rounds == self@.rounds,
            rounds <= self@.visited.len(),
    {
        proof {
            use_type_invariant(self);
        }
        self.rounds
    }

    /// Records what the fetch of `url` came back with.
    ///
    /// Fails, and changes nothing, where `url` is not a page of the current
    /// round, or where the fetch succeeded and the page has a link that `url`
    /// cannot be the base of. Otherwise the crawl moves on as
    /// [`CrawlState::after`] says, and the result tells what was observed.
    pub fn record(&mut self, url: &String, outcome: &FetchOutcome) -> (result: Result<
        Observation,
        CrawlError,
    >)
        ensures
            match result {
                Ok(seen) => {
                    &&& old(self)@.pending.contains(url@)
                    &&& outcome.readable_from(url@)
                    &&& final(self)@ == old(self)@.after(url@, outcome.found_on(url@))
                    &&& seen.url@ == url@
                    &&& seen.status == outcome.status()
                    &&& seen.ok == outcome.passed()
                    &&& seen.reconciled == match outcome.found_on(url@) {
                        Some(links) => old(self)@.fresh(url@, links).len(),
                        None => 0,
                    }
                },
                Err(CrawlError::NotPending) => {
                    &&& !old(self)@.pending.contains(url@)
                    &&& *final(self) == *old(self)
                },
                Err(CrawlError::Base(error)) => {
                    &&& old(self)@.pending.contains(url@)
                    &&& !outcome.readable_from(url@)
                    &&& error == base_error(url@)
                    &&& *final(self) == *old(self)
                },
            },
    {
        proof {
            use_type_invariant(&*self);
        }
        if !self.pending.contains(url) {
            return Err(CrawlError::NotPending);
        }
        let (status, links) = match outcome {
            FetchOutcome::Response { status, body } => {
                if is_ok(*status) {
                    match get_links_from_raw_html(url.as_str(), body.as_str()) {
                        Ok(set) => (Some(*status), Some(set)),
                        Err(error) => {
                            return Err(CrawlError::Base(error));
                        },
                    }
                } else {
                    (Some(*status), None)
                }
            },
            FetchOutcome::Failed => (None, None),
        };
        let ghost before = self@;
        let ghost found = outcome.found_on(url@);
        let mut state = Crawl::idle();
        std::mem::swap(self, &mut state);
        let Crawl { mut visited, mut broken, mut pending, mut upcoming, mut rounds } = state;
        visited.insert(url.clone());
        pending.remove(url);
        let reconciled = match &links {
            Some(set) => {
                let fresh = set.difference(&visited);
                let wanted = fresh.difference(&pending);
                upcoming.extend(&wanted);
                proof {
                    lemma_links_finite(url@, anchor_hrefs(outcome->body@));
                }
                fresh.len()
            },
            None => {
                broken.insert(url.clone());
                0
            },
        };
        let ok = links.is_some();
        proof {
            lemma_after_keeps_inv(before, url@, found);
        }
        if pending.is_empty() {
            proof {
                visited.lemma_finite();
            }
            pending = upcoming;
            upcoming = UrlSet::new();
            rounds = rounds + 1;
        }
        *self = Crawl { visited, broken, pending, upcoming, rounds };
        Ok(Observation { url: url.clone(), status, ok, reconciled })
    }
}

/// A crawl that has not fetched anything is in order.
pub proof fn lemma_start_inv(seed: Seq<char>)
    ensures
        CrawlState::start(seed).inv(),
{
    let begun = CrawlState::start(seed);
    assert(!begun.pending.is_empty()) by {
        assert(begun.pending.contains(seed));
    }
}

/// Recording a fetch of a pending page keeps the crawl in order, and the
/// page is one more visited page.
pub proof fn lemma_after_keeps_inv(state: CrawlState, url: Seq<char>, found: Option<Set<Seq<char>>>)
    requires
        state.inv(),
        state.pending.contains(url),
        found matches Some(links) ==> links.finite(),
    ensures
        state.after(url, found).inv(),
        state.after(url, found).visited == state.visited.insert(url),
        state.after(url, found).visited.len() == state.visited.len() + 1,
        state.broken.subset_of(state.after(url, found).broken),
{
    let next = state.after(url, found);
    let pending = state.pending.remove(url);
    assert(!state.visited.contains(url));
    if pending.is_empty() {
        assert(next.upcoming.is_empty());
    } else {
        let other = choose|other: Seq<char>| pending.contains(other);
        assert(next.pending.contains(other));
    }
}

/// One recorded fetch: the page, and the links it brought, or `None` for a
/// fetch that did not succeed.
pub ghost struct Fetch {
    pub url: Seq<char>,
    pub found: Option<Set<Seq<char>>>,
}

/// The state of the crawl from `seed` after `fetches` were recorded in turn.
pub open spec fn state_after(seed: Seq<char>, fetches: Seq<Fetch>) -> CrawlState
    decreases fetches.len(),
{
    if fetches.len() == 0 {
        CrawlState::start(seed)
    } else {
        state_after(seed, fetches.drop_last()).after(fetches.last().url, fetches.last().found)
    }
}

/// Whether `fetches` is a run of the crawl from `seed`: each page was
/// pending when it was fetched, and each page has finitely many links.
pub open spec fn is_run(seed: Seq<char>, fetches: Seq<Fetch>) -> bool {
    forall|k: int|
        0 <= k < fetches.len() ==> {
            &&& state_after(seed, fetches.take(k)).pending.contains((#[trigger] fetches[k]).url)
            &&& fetches[k].found matches Some(links) ==> links.finite()
        }
}

/// Whether every link that `fetches` brought is a page of `site`.
pub open spec fn stays_on(fetches: Seq<Fetch>, site: Set<Seq<char>>) -> bool {
    forall|k: int|
        0 <= k < fetches.len() ==> ((#[trigger] fetches[k]).found matches Some(links)
            ==> links.subset_of(site))
}

/// A run without its last fetch is a run.
proof fn lemma_run_prefix(seed: Seq<char>, fetches: Seq<Fetch>, n: int)
    requires
        is_run(seed, fetches),
        0 <= n <= fetches.len(),
    ensures
        is_run(seed, fetches.take(n)),
{
    let shorter = fetches.take(n);
    assert forall|k: int| 0 <= k < shorter.len() implies {
        &&& state_after(seed, shorter.take(k)).pending.contains((#[trigger] shorter[k]).url)
        &&& shorter[k].found matches Some(links) ==> links.finite()
    } by {
        assert(shorter.take(k) =~= fetches.take(k));
        assert(shorter[k] == fetches[k]);
    }
}

/// After a run the crawl is in order, the visited pages are the pages that
/// were fetched, one for each fetch, and no more rounds are complete than
/// pages were fetched.
#[verifier::rlimit(50)]
pub proof fn lemma_run_visits(seed: Seq<char>, fetches: Seq<Fetch>)
    requires
        is_run(seed, fetches),
    ensures
        state_after(seed, fetches).inv(),
        state_after(seed, fetches).visited.len() == fetches.len(),
        state_after(seed, fetches).rounds <= fetches.len(),
        forall|k: int|
            0 <= k < fetches.len() ==> state_after(seed, fetches).visited.contains(
                (#[trigger] fetches[k]).url,
            ),
    decreases fetches.len(),
{
    if fetches.len() == 0 {
        lemma_start_inv(seed);
    } else {
        let n = fetches.len() - 1;
        let shorter = fetches.drop_last();
        let last = fetches[n];
        let before = state_after(seed, shorter);
        let now = state_after(seed, fetches);
        assert(now == before.after(last.url, last.found));
        assert(shorter =~= fetches.take(n));
        lemma_run_prefix(seed, fetches, n);
        lemma_run_visits(seed, shorter);
        assert(before.pending.contains(last.url));
        lemma_after_keeps_inv(before, last.url, last.found);
        assert(now.visited == before.visited.insert(last.url));
        assert forall|k: int| 0 <= k < fetches.len() implies now.visited.contains(
            (#[trigger] fetches[k]).url,
        ) by {
            if k < n {
                assert(shorter[k] == fetches[k]);
                assert(before.visited.contains(shorter[k].url));
            }
        }
    }
}

/// No page is fetched twice in a run, however many pages link to it.
pub proof fn lemma_no_page_fetched_twice(seed: Seq<char>, fetches: Seq<Fetch>, i: int, j: int)
    requires
        is_run(seed, fetches),
        0 <= i < j < fetches.len(),
    ensures
        fetches[i].url != fetches[j].url,
{
    let earlier = fetches.take(j);
    lemma_run_prefix(seed, fetches, j);
    lemma_run_visits(seed, earlier);
    assert(earlier[i] == fetches[i]);
    assert(state_after(seed, earlier).visited.contains(earlier[i].url));
    assert(state_after(seed, earlier).pending.contains(fetches[j].url));
}

/// A run that begins on a site, and whose pages link to pages of the site
/// only, never leaves it: every page that was fetched, is broken or is yet
/// to be fetched is a page of the site.
#[verifier::rlimit(50)]
pub proof fn lemma_run_stays_on_site(seed: Seq<char>, fetches: Seq<Fetch>, site: Set<Seq<char>>)
    requires
        is_run(seed, fetches),
        stays_on(fetches, site),
        site.contains(seed),
    ensures
        state_after(seed, fetches).visited.subset_of(site),
        state_after(seed, fetches).broken.subset_of(site),
        state_after(seed, fetches).pending.subset_of(site),
        state_after(seed, fetches).upcoming.subset_of(site),
    decreases fetches.len(),
{
    if fetches.len() > 0 {
        let n = fetches.len() - 1;
        let shorter = fetches.drop_last();
        assert(shorter =~= fetches.take(n));
        lemma_run_prefix(seed, fetches, n);
        assert(stays_on(shorter, site)) by {
            assert forall|k: int| 0 <= k < shorter.len() implies ((#[trigger] shorter[k]).found matches Some(
                links,
            ) ==> links.subset_of(site)) by {
                assert(shorter[k] == fetches[k]);
            }
        }
        lemma_run_stays_on_site(seed, shorter, site);
        lemma_run_visits(seed, shorter);
        let last = fetches[n];
        assert(state_after(seed, shorter).pending.contains(last.url));
    }
}

/// A crawl of a site of `N` pages ends: no run fetches more than `N` pages,
/// and none completes more than `N` rounds, however the pages link to each
/// other.
pub proof fn lemma_run_is_bounded(seed: Seq<char>, fetches: Seq<Fetch>, site: Set<Seq<char>>)
    requires
        is_run(seed, fetches),
        stays_on(fetches, site),
        site.contains(seed),
        site.finite(),
    ensures
        fetches.len() <= site.len(),
        state_after(seed, fetches).rounds <= site.len(),
{
    lemma_run_visits(seed, fetches);
    lemma_run_stays_on_site(seed, fetches, site);
    vstd::set_lib::lemma_len_subset(state_after(seed, fetches).visited, site);
}

} // verus!
