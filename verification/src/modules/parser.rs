//! URL harvesting: one paginated search per enabled engine, whose links all
//! feed one accumulator.

use crate::accumulator::distinct;
use crate::accumulator::lemma_distinct_absorb;
use crate::accumulator::Accumulator;
use crate::config::Parser as ParserConfig;
use crate::encoding::query_component;
use crate::encoding::query_encoded;
use crate::html::maybe_text;
use crate::html::find_attr;
use crate::html::found_attr;
use crate::links::links_among;
use crate::links::web_links;
use crate::outcome::FetchOutcome;
use crate::sequences::first;
use crate::sequences::lemma_flatten_take_next;
use crate::text::decimal;
use crate::text::push_decimal;
use crate::text::texts;
use vstd::prelude::*;
use vstd::string::StringExecFns;

verus! {

/// The pause between two page requests to one engine, in milliseconds.
pub const PAGE_DELAY_MILLIS: u64 = 1000;

/// A search engine that lists results page by page.
#[derive(Debug, Clone, Copy, PartialEq, Eq, Structural)]
pub enum SearchEngine {
    Google,
    Yahoo,
    Bing,
    Ask,
    Yandex,
}

impl SearchEngine {
    /// The request up to the query.
    pub open spec fn head(self) -> Seq<char> {
        match self {
            SearchEngine::Google => "https://www.google.com/search?q="@,
            SearchEngine::Yahoo => "https://search.yahoo.com/search?p="@,
            SearchEngine::Bing => "https://www.bing.com/search?q="@,
            SearchEngine::Ask => "https://www.ask.com/web?q="@,
            SearchEngine::Yandex => "https://yandex.com/search/?text="@,
        }
    }

    /// What stands between the query and the page position.
    pub open spec fn position_key(self) -> Seq<char> {
        match self {
            SearchEngine::Google => "&start="@,
            SearchEngine::Yahoo => "&b="@,
            SearchEngine::Bing => "&first="@,
            SearchEngine::Ask => "&page="@,
            SearchEngine::Yandex => "&p="@,
        }
    }

    /// The position that the request for page `index` names, pages being
    /// counted from zero: the offset of the first result for Google, that
    /// offset counted from one for Yahoo and Bing, the page counted from one
    /// for Ask and from zero for Yandex.
    pub open spec fn position(self, index: nat) -> nat {
        match self {
            SearchEngine::Google => index * 10,
            SearchEngine::Yahoo => index * 10 + 1,
            SearchEngine::Bing => index * 10 + 1,
            SearchEngine::Ask => index + 1,
            SearchEngine::Yandex => index,
        }
    }

    /// The request for page `index` of the results for `query`.
    pub open spec fn page_url_of(self, query: Seq<char>, index: nat) -> Seq<char> {
        self.head() + query_encoded(query) + self.position_key() + decimal(self.position(index))
    }

    /// The request for page `index` of the results for `query`.
    pub fn page_url(&self, query: &str, index: u32) -> (url: String)
        ensures
            url@ == self.page_url_of(query@, index as nat),
    {
        let head = match self {
            SearchEngine::Google => "https://www.google.com/search?q=",
            SearchEngine::Yahoo => "https://search.yahoo.com/search?p=",
            SearchEngine::Bing => "https://www.bing.com/search?q=",
            SearchEngine::Ask => "https://www.ask.com/web?q=",
            SearchEngine::Yandex => "https://yandex.com/search/?text=",
        };
        let key = match self {
            SearchEngine::Google => "&start=",
            SearchEngine::Yahoo => "&b=",
            SearchEngine::Bing => "&first=",
            SearchEngine::Ask => "&page=",
            SearchEngine::Yandex => "&p=",
        };
        let page: u64 = index as u64;
        let position: u64 = match self {
            SearchEngine::Google => page * 10,
            SearchEngine::Yahoo => page * 10 + 1,
            SearchEngine::Bing => page * 10 + 1,
            SearchEngine::Ask => page + 1,
            SearchEngine::Yandex => page,
        };
        let mut url = String::from_str(head);
        let encoded = query_component(query);
        url.append(encoded.as_str());
        url.append(key);
        push_decimal(&mut url, position);
        url
    }
}

/// The links of a page: the absolute `http` and `https` URLs among the
/// `href` values of its anchors, in order.
pub open spec fn page_links(html: Seq<char>) -> Seq<Seq<char>> {
    match found_attr(html, "a"@, "href"@) {
        Some(hrefs) => links_among(hrefs),
        None => Seq::empty(),
    }
}

/// What one page attempt contributes: the links of the page that was
/// fetched, nothing where the attempt failed.
pub open spec fn outcome_links(outcome: FetchOutcome<String>) -> Seq<Seq<char>> {
    match outcome {
        FetchOutcome::Fetched(html) => page_links(html@),
        FetchOutcome::Failed(_) => Seq::empty(),
    }
}

/// What one source contributes over a run of page attempts of which the
/// first `pages` count.
pub open spec fn source_links(outcomes: Seq<FetchOutcome<String>>, pages: nat) -> Seq<Seq<char>> {
    first(outcomes, pages).map_values(|outcome: FetchOutcome<String>| outcome_links(outcome)).flatten()
}

/// What the first `sources` sources contribute, source after source.
pub open spec fn run_links(
    responses: Seq<Vec<FetchOutcome<String>>>,
    sources: nat,
    pages: nat,
) -> Seq<Seq<char>> {
    first(responses, sources).map_values(
        |outcomes: Vec<FetchOutcome<String>>| source_links(outcomes@, pages),
    ).flatten()
}

/// The links of a page.
pub fn extract_links(html: &str) -> (links: Vec<String>)
    ensures
        texts(links@) == page_links(html@),
{
    match find_attr(html, "a", "href") {
        Some(hrefs) => web_links(hrefs),
        None => {
            let links: Vec<String> = Vec::new();
            assert(texts(links@) =~= Seq::<Seq<char>>::empty());
            links
        },
    }
}

/// The state of one paginated search as contracts see it.
pub struct Pagination {
    /// The engine that is asked.
    pub engine: SearchEngine,
    /// The query.
    pub query: Seq<char>,
    /// How many pages are to be asked for.
    pub pages: nat,
    /// How many page attempts have been recorded.
    pub attempts: nat,
}

impl Pagination {
    /// The state before the first request.
    pub open spec fn initial(engine: SearchEngine, query: Seq<char>, pages: nat) -> Pagination {
        Pagination { engine, query, pages, attempts: 0 }
    }

    /// Whether every page has been attempted.
    pub open spec fn done(self) -> bool {
        self.attempts >= self.pages
    }

    /// The request that is due, if one is.
    pub open spec fn next_request(self) -> Option<Seq<char>> {
        if self.done() {
            None
        } else {
            Some(self.engine.page_url_of(self.query, self.attempts))
        }
    }

    /// The state after one attempt has been recorded, whatever it brought.
    pub open spec fn after_record(self) -> Pagination {
        if self.done() {
            self
        } else {
            Pagination { attempts: self.attempts + 1, ..self }
        }
    }

    /// The state after a run of attempts has been recorded.
    pub open spec fn after_records(self, outcomes: Seq<FetchOutcome<String>>) -> Pagination
        decreases outcomes.len(),
    {
        if outcomes.len() == 0 {
            self
        } else {
            self.after_records(outcomes.drop_last()).after_record()
        }
    }
}

/// Failures are skipped, neither repeated nor made up for: whatever the
/// attempts bring, each counts once, so a search is done after exactly
/// `pages` of them, and until then a request is due.
pub proof fn lemma_attempts_exact(
    engine: SearchEngine,
    query: Seq<char>,
    pages: nat,
    outcomes: Seq<FetchOutcome<String>>,
)
    ensures
        Pagination::initial(engine, query, pages).after_records(outcomes).attempts == if outcomes.len()
            <= pages {
            outcomes.len()
        } else {
            pages
        },
        Pagination::initial(engine, query, pages).after_records(outcomes).pages == pages,
        Pagination::initial(engine, query, pages).after_records(outcomes).done() <==> outcomes.len()
            >= pages,
        Pagination::initial(engine, query, pages).after_records(outcomes).next_request() is Some
            <==> outcomes.len() < pages,
    decreases outcomes.len(),
{
    if outcomes.len() > 0 {
        lemma_attempts_exact(engine, query, pages, outcomes.drop_last());
    }
}

/// One paginated search: it names the request that is due and takes what
/// the attempt brought.
pub struct PaginationDriver {
    engine: SearchEngine,
    query: String,
    pages: u32,
    attempts: u32,
}

impl View for PaginationDriver {
    type V = Pagination;

    closed spec fn view(&self) -> Pagination {
        Pagination {
            engine: self.engine,
            query: self.query@,
            pages: self.pages as nat,
            attempts: self.attempts as nat,
        }
    }
}

impl PaginationDriver {
    #[verifier::type_invariant]
    spec fn bounded(self) -> bool {
        self.attempts <= self.pages
    }

    /// A search of `pages` pages for `query` on `engine`.
    pub fn new(engine: SearchEngine, query: &str, pages: u32) -> (driver: Self)
        ensures
            driver@ == Pagination::initial(engine, query@, pages as nat),
    {
        PaginationDriver { engine, query: String::from_str(query), pages, attempts: 0 }
    }

    /// How many page attempts have been recorded.
    pub fn attempts(&self) -> (attempts: u32)
        ensures
            attempts == self@.attempts,
            attempts <= self@.pages,
    {
        proof {
            use_type_invariant(self);
        }
        self.attempts
    }

    /// Whether every page has been attempted.
    pub fn is_done(&self) -> (done: bool)
        ensures
            done == self@.done(),
    {
        self.attempts >= self.pages
    }

    /// The request that is due, if one is.
    pub fn next_request(&self) -> (request: Option<String>)
        ensures
            maybe_text(request) == self@.next_request(),
    {
        if self.attempts >= self.pages {
            None
        } else {
            Some(self.engine.page_url(self.query.as_str(), self.attempts))
        }
    }

    /// Records what the attempt for the request that was due has brought,
    /// and merges the links of a fetched page into `found` at once. A failed
    /// attempt counts like any other and contributes nothing. Once the
    /// search is done, nothing is recorded any more.
    pub fn record(&mut self, outcome: FetchOutcome<String>, found: &mut Accumulator, dedupe: bool)
        ensures
            final(self)@ == old(self)@.after_record(),
            final(found)@ == (if old(self)@.done() {
                old(found)@
            } else {
                distinct(old(found)@ + outcome_links(outcome))
            }),
    {
        proof {
            use_type_invariant(&*self);
        }
        if self.attempts >= self.pages {
            return ;
        }
        self.attempts = self.attempts + 1;
        let links = match outcome {
            FetchOutcome::Fetched(html) => extract_links(html.as_str()),
            FetchOutcome::Failed(_) => {
                let none: Vec<String> = Vec::new();
                assert(texts(none@) =~= Seq::<Seq<char>>::empty());
                none
            },
        };
        found.merge(links, dedupe);
    }
}

/// The engines that `config` enables, in the order in which they are asked.
pub open spec fn enabled_engines(config: ParserConfig) -> Seq<SearchEngine> {
    (if config.google {
        seq![SearchEngine::Google]
    } else {
        seq![]
    }) + (if config.yahoo {
        seq![SearchEngine::Yahoo]
    } else {
        seq![]
    }) + (if config.bing {
        seq![SearchEngine::Bing]
    } else {
        seq![]
    }) + (if config.ask {
        seq![SearchEngine::Ask]
    } else {
        seq![]
    }) + (if config.yandex {
        seq![SearchEngine::Yandex]
    } else {
        seq![]
    })
}

/// The URL harvester of one configuration, with the URLs found so far.
pub struct WebParser {
    config: ParserConfig,
    found_urls: Accumulator,
}

impl WebParser {
    /// The configuration.
    pub closed spec fn config(&self) -> ParserConfig {
        self.config
    }

    /// The URLs found so far, in the order of first finding.
    pub closed spec fn found(&self) -> Seq<Seq<char>> {
        self.found_urls@
    }

    /// A harvester that works under `config` and has found nothing yet.
    pub fn new(config: ParserConfig) -> (parser: Self)
        ensures
            parser.config() == config,
            parser.found() == Seq::<Seq<char>>::empty(),
    {
        WebParser { config, found_urls: Accumulator::new() }
    }

    /// The enabled engines, in the order in which they are asked.
    pub fn engines(&self) -> (engines: Vec<SearchEngine>)
        ensures
            engines@ == enabled_engines(self.config()),
    {
        let mut engines: Vec<SearchEngine> = Vec::new();
        if self.config.google {
            engines.push(SearchEngine::Google);
        }
        if self.config.yahoo {
            engines.push(SearchEngine::Yahoo);
        }
        if self.config.bing {
            engines.push(SearchEngine::Bing);
        }
        if self.config.ask {
            engines.push(SearchEngine::Ask);
        }
        if self.config.yandex {
            engines.push(SearchEngine::Yandex);
        }
        assert(engines@ =~= enabled_engines(self.config()));
        engines
    }

    /// The paginated search for `query` on `engine`.
    pub fn driver(&self, engine: SearchEngine, query: &str) -> (driver: PaginationDriver)
        ensures
            driver@ == Pagination::initial(engine, query@, self.config().pages as nat),
    {
        PaginationDriver::new(engine, query, self.config.pages)
    }

    /// Takes what one page attempt of `driver` has brought.
    pub fn record(&mut self, driver: &mut PaginationDriver, outcome: FetchOutcome<String>)
        ensures
            final(self).config() == old(self).config(),
            final(driver)@ == old(driver)@.after_record(),
            final(self).found() == (if old(driver)@.done() {
                old(self).found()
            } else {
                distinct(old(self).found() + outcome_links(outcome))
            }),
    {
        let dedupe = self.config.domain_dedupe;
        driver.record(outcome, &mut self.found_urls, dedupe);
    }

    /// The URLs found so far, each once, in the order of first finding.
    pub fn urls(&self) -> (urls: Vec<String>)
        ensures
            texts(urls@) == self.found(),
            texts(urls@).no_duplicates(),
    {
        self.found_urls.snapshot()
    }

    /// Ends a run: hands out the URLs that it found, each once, in the
    /// order of first finding, and keeps none of them.
    pub fn finish(&mut self) -> (urls: Vec<String>)
        ensures
            final(self).config() == old(self).config(),
            texts(urls@) == old(self).found(),
            texts(urls@).no_duplicates(),
            final(self).found() == Seq::<Seq<char>>::empty(),
    {
        self.found_urls.drain()
    }

    /// Runs the paginated search of one engine over the page attempts
    /// `outcomes`, in order.
    pub fn feed(&mut self, engine: SearchEngine, query: &str, outcomes: Vec<FetchOutcome<String>>)
        ensures
            final(self).config() == old(self).config(),
            final(self).found() == distinct(
                old(self).found() + source_links(outcomes@, old(self).config().pages as nat),
            ),
    {
        let mut driver = self.driver(engine, query);
        let ghost start = self.found();
        let ghost all = outcomes@;
        let ghost pages = self.config().pages as nat;
        let ghost parts = first(all, pages).map_values(
            |outcome: FetchOutcome<String>| outcome_links(outcome),
        );
        proof {
            use_type_invariant(&self.found_urls);
            self.found_urls.lemma_unique();
            assert(start + parts.take(0).flatten() =~= start);
        }
        for outcome in it: outcomes
            invariant
                it.seq() == all,
                self.config() == old(self).config(),
                pages == self.config().pages,
                parts == first(all, pages).map_values(
                    |outcome: FetchOutcome<String>| outcome_links(outcome),
                ),
                driver@.pages == pages,
                driver@.attempts == (if it.index() <= pages {
                    it.index()
                } else {
                    pages as int
                }),
                self.found() == distinct(start + parts.take(driver@.attempts as int).flatten()),
        {
            let ghost k = it.index();
            let ghost before = parts.take(k).flatten();
            self.record(&mut driver, outcome);
            proof {
                if k < pages {
                    assert(parts[k] == outcome_links(outcome));
                    lemma_flatten_take_next(parts, k);
                    lemma_distinct_absorb(start + before, outcome_links(outcome));
                    assert(start + before + outcome_links(outcome) =~= start + (before
                        + outcome_links(outcome)));
                }
            }
        }
        proof {
            assert(parts.take(parts.len() as int) =~= parts);
        }
    }

    /// A whole run over what the requests have brought: `responses[i]` holds
    /// the page attempts of the `i`-th enabled engine, in order. Of each
    /// engine the configured number of pages counts, a failed attempt
    /// contributing nothing. The result is every URL that this run found,
    /// each once. A run starts from nothing and keeps nothing: what was
    /// found before does not enter, and what is handed out is no longer
    /// held.
    pub fn run(&mut self, query: &str, responses: Vec<Vec<FetchOutcome<String>>>) -> (urls: Vec<String>)
        ensures
            final(self).config() == old(self).config(),
            texts(urls@) == distinct(
                run_links(
                    responses@,
                    enabled_engines(old(self).config()).len(),
                    old(self).config().pages as nat,
                ),
            ),
            texts(urls@).no_duplicates(),
            final(self).found() == Seq::<Seq<char>>::empty(),
    {
        self.finish();
        let engines = self.engines();
        let ghost start = self.found();
        let ghost all = responses@;
        let ghost pages = self.config().pages as nat;
        let ghost rows = first(all, engines.len() as nat).map_values(
            |outcomes: Vec<FetchOutcome<String>>| source_links(outcomes@, pages),
        );
        proof {
            use_type_invariant(&self.found_urls);
            self.found_urls.lemma_unique();
            assert(start + rows.take(0).flatten() =~= start);
        }
        let count = responses.len();
        let mut source: usize = 0;
        for outcomes in it: responses
            invariant
                it.seq() == all,
                all.len() == count,
                source == it.index(),
                self.config() == old(self).config(),
                pages == self.config().pages,
                engines@ == enabled_engines(self.config()),
                rows == first(all, engines.len() as nat).map_values(
                    |outcomes: Vec<FetchOutcome<String>>| source_links(outcomes@, pages),
                ),
                self.found() == distinct(
                    start + rows.take(
                        if it.index() <= rows.len() {
                            it.index()
                        } else {
                            rows.len() as int
                        },
                    ).flatten(),
                ),
        {
            let ghost k = it.index();
            let ghost before = rows.take(k).flatten();
            if source < engines.len() {
                let engine = engines[source];
                self.feed(engine, query, outcomes);
                proof {
                    assert(rows[k] == source_links(outcomes@, pages));
                    lemma_flatten_take_next(rows, k);
                    lemma_distinct_absorb(start + before, rows[k]);
                    assert(start + before + rows[k] =~= start + (before + rows[k]));
                }
            }
            source = source + 1;
        }
        proof {
            assert(rows.take(rows.len() as int) =~= rows);
            assert(start + rows.flatten() =~= rows.flatten());
        }
        self.finish()
    }
}

} // verus!
