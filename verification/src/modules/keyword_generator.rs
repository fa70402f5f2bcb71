//! Keyword harvesting: one suggestion request per enabled source, whose
//! suggestions all feed one accumulator.

use crate::accumulator::distinct;
use crate::accumulator::lemma_distinct_absorb;
use crate::accumulator::Accumulator;
use crate::config::KeywordGenerator as KeywordConfig;
use crate::encoding::query_component;
use crate::encoding::query_encoded;
use crate::json::Json;
use crate::outcome::FetchOutcome;
use crate::sequences::first;
use crate::sequences::lemma_flatten_take_next;
use crate::text::texts;
use vstd::prelude::*;
use vstd::string::StringExecFns;

verus! {

/// A source of keyword suggestions.
#[derive(Debug, Clone, Copy, PartialEq, Eq, Structural)]
pub enum SuggestSource {
    Google,
    Bing,
    Yahoo,
    DuckDuckGo,
    /// Brave is asked through DuckDuckGo's interface.
    Brave,
}

impl SuggestSource {
    /// The request up to the seed keyword.
    pub open spec fn head(self) -> Seq<char> {
        match self {
            SuggestSource::Google => "https://www.google.com/complete/search?q="@,
            SuggestSource::Bing => "https://api.bing.com/osjson.aspx?query="@,
            SuggestSource::Yahoo => "https://search.yahoo.com/sugg/gossip/gossip-us-ura/?output=sd1&command="@,
            SuggestSource::DuckDuckGo => "https://ac.duckduckgo.com/ac/?q="@,
            SuggestSource::Brave => "https://ac.duckduckgo.com/ac/?q="@,
        }
    }

    /// The request after the seed keyword.
    pub open spec fn tail(self) -> Seq<char> {
        match self {
            SuggestSource::Google => "&client=firefox"@,
            SuggestSource::Bing => ""@,
            SuggestSource::Yahoo => ""@,
            SuggestSource::DuckDuckGo => "&type=list"@,
            SuggestSource::Brave => "&type=list"@,
        }
    }

    /// The suggestion request for `seed`.
    pub open spec fn suggest_url_of(self, seed: Seq<char>) -> Seq<char> {
        self.head() + query_encoded(seed) + self.tail()
    }

    /// The suggestion request for `seed`.
    pub fn suggest_url(&self, seed: &str) -> (url: String)
        ensures
            url@ == self.suggest_url_of(seed@),
    {
        let head = match self {
            SuggestSource::Google => "https://www.google.com/complete/search?q=",
            SuggestSource::Bing => "https://api.bing.com/osjson.aspx?query=",
            SuggestSource::Yahoo => "https://search.yahoo.com/sugg/gossip/gossip-us-ura/?output=sd1&command=",
            SuggestSource::DuckDuckGo => "https://ac.duckduckgo.com/ac/?q=",
            SuggestSource::Brave => "https://ac.duckduckgo.com/ac/?q=",
        };
        let tail = match self {
            SuggestSource::Google => "&client=firefox",
            SuggestSource::Bing => "",
            SuggestSource::Yahoo => "",
            SuggestSource::DuckDuckGo => "&type=list",
            SuggestSource::Brave => "&type=list",
        };
        let mut url = String::from_str(head);
        let encoded = query_component(seed);
        url.append(encoded.as_str());
        url.append(tail);
        url
    }
}

/// The suggestion that one item of a list stands for: the text of a string,
/// nothing for any other value.
pub open spec fn listed(item: Json) -> Option<Seq<char>> {
    item.text_of()
}

/// The suggestion that one item of Yahoo's list stands for: the text of its
/// field `k`, where it has one that is a string.
pub open spec fn keyed(item: Json) -> Option<Seq<char>> {
    match item.member_of("k"@) {
        Some(value) => value.text_of(),
        None => None,
    }
}

/// The suggestions among `items`, in order, each read by `read`.
pub open spec fn suggestions_among(items: Seq<Json>, read: spec_fn(Json) -> Option<Seq<char>>) -> Seq<
    Seq<char>,
>
    decreases items.len(),
{
    if items.len() == 0 {
        Seq::empty()
    } else {
        match read(items.last()) {
            Some(text) => suggestions_among(items.drop_last(), read).push(text),
            None => suggestions_among(items.drop_last(), read),
        }
    }
}

/// The suggestions that a response holds. Yahoo's are the `k` fields of the
/// items of the array in field `r`; those of the others are the strings in
/// the array that is the second item of the response. Any other shape holds
/// none.
pub open spec fn suggestions_of(source: SuggestSource, response: Json) -> Seq<Seq<char>> {
    if source == SuggestSource::Yahoo {
        match response.member_of("r"@) {
            Some(list) => match list.items_of() {
                Some(items) => suggestions_among(items, |item: Json| keyed(item)),
                None => Seq::empty(),
            },
            None => Seq::empty(),
        }
    } else {
        match response.item_of(1) {
            Some(list) => match list.items_of() {
                Some(items) => suggestions_among(items, |item: Json| listed(item)),
                None => Seq::empty(),
            },
            None => Seq::empty(),
        }
    }
}

/// What one request contributes: the suggestions of the response that was
/// fetched, nothing where the attempt failed.
pub open spec fn outcome_keywords(source: SuggestSource, outcome: FetchOutcome<Json>) -> Seq<
    Seq<char>,
> {
    match outcome {
        FetchOutcome::Fetched(response) => suggestions_of(source, response),
        FetchOutcome::Failed(_) => Seq::empty(),
    }
}

/// The sources that `config` enables, in the order in which they are asked.
pub open spec fn enabled_sources(config: KeywordConfig) -> Seq<SuggestSource> {
    (if config.google {
        seq![SuggestSource::Google]
    } else {
        seq![]
    }) + (if config.bing {
        seq![SuggestSource::Bing]
    } else {
        seq![]
    }) + (if config.yahoo {
        seq![SuggestSource::Yahoo]
    } else {
        seq![]
    }) + (if config.duckduckgo {
        seq![SuggestSource::DuckDuckGo]
    } else {
        seq![]
    }) + (if config.brave {
        seq![SuggestSource::Brave]
    } else {
        seq![]
    })
}

/// What the responses contribute, source after source: response `i` is
/// that of source `i`, and what has no source or no response counts for
/// nothing.
pub open spec fn run_keywords(sources: Seq<SuggestSource>, responses: Seq<FetchOutcome<Json>>) -> Seq<
    Seq<char>,
> {
    Seq::new(
        if sources.len() <= responses.len() {
            sources.len()
        } else {
            responses.len()
        },
        |i: int| outcome_keywords(sources[i], responses[i]),
    ).flatten()
}

/// The strings among the items of a plain suggestion list.
fn listed_suggestions(items: &Vec<Json>) -> (found: Vec<String>)
    ensures
        texts(found@) == suggestions_among(items@, |item: Json| listed(item)),
{
    let ghost read = |item: Json| listed(item);
    let mut found: Vec<String> = Vec::new();
    let mut i: usize = 0;
    assert(texts(found@) =~= suggestions_among(items@.take(0), read));
    while i < items.len()
        invariant
            i <= items.len(),
            read == (|item: Json| listed(item)),
            texts(found@) == suggestions_among(items@.take(i as int), read),
        decreases items.len() - i,
    {
        let ghost before = found@;
        proof {
            assert(items@.take(i + 1).drop_last() =~= items@.take(i as int));
            assert(items@.take(i + 1).last() == items@[i as int]);
        }
        match items[i].as_text() {
            Some(text) => {
                let keyword = String::from_str(text);
                found.push(keyword);
                assert(texts(found@) =~= texts(before).push(text@));
            },
            None => {},
        }
        i = i + 1;
    }
    assert(items@.take(i as int) =~= items@);
    found
}

/// The `k` fields among the items of Yahoo's suggestion list.
fn keyed_suggestions(items: &Vec<Json>) -> (found: Vec<String>)
    ensures
        texts(found@) == suggestions_among(items@, |item: Json| keyed(item)),
{
    let ghost read = |item: Json| keyed(item);
    let mut found: Vec<String> = Vec::new();
    let mut i: usize = 0;
    assert(texts(found@) =~= suggestions_among(items@.take(0), read));
    while i < items.len()
        invariant
            i <= items.len(),
            read == (|item: Json| keyed(item)),
            texts(found@) == suggestions_among(items@.take(i as int), read),
        decreases items.len() - i,
    {
        let ghost before = found@;
        proof {
            assert(items@.take(i + 1).drop_last() =~= items@.take(i as int));
            assert(items@.take(i + 1).last() == items@[i as int]);
        }
        match items[i].member("k") {
            Some(value) => {
                match value.as_text() {
                    Some(text) => {
                        let keyword = String::from_str(text);
                        found.push(keyword);
                        assert(texts(found@) =~= texts(before).push(text@));
                    },
                    None => {},
                }
            },
            None => {},
        }
        i = i + 1;
    }
    assert(items@.take(i as int) =~= items@);
    found
}

/// The suggestions that a response of `source` holds.
pub fn extract_keywords(source: SuggestSource, response: &Json) -> (keywords: Vec<String>)
    ensures
        texts(keywords@) == suggestions_of(source, *response),
{
    let list = match source {
        SuggestSource::Yahoo => response.member("r"),
        _ => response.item(1),
    };
    let items = match list {
        Some(value) => value.as_array(),
        None => None,
    };
    match items {
        Some(found) => match source {
            SuggestSource::Yahoo => keyed_suggestions(found),
            _ => listed_suggestions(found),
        },
        None => {
            let none: Vec<String> = Vec::new();
            assert(texts(none@) =~= Seq::<Seq<char>>::empty());
            none
        },
    }
}

/// The keyword harvester of one configuration, with the keywords found so
/// far.
pub struct KeywordGenerator {
    config: KeywordConfig,
    keywords: Accumulator,
}

impl KeywordGenerator {
    /// The configuration.
    pub closed spec fn config(&self) -> KeywordConfig {
        self.config
    }

    /// The keywords found so far, in the order of first finding.
    pub closed spec fn found(&self) -> Seq<Seq<char>> {
        self.keywords@
    }

    /// A harvester that works under `config` and has found nothing yet.
    pub fn new(config: KeywordConfig) -> (generator: Self)
        ensures
            generator.config() == config,
            generator.found() == Seq::<Seq<char>>::empty(),
    {
        KeywordGenerator { config, keywords: Accumulator::new() }
    }

    /// The enabled sources, in the order in which they are asked.
    pub fn sources(&self) -> (sources: Vec<SuggestSource>)
        ensures
            sources@ == enabled_sources(self.config()),
    {
        let mut sources: Vec<SuggestSource> = Vec::new();
        if self.config.google {
            sources.push(SuggestSource::Google);
        }
        if self.config.bing {
            sources.push(SuggestSource::Bing);
        }
        if self.config.yahoo {
            sources.push(SuggestSource::Yahoo);
        }
        if self.config.duckduckgo {
            sources.push(SuggestSource::DuckDuckGo);
        }
        if self.config.brave {
            sources.push(SuggestSource::Brave);
        }
        assert(sources@ =~= enabled_sources(self.config()));
        sources
    }

    /// Takes what the request to `source` has brought: the suggestions of a
    /// fetched response are merged at once, a failed attempt contributes
    /// nothing.
    pub fn record(&mut self, source: SuggestSource, outcome: FetchOutcome<Json>)
        ensures
            final(self).config() == old(self).config(),
            final(self).found() == distinct(old(self).found() + outcome_keywords(source, outcome)),
    {
        let keywords = match &outcome {
            FetchOutcome::Fetched(response) => extract_keywords(source, response),
            FetchOutcome::Failed(_) => {
                let none: Vec<String> = Vec::new();
                assert(texts(none@) =~= Seq::<Seq<char>>::empty());
                none
            },
        };
        self.keywords.extend(keywords);
    }

    /// The keywords found so far, each once, in the order of first finding.
    pub fn found_keywords(&self) -> (keywords: Vec<String>)
        ensures
            texts(keywords@) == self.found(),
            texts(keywords@).no_duplicates(),
    {
        self.keywords.snapshot()
    }

    /// Ends a run: hands out the keywords that it found, each once, in the
    /// order of first finding, and keeps none of them.
    pub fn finish(&mut self) -> (keywords: Vec<String>)
        ensures
            final(self).config() == old(self).config(),
            texts(keywords@) == old(self).found(),
            texts(keywords@).no_duplicates(),
            final(self).found() == Seq::<Seq<char>>::empty(),
    {
        self.keywords.drain()
    }

    /// A whole run over what the requests have brought: `responses[i]` is
    /// what the request to the `i`-th enabled source brought. The result is
    /// every keyword that this run found, each once. A run starts from
    /// nothing and keeps nothing: what was found before does not enter, and
    /// what is handed out is no longer held.
    pub fn run(&mut self, responses: Vec<FetchOutcome<Json>>) -> (keywords: Vec<String>)
        ensures
            final(self).config() == old(self).config(),
            texts(keywords@) == distinct(
                run_keywords(enabled_sources(old(self).config()), responses@),
            ),
            texts(keywords@).no_duplicates(),
            final(self).found() == Seq::<Seq<char>>::empty(),
    {
        self.finish();
        let sources = self.sources();
        let ghost start = self.found();
        let ghost all = responses@;
        let ghost rows = Seq::new(
            if sources@.len() <= all.len() {
                sources@.len()
            } else {
                all.len()
            },
            |i: int| outcome_keywords(sources@[i], all[i]),
        );
        proof {
            use_type_invariant(&self.keywords);
            self.keywords.lemma_unique();
            assert(start + rows.take(0).flatten() =~= start);
        }
        let count = responses.len();
        let mut index: usize = 0;
        for outcome in it: responses
            invariant
                it.seq() == all,
                all.len() == count,
                index == it.index(),
                self.config() == old(self).config(),
                sources@ == enabled_sources(self.config()),
                rows == Seq::new(
                    if sources@.len() <= all.len() {
                        sources@.len()
                    } else {
                        all.len()
                    },
                    |i: int| outcome_keywords(sources@[i], all[i]),
                ),
                self.found() == distinct(
                    start + rows.take(
                        if it.index() <= rows.len() {
                            it.index()
                        } else {
                            rows.len() as int
                        },
                    ).flatten(),
                ),
        {
            let ghost k = it.index();
            let ghost before = rows.take(k).flatten();
            if index < sources.len() {
                let source = sources[index];
                self.record(source, outcome);
                proof {
                    assert(rows[k] == outcome_keywords(source, outcome));
                    lemma_flatten_take_next(rows, k);
                    lemma_distinct_absorb(start + before, rows[k]);
                    assert(start + before + rows[k] =~= start + (before + rows[k]));
                }
            }
            index = index + 1;
        }
        proof {
            assert(rows.take(rows.len() as int) =~= rows);
            assert(start + rows.flatten() =~= rows.flatten());
        }
        self.finish()
    }
}

} // verus!
