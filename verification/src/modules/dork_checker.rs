//! Dork validation: one search per dork, the result count read from the
//! page, and the dorks whose count reaches the threshold ranked by count.

use crate::config::DorkChecker as DorkCheckerConfig;
use crate::encoding::query_component;
use crate::encoding::query_encoded;
use crate::html::find_text;
use crate::html::found_text;
use crate::html::text_list;
use crate::outcome::FetchOutcome;
use crate::ranking::descending;
use crate::ranking::is_ranking_of;
use crate::ranking::lemma_ranking_members;
use crate::ranking::rank;
use crate::ranking::ranked;
use crate::ranking::scored;
use crate::ranking::Scored;
use crate::text::digits_of;
use crate::text::digits_only;
use crate::text::parse_count;
use crate::text::parsed_count;
use vstd::prelude::*;
use vstd::string::StringExecFns;

verus! {

/// The search request for `dork`.
pub open spec fn search_url_of(dork: Seq<char>) -> Seq<char> {
    "https://www.google.com/search?q="@ + query_encoded(dork)
}

/// The count that the statistics element states: the number written by the
/// digits of the first match's text, every other character left out, if
/// they write one.
pub open spec fn stated_count_of(stats: Option<Seq<Seq<char>>>) -> Option<u32> {
    match stats {
        Some(found) => if found.len() > 0 {
            parsed_count(digits_of(found[0]))
        } else {
            None
        },
        None => None,
    }
}

/// The number of result blocks, of which the low 32 bits are kept.
pub open spec fn block_count_of(blocks: Option<Seq<Seq<char>>>) -> u32 {
    match blocks {
        Some(found) => (found.len() % 0x1_0000_0000) as u32,
        None => 0,
    }
}

/// The result count of a page: the stated count, else the number of result
/// blocks.
pub open spec fn result_count_of(
    stats: Option<Seq<Seq<char>>>,
    blocks: Option<Seq<Seq<char>>>,
) -> u32 {
    match stated_count_of(stats) {
        Some(count) => count,
        None => block_count_of(blocks),
    }
}

/// The result count of the page `html`.
pub open spec fn page_count(html: Seq<char>) -> u32 {
    result_count_of(found_text(html, "#result-stats"@), found_text(html, ".g"@))
}

/// A dork with its count where the count reaches the threshold.
pub open spec fn judged(dork: Seq<char>, count: u32, threshold: u32) -> Option<Scored> {
    if count >= threshold {
        Some((dork, count))
    } else {
        None
    }
}

/// What one check comes to: the dork with the count of its page where the
/// page was fetched and the count reaches the threshold.
pub open spec fn checked(dork: Seq<char>, outcome: FetchOutcome<String>, threshold: u32) -> Option<
    Scored,
> {
    match outcome {
        FetchOutcome::Fetched(html) => judged(dork, page_count(html@), threshold),
        FetchOutcome::Failed(_) => None,
    }
}

/// The valid dorks among `entries`, in order.
pub open spec fn valid_among(entries: Seq<(String, FetchOutcome<String>)>, threshold: u32) -> Seq<
    Scored,
>
    decreases entries.len(),
{
    if entries.len() == 0 {
        Seq::empty()
    } else {
        let earlier = valid_among(entries.drop_last(), threshold);
        match checked(entries.last().0@, entries.last().1, threshold) {
            Some(entry) => earlier.push(entry),
            None => earlier,
        }
    }
}

/// The entries that are there among `results`, in order.
pub open spec fn present(results: Seq<Option<(String, u32)>>) -> Seq<Scored>
    decreases results.len(),
{
    if results.len() == 0 {
        Seq::empty()
    } else {
        match results.last() {
            Some(entry) => present(results.drop_last()).push((entry.0@, entry.1)),
            None => present(results.drop_last()),
        }
    }
}

/// A scored item that may be absent, as contracts see it.
pub open spec fn maybe_scored(entry: Option<(String, u32)>) -> Option<Scored> {
    match entry {
        Some(e) => Some((e.0@, e.1)),
        None => None,
    }
}

/// No valid dork lies below the threshold, and each is a dork that was
/// checked.
pub proof fn lemma_valid_reach_threshold(
    entries: Seq<(String, FetchOutcome<String>)>,
    threshold: u32,
)
    ensures
        forall|i: int|
            0 <= i < valid_among(entries, threshold).len() ==> (#[trigger] valid_among(
                entries,
                threshold,
            )[i]).1 >= threshold,
        forall|i: int|
            0 <= i < valid_among(entries, threshold).len() ==> exists|k: int|
                0 <= k < entries.len() && checked(entries[k].0@, entries[k].1, threshold)
                    == Some(#[trigger] valid_among(entries, threshold)[i]),
    decreases entries.len(),
{
    if entries.len() > 0 {
        let init = entries.drop_last();
        lemma_valid_reach_threshold(init, threshold);
        let valid = valid_among(entries, threshold);
        assert forall|i: int| 0 <= i < valid.len() implies exists|k: int|
            0 <= k < entries.len() && checked(entries[k].0@, entries[k].1, threshold) == Some(
                #[trigger] valid[i],
            ) by {
            if i < valid_among(init, threshold).len() {
                let k = choose|k: int|
                    0 <= k < init.len() && checked(init[k].0@, init[k].1, threshold) == Some(
                        valid_among(init, threshold)[i],
                    );
                assert(entries[k] == init[k]);
            } else {
                let k = entries.len() - 1;
                assert(checked(entries[k].0@, entries[k].1, threshold) == Some(valid[i]));
            }
        }
    }
}

/// The dork checker of one configuration.
pub struct DorkChecker {
    config: DorkCheckerConfig,
}

impl View for DorkChecker {
    type V = DorkCheckerConfig;

    closed spec fn view(&self) -> DorkCheckerConfig {
        self.config
    }
}

impl DorkChecker {
    /// A checker that works under `config`.
    pub fn new(config: DorkCheckerConfig) -> (checker: Self)
        ensures
            checker@ == config,
    {
        Self { config }
    }

    /// How many checks may be in flight at once.
    pub fn threads(&self) -> (threads: u32)
        ensures
            threads == self@.threads,
    {
        self.config.threads
    }

    /// The count that a dork has to reach.
    pub fn threshold(&self) -> (threshold: u32)
        ensures
            threshold == self@.threshold,
    {
        self.config.threshold
    }

    /// The search request for `dork`: the dork itself is the query.
    pub fn search_url(dork: &str) -> (url: String)
        ensures
            url@ == search_url_of(dork@),
    {
        let mut url = String::from_str("https://www.google.com/search?q=");
        let query = query_component(dork);
        url.append(query.as_str());
        url
    }

    /// The count that the statistics element states, if it states one.
    pub fn stated_count(stats: &Option<Vec<String>>) -> (count: Option<u32>)
        ensures
            count == stated_count_of(text_list(*stats)),
    {
        match stats {
            Some(found) => {
                if found.len() > 0 {
                    let digits = digits_only(found[0].as_str());
                    parse_count(digits.as_str())
                } else {
                    None
                }
            },
            None => None,
        }
    }

    /// The number of result blocks, of which the low 32 bits are kept.
    pub fn block_count(blocks: &Option<Vec<String>>) -> (count: u32)
        ensures
            count == block_count_of(text_list(*blocks)),
    {
        match blocks {
            Some(found) => ((found.len() as u64) % 0x1_0000_0000) as u32,
            None => 0,
        }
    }

    /// The result count that two selections come to.
    pub fn count_from(stats: &Option<Vec<String>>, blocks: &Option<Vec<String>>) -> (count: u32)
        ensures
            count == result_count_of(text_list(*stats), text_list(*blocks)),
    {
        match Self::stated_count(stats) {
            Some(count) => count,
            None => Self::block_count(blocks),
        }
    }

    /// The result count of a page: what its `#result-stats` element states,
    /// else the number of its `.g` blocks.
    pub fn extract_result_count(html: &str) -> (count: u32)
        ensures
            count == page_count(html@),
    {
        let stats = find_text(html, "#result-stats");
        match Self::stated_count(&stats) {
            Some(count) => count,
            None => {
                let blocks = find_text(html, ".g");
                Self::block_count(&blocks)
            },
        }
    }

    /// Keeps a dork whose count reaches the threshold.
    pub fn judge(dork: &str, count: u32, threshold: u32) -> (entry: Option<(String, u32)>)
        ensures
            maybe_scored(entry) == judged(dork@, count, threshold),
    {
        if count >= threshold {
            Some((String::from_str(dork), count))
        } else {
            None
        }
    }

    /// One check: the dork with the count of its page, where the page was
    /// fetched and the count reaches the threshold.
    pub fn check_dork(dork: &str, outcome: &FetchOutcome<String>, config: &DorkCheckerConfig) -> (entry:
        Option<(String, u32)>)
        ensures
            maybe_scored(entry) == checked(dork@, *outcome, config.threshold),
    {
        match outcome {
            FetchOutcome::Fetched(html) => {
                let count = Self::extract_result_count(html.as_str());
                Self::judge(dork, count, config.threshold)
            },
            FetchOutcome::Failed(_) => None,
        }
    }

    /// Collects what the checks came to: the dorks that were kept, highest
    /// count first, equal counts in the order of the checks.
    pub fn collect(results: Vec<Option<(String, u32)>>) -> (valid: Vec<(String, u32)>)
        ensures
            scored(valid@) == ranked(present(results@)),
            is_ranking_of(scored(valid@), present(results@)),
    {
        let ghost all = results@;
        let mut found: Vec<(String, u32)> = Vec::new();
        assert(scored(found@) =~= present(all.take(0)));
        for result in it: results
            invariant
                it.seq() == all,
                scored(found@) == present(all.take(it.index())),
        {
            let ghost done = it.index();
            let ghost before = found@;
            proof {
                assert(all.take(done + 1).drop_last() =~= all.take(done));
                assert(all.take(done + 1).last() == result);
            }
            match result {
                Some(kept) => {
                    found.push(kept);
                    assert(scored(found@) =~= scored(before).push((kept.0@, kept.1)));
                },
                None => {},
            }
        }
        proof {
            assert(all.take(all.len() as int) =~= all);
        }
        rank(found)
    }

    /// A whole run over dorks that have been searched for: the valid dorks,
    /// highest count first. No count rises along the result, none lies
    /// below the threshold, and every entry is a dork that was checked.
    pub fn run(&self, dorks: Vec<(String, FetchOutcome<String>)>) -> (valid: Vec<(String, u32)>)
        ensures
            scored(valid@) == ranked(valid_among(dorks@, self@.threshold)),
            is_ranking_of(scored(valid@), valid_among(dorks@, self@.threshold)),
            descending(scored(valid@)),
            forall|i: int| 0 <= i < valid.len() ==> (#[trigger] scored(valid@)[i]).1 >= self@.threshold,
            forall|i: int|
                0 <= i < valid.len() ==> exists|k: int|
                    0 <= k < dorks.len() && checked(dorks@[k].0@, dorks@[k].1, self@.threshold)
                        == Some(#[trigger] scored(valid@)[i]),
    {
        let ghost all = dorks@;
        let ghost threshold = self@.threshold;
        let mut found: Vec<(String, u32)> = Vec::new();
        assert(scored(found@) =~= valid_among(all.take(0), threshold));
        for entry in it: dorks
            invariant
                it.seq() == all,
                threshold == self@.threshold,
                self.config == self@,
                scored(found@) == valid_among(all.take(it.index()), threshold),
        {
            let ghost done = it.index();
            let ghost before = found@;
            proof {
                assert(all.take(done + 1).drop_last() =~= all.take(done));
                assert(all.take(done + 1).last() == entry);
            }
            match Self::check_dork(entry.0.as_str(), &entry.1, &self.config) {
                Some(kept) => {
                    found.push(kept);
                    assert(scored(found@) =~= scored(before).push((kept.0@, kept.1)));
                },
                None => {},
            }
        }
        proof {
            assert(all.take(all.len() as int) =~= all);
        }
        let ghost unranked = scored(found@);
        let valid = rank(found);
        proof {
            lemma_valid_reach_threshold(all, threshold);
            assert forall|i: int| 0 <= i < valid.len() implies (#[trigger] scored(valid@)[i]).1
                >= threshold && exists|k: int|
                0 <= k < all.len() && checked(all[k].0@, all[k].1, threshold) == Some(
                    scored(valid@)[i],
                ) by {
                lemma_ranking_members(scored(valid@), unranked, i);
                let j = choose|j: int|
                    0 <= j < unranked.len() && unranked[j] == scored(valid@)[i];
                assert(unranked[j].1 >= threshold);
            }
        }
        valid
    }
}

} // verus!
