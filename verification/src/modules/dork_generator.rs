//! Dork generation: templates filled from keywords, file types and domains,
//! together with a fixed family of common dorks, collected without
//! duplicates up to a configured limit.

use crate::accumulator::lemma_bounded_insert;
use crate::accumulator::lemma_bounded_then_all;
use crate::accumulator::lemma_distinct_absorb;
use crate::accumulator::lemma_distinct_members;
use crate::accumulator::lemma_distinct_prefix;
use crate::accumulator::distinct;
use crate::accumulator::Accumulator;
use crate::config::DorkGenerator as DorkGenConfig;
use crate::sequences::first;
use crate::sequences::lemma_flatten_prefix;
use crate::sequences::lemma_flatten_take_next;
use crate::sequences::lemma_flatten_take_prefix;
use crate::text::substitute;
use crate::text::substituted;
use crate::text::texts;
use vstd::prelude::*;
use vstd::string::StringExecFns;

verus! {

/// `pattern` with its placeholders filled: `(kw)` by the keyword, `(pt)` by
/// the file type, `(de)` by the domain and `(sf)` by `site:`, in that order,
/// each over the result of the one before.
pub open spec fn filled(
    pattern: Seq<char>,
    keyword: Seq<char>,
    file_type: Seq<char>,
    domain: Seq<char>,
) -> Seq<char> {
    substituted(
        substituted(
            substituted(substituted(pattern, "(kw)"@, keyword), "(pt)"@, file_type),
            "(de)"@,
            domain,
        ),
        "(sf)"@,
        "site:"@,
    )
}

/// The dorks of one pattern for one keyword and one file type: one per domain.
pub open spec fn domain_row(
    pattern: Seq<char>,
    keyword: Seq<char>,
    file_type: Seq<char>,
    domains: Seq<Seq<char>>,
) -> Seq<Seq<char>> {
    domains.map_values(|domain: Seq<char>| filled(pattern, keyword, file_type, domain))
}

/// The rows of one pattern for one keyword: one row per file type.
pub open spec fn type_rows(
    pattern: Seq<char>,
    keyword: Seq<char>,
    file_types: Seq<Seq<char>>,
    domains: Seq<Seq<char>>,
) -> Seq<Seq<Seq<char>>> {
    file_types.map_values(|file_type: Seq<char>| domain_row(pattern, keyword, file_type, domains))
}

/// The blocks of one pattern: one block per keyword, each the rows of that
/// keyword laid end to end.
pub open spec fn keyword_blocks(
    pattern: Seq<char>,
    keywords: Seq<Seq<char>>,
    file_types: Seq<Seq<char>>,
    domains: Seq<Seq<char>>,
) -> Seq<Seq<Seq<char>>> {
    keywords.map_values(
        |keyword: Seq<char>| type_rows(pattern, keyword, file_types, domains).flatten(),
    )
}

/// Every dork of one pattern: keywords outermost, then file types, then
/// domains.
pub open spec fn pattern_dorks(
    pattern: Seq<char>,
    keywords: Seq<Seq<char>>,
    file_types: Seq<Seq<char>>,
    domains: Seq<Seq<char>>,
) -> Seq<Seq<char>> {
    keyword_blocks(pattern, keywords, file_types, domains).flatten()
}

/// How many dorks one pattern yields at most: the limit, but never fewer
/// than one, since the limit is looked at after a dork has been added.
pub open spec fn pattern_cap(limit: nat) -> nat {
    if limit == 0 {
        1
    } else {
        limit
    }
}

/// The dorks that one pattern contributes under `limit`.
pub open spec fn capped_pattern_dorks(
    pattern: Seq<char>,
    keywords: Seq<Seq<char>>,
    file_types: Seq<Seq<char>>,
    domains: Seq<Seq<char>>,
    limit: nat,
) -> Seq<Seq<char>> {
    first(pattern_dorks(pattern, keywords, file_types, domains), pattern_cap(limit))
}

/// Each item of `items` between `head` and `tail`.
pub open spec fn affixed(head: Seq<char>, items: Seq<Seq<char>>, tail: Seq<char>) -> Seq<
    Seq<char>,
> {
    items.map_values(|item: Seq<char>| head + item + tail)
}

/// `inurl:` dorks of one keyword: one per file type, then one per domain.
pub open spec fn inurl_block(
    keyword: Seq<char>,
    file_types: Seq<Seq<char>>,
    domains: Seq<Seq<char>>,
) -> Seq<Seq<char>> {
    affixed("inurl:"@ + keyword + " filetype:"@, file_types, ""@) + affixed(
        "inurl:"@ + keyword + " site:"@,
        domains,
        ""@,
    )
}

/// The `inurl:` dorks: of the first ten keywords, with the first five file
/// types and the first five domains.
pub open spec fn inurl_dorks(
    keywords: Seq<Seq<char>>,
    file_types: Seq<Seq<char>>,
    domains: Seq<Seq<char>>,
) -> Seq<Seq<char>> {
    first(keywords, 10).map_values(
        |keyword: Seq<char>| inurl_block(keyword, first(file_types, 5), first(domains, 5)),
    ).flatten()
}

/// `intext:` dorks of one keyword: one per file type.
pub open spec fn intext_block(keyword: Seq<char>, file_types: Seq<Seq<char>>) -> Seq<Seq<char>> {
    affixed("intext:"@ + keyword + " filetype:"@, file_types, ""@)
}

/// The `intext:` dorks: of the first ten keywords, with the first five file
/// types.
pub open spec fn intext_dorks(keywords: Seq<Seq<char>>, file_types: Seq<Seq<char>>) -> Seq<
    Seq<char>,
> {
    first(keywords, 10).map_values(
        |keyword: Seq<char>| intext_block(keyword, first(file_types, 5)),
    ).flatten()
}

/// `filetype:` dorks of one keyword and one file type: one per domain.
pub open spec fn filetype_row(
    keyword: Seq<char>,
    file_type: Seq<char>,
    domains: Seq<Seq<char>>,
) -> Seq<Seq<char>> {
    affixed(keyword + " filetype:"@ + file_type + " site:"@, domains, ""@)
}

/// `filetype:` dorks of one keyword: the rows of its file types, end to end.
pub open spec fn filetype_block(
    keyword: Seq<char>,
    file_types: Seq<Seq<char>>,
    domains: Seq<Seq<char>>,
) -> Seq<Seq<char>> {
    file_types.map_values(|file_type: Seq<char>| filetype_row(keyword, file_type, domains)).flatten()
}

/// The `filetype:` dorks: of the first ten keywords, with the first five
/// file types and the first three domains.
pub open spec fn filetype_dorks(
    keywords: Seq<Seq<char>>,
    file_types: Seq<Seq<char>>,
    domains: Seq<Seq<char>>,
) -> Seq<Seq<char>> {
    first(keywords, 10).map_values(
        |keyword: Seq<char>| filetype_block(keyword, first(file_types, 5), first(domains, 3)),
    ).flatten()
}

/// `site:` dorks of one keyword: one per domain, the keyword in quotes.
pub open spec fn site_block(keyword: Seq<char>, domains: Seq<Seq<char>>) -> Seq<Seq<char>> {
    affixed("site:"@, domains, " \""@ + keyword + "\""@)
}

/// The `site:` dorks: of the first ten keywords, with the first ten domains.
pub open spec fn site_dorks(keywords: Seq<Seq<char>>, domains: Seq<Seq<char>>) -> Seq<Seq<char>> {
    first(keywords, 10).map_values(|keyword: Seq<char>| site_block(keyword, first(domains, 10))).flatten()
}

/// The common dorks, family after family.
pub open spec fn common_dorks(
    keywords: Seq<Seq<char>>,
    file_types: Seq<Seq<char>>,
    domains: Seq<Seq<char>>,
) -> Seq<Seq<char>> {
    inurl_dorks(keywords, file_types, domains) + intext_dorks(keywords, file_types)
        + filetype_dorks(keywords, file_types, domains) + site_dorks(keywords, domains)
}

/// What the patterns contribute, pattern after pattern, each under `limit`.
pub open spec fn template_dorks(
    patterns: Seq<Seq<char>>,
    keywords: Seq<Seq<char>>,
    file_types: Seq<Seq<char>>,
    domains: Seq<Seq<char>>,
    limit: nat,
) -> Seq<Seq<char>> {
    patterns.map_values(
        |pattern: Seq<char>| capped_pattern_dorks(pattern, keywords, file_types, domains, limit),
    ).flatten()
}

/// The dorks of a whole run: the template dorks and then the common dorks,
/// each kept at its first occurrence, cut to `limit`.
pub open spec fn generated_dorks(
    patterns: Seq<Seq<char>>,
    keywords: Seq<Seq<char>>,
    file_types: Seq<Seq<char>>,
    domains: Seq<Seq<char>>,
    limit: nat,
) -> Seq<Seq<char>> {
    first(
        distinct(
            template_dorks(patterns, keywords, file_types, domains, limit) + common_dorks(
                keywords,
                file_types,
                domains,
            ),
        ),
        limit,
    )
}

/// The smaller of `n` and `cap`.
fn at_most(n: usize, cap: usize) -> (m: usize)
    ensures
        m == if cap <= n {
            cap
        } else {
            n
        },
{
    if cap <= n {
        cap
    } else {
        n
    }
}

/// Each of the first `count` items between `head` and `tail`.
fn affix(head: &str, items: &[String], count: usize, tail: &str) -> (out: Vec<String>)
    ensures
        texts(out@) == affixed(head@, first(texts(items@), count as nat), tail@),
{
    let n = at_most(items.len(), count);
    let ghost row = affixed(head@, first(texts(items@), count as nat), tail@);
    let mut out: Vec<String> = Vec::new();
    let mut i: usize = 0;
    while i < n
        invariant
            i <= n,
            n <= items.len(),
            n == first(texts(items@), count as nat).len(),
            row == affixed(head@, first(texts(items@), count as nat), tail@),
            texts(out@) == row.take(i as int),
        decreases n - i,
    {
        let mut dork = String::from_str(head);
        dork.append(items[i].as_str());
        dork.append(tail);
        let ghost before = out@;
        out.push(dork);
        proof {
            assert(row[i as int] == dork@);
            assert(texts(out@) =~= texts(before).push(dork@));
            assert(texts(out@) =~= row.take(i + 1));
        }
        i = i + 1;
    }
    proof {
        assert(row.take(n as int) =~= row);
    }
    out
}

/// `a`, `b`, `c` and `d`, one after the other.
fn joined(a: &str, b: &str, c: &str, d: &str) -> (s: String)
    ensures
        s@ == a@ + b@ + c@ + d@,
{
    let mut s = String::from_str(a);
    s.append(b);
    s.append(c);
    s.append(d);
    s
}

/// The dork generator of one configuration.
pub struct DorkGenerator {
    config: DorkGenConfig,
}

impl View for DorkGenerator {
    type V = DorkGenConfig;

    closed spec fn view(&self) -> DorkGenConfig {
        self.config
    }
}

impl DorkGenerator {
    /// A generator that works under `config`.
    pub fn new(config: DorkGenConfig) -> (generator: Self)
        ensures
            generator@ == config,
    {
        Self { config }
    }

    /// One pattern with its placeholders filled.
    pub fn fill(pattern: &str, keyword: &str, file_type: &str, domain: &str) -> (dork: String)
        ensures
            dork@ == filled(pattern@, keyword@, file_type@, domain@),
    {
        let with_keyword = substitute(pattern, "(kw)", keyword);
        let with_type = substitute(with_keyword.as_str(), "(pt)", file_type);
        let with_domain = substitute(with_type.as_str(), "(de)", domain);
        substitute(with_domain.as_str(), "(sf)", "site:")
    }

    /// The dorks of one pattern, keywords outermost, until the limit is
    /// reached.
    pub fn generate_from_pattern(
        &self,
        pattern: &str,
        keywords: &[String],
        file_types: &[String],
        domains: &[String],
    ) -> (dorks: Vec<String>)
        ensures
            texts(dorks@) == capped_pattern_dorks(
                pattern@,
                texts(keywords@),
                texts(file_types@),
                texts(domains@),
                self@.limit as nat,
            ),
    {
        let limit = self.config.limit as usize;
        let ghost kws = texts(keywords@);
        let ghost fts = texts(file_types@);
        let ghost dms = texts(domains@);
        let ghost blocks = keyword_blocks(pattern@, kws, fts, dms);
        let ghost all = pattern_dorks(pattern@, kws, fts, dms);
        let mut dorks: Vec<String> = Vec::new();
        let mut a: usize = 0;
        assert(blocks.take(0).flatten() =~= Seq::<Seq<char>>::empty());
        while a < keywords.len()
            invariant
                a <= keywords.len(),
                limit == self@.limit,
                kws == texts(keywords@),
                fts == texts(file_types@),
                dms == texts(domains@),
                blocks == keyword_blocks(pattern@, kws, fts, dms),
                all == blocks.flatten(),
                texts(dorks@) == blocks.take(a as int).flatten(),
                dorks.len() == 0 || dorks.len() < limit,
            decreases keywords.len() - a,
        {
            let ghost done_blocks = blocks.take(a as int).flatten();
            let ghost rows = type_rows(pattern@, kws[a as int], fts, dms);
            assert(blocks[a as int] == rows.flatten());
            assert(rows.take(0).flatten() =~= Seq::<Seq<char>>::empty());
            let mut b: usize = 0;
            while b < file_types.len()
                invariant
                    a < keywords.len(),
                    b <= file_types.len(),
                    limit == self@.limit,
                    kws == texts(keywords@),
                    fts == texts(file_types@),
                    dms == texts(domains@),
                    blocks == keyword_blocks(pattern@, kws, fts, dms),
                    all == blocks.flatten(),
                    done_blocks == blocks.take(a as int).flatten(),
                    rows == type_rows(pattern@, kws[a as int], fts, dms),
                    blocks[a as int] == rows.flatten(),
                    texts(dorks@) == done_blocks + rows.take(b as int).flatten(),
                    dorks.len() == 0 || dorks.len() < limit,
                decreases file_types.len() - b,
            {
                let ghost done_rows = rows.take(b as int).flatten();
                let ghost row = domain_row(pattern@, kws[a as int], fts[b as int], dms);
                assert(rows[b as int] == row);
                let mut c: usize = 0;
                while c < domains.len()
                    invariant
                        a < keywords.len(),
                        b < file_types.len(),
                        c <= domains.len(),
                        limit == self@.limit,
                        kws == texts(keywords@),
                        fts == texts(file_types@),
                        dms == texts(domains@),
                        blocks == keyword_blocks(pattern@, kws, fts, dms),
                        all == blocks.flatten(),
                        done_blocks == blocks.take(a as int).flatten(),
                        rows == type_rows(pattern@, kws[a as int], fts, dms),
                        blocks[a as int] == rows.flatten(),
                        done_rows == rows.take(b as int).flatten(),
                        row == domain_row(pattern@, kws[a as int], fts[b as int], dms),
                        rows[b as int] == row,
                        texts(dorks@) == done_blocks + done_rows + row.take(c as int),
                        dorks.len() == 0 || dorks.len() < limit,
                    decreases domains.len() - c,
                {
                    let dork = Self::fill(
                        pattern,
                        keywords[a].as_str(),
                        file_types[b].as_str(),
                        domains[c].as_str(),
                    );
                    let ghost before = dorks@;
                    dorks.push(dork);
                    proof {
                        assert(row[c as int] == dork@);
                        assert(texts(dorks@) =~= texts(before).push(dork@));
                        assert(texts(dorks@) =~= done_blocks + done_rows + row.take(c + 1));
                    }
                    if dorks.len() >= limit {
                        proof {
                            let inner = done_rows + row.take(c + 1);
                            lemma_flatten_prefix(rows, b as int, c + 1);
                            assert(inner.is_prefix_of(rows.flatten()));
                            assert(inner =~= blocks[a as int].take(inner.len() as int));
                            lemma_flatten_prefix(blocks, a as int, inner.len() as int);
                            assert(texts(dorks@) =~= done_blocks + inner);
                            assert(texts(dorks@).is_prefix_of(all));
                            assert(texts(dorks@) =~= all.take(dorks.len() as int));
                        }
                        return dorks;
                    }
                    c = c + 1;
                }
                proof {
                    assert(row.take(c as int) =~= row);
                    lemma_flatten_take_next(rows, b as int);
                    assert(texts(dorks@) =~= done_blocks + rows.take(b + 1).flatten());
                }
                b = b + 1;
            }
            proof {
                assert(rows.take(b as int) =~= rows);
                lemma_flatten_take_next(blocks, a as int);
            }
            a = a + 1;
        }
        proof {
            assert(blocks.take(a as int) =~= blocks);
        }
        dorks
    }

    /// The `inurl:` dorks.
    pub fn generate_inurl_dorks(
        &self,
        keywords: &[String],
        file_types: &[String],
        domains: &[String],
    ) -> (dorks: Vec<String>)
        ensures
            texts(dorks@) == inurl_dorks(texts(keywords@), texts(file_types@), texts(domains@)),
    {
        let n = at_most(keywords.len(), 10);
        let ghost kws = first(texts(keywords@), 10);
        let ghost fts = first(texts(file_types@), 5);
        let ghost dms = first(texts(domains@), 5);
        let ghost blocks = kws.map_values(|keyword: Seq<char>| inurl_block(keyword, fts, dms));
        let mut dorks: Vec<String> = Vec::new();
        let mut a: usize = 0;
        assert(blocks.take(0).flatten() =~= Seq::<Seq<char>>::empty());
        while a < n
            invariant
                a <= n,
                n <= keywords.len(),
                n == kws.len(),
                kws == first(texts(keywords@), 10),
                fts == first(texts(file_types@), 5),
                dms == first(texts(domains@), 5),
                blocks == kws.map_values(|keyword: Seq<char>| inurl_block(keyword, fts, dms)),
                texts(dorks@) == blocks.take(a as int).flatten(),
            decreases n - a,
        {
            let keyword = keywords[a].as_str();
            let by_type = joined("inurl:", keyword, " filetype:", "");
            let by_site = joined("inurl:", keyword, " site:", "");
            let mut typed = affix(by_type.as_str(), file_types, 5, "");
            let mut sited = affix(by_site.as_str(), domains, 5, "");
            let ghost before = dorks@;
            let ghost typed_items = typed@;
            let ghost sited_items = sited@;
            dorks.append(&mut typed);
            dorks.append(&mut sited);
            proof {
                assert(kws[a as int] == keyword@);
                reveal_strlit("");
                assert(by_type@ =~= "inurl:"@ + keyword@ + " filetype:"@);
                assert(by_site@ =~= "inurl:"@ + keyword@ + " site:"@);
                assert(blocks[a as int] == texts(typed_items) + texts(sited_items));
                assert(texts(dorks@) =~= texts(before) + (texts(typed_items) + texts(
                    sited_items,
                )));
                lemma_flatten_take_next(blocks, a as int);
            }
            a = a + 1;
        }
        proof {
            assert(blocks.take(n as int) =~= blocks);
        }
        dorks
    }

    /// The `intext:` dorks.
    pub fn generate_intext_dorks(
        &self,
        keywords: &[String],
        file_types: &[String],
        _domains: &[String],
    ) -> (dorks: Vec<String>)
        ensures
            texts(dorks@) == intext_dorks(texts(keywords@), texts(file_types@)),
    {
        let n = at_most(keywords.len(), 10);
        let ghost kws = first(texts(keywords@), 10);
        let ghost fts = first(texts(file_types@), 5);
        let ghost blocks = kws.map_values(|keyword: Seq<char>| intext_block(keyword, fts));
        let mut dorks: Vec<String> = Vec::new();
        let mut a: usize = 0;
        assert(blocks.take(0).flatten() =~= Seq::<Seq<char>>::empty());
        while a < n
            invariant
                a <= n,
                n <= keywords.len(),
                n == kws.len(),
                kws == first(texts(keywords@), 10),
                fts == first(texts(file_types@), 5),
                blocks == kws.map_values(|keyword: Seq<char>| intext_block(keyword, fts)),
                texts(dorks@) == blocks.take(a as int).flatten(),
            decreases n - a,
        {
            let keyword = keywords[a].as_str();
            let head = joined("intext:", keyword, " filetype:", "");
            let mut typed = affix(head.as_str(), file_types, 5, "");
            let ghost before = dorks@;
            let ghost typed_items = typed@;
            dorks.append(&mut typed);
            proof {
                assert(kws[a as int] == keyword@);
                reveal_strlit("");
                assert(head@ =~= "intext:"@ + keyword@ + " filetype:"@);
                assert(blocks[a as int] == texts(typed_items));
                assert(texts(dorks@) =~= texts(before) + texts(typed_items));
                lemma_flatten_take_next(blocks, a as int);
            }
            a = a + 1;
        }
        proof {
            assert(blocks.take(n as int) =~= blocks);
        }
        dorks
    }

    /// The `filetype:` dorks.
    pub fn generate_filetype_dorks(
        &self,
        keywords: &[String],
        file_types: &[String],
        domains: &[String],
    ) -> (dorks: Vec<String>)
        ensures
            texts(dorks@) == filetype_dorks(
                texts(keywords@),
                texts(file_types@),
                texts(domains@),
            ),
    {
        let n = at_most(keywords.len(), 10);
        let m = at_most(file_types.len(), 5);
        let ghost kws = first(texts(keywords@), 10);
        let ghost fts = first(texts(file_types@), 5);
        let ghost dms = first(texts(domains@), 3);
        let ghost blocks = kws.map_values(|keyword: Seq<char>| filetype_block(keyword, fts, dms));
        let mut dorks: Vec<String> = Vec::new();
        let mut a: usize = 0;
        assert(blocks.take(0).flatten() =~= Seq::<Seq<char>>::empty());
        while a < n
            invariant
                a <= n,
                n <= keywords.len(),
                n == kws.len(),
                m <= file_types.len(),
                m == fts.len(),
                kws == first(texts(keywords@), 10),
                fts == first(texts(file_types@), 5),
                dms == first(texts(domains@), 3),
                blocks == kws.map_values(
                    |keyword: Seq<char>| filetype_block(keyword, fts, dms),
                ),
                texts(dorks@) == blocks.take(a as int).flatten(),
            decreases n - a,
        {
            let keyword = keywords[a].as_str();
            let ghost done = blocks.take(a as int).flatten();
            let ghost rows = fts.map_values(
                |file_type: Seq<char>| filetype_row(keyword@, file_type, dms),
            );
            assert(kws[a as int] == keyword@);
            assert(blocks[a as int] == rows.flatten());
            assert(rows.take(0).flatten() =~= Seq::<Seq<char>>::empty());
            let mut b: usize = 0;
            while b < m
                invariant
                    a < n,
                    b <= m,
                    m <= file_types.len(),
                    m == fts.len(),
                    fts == first(texts(file_types@), 5),
                    dms == first(texts(domains@), 3),
                    rows == fts.map_values(
                        |file_type: Seq<char>| filetype_row(keyword@, file_type, dms),
                    ),
                    texts(dorks@) == done + rows.take(b as int).flatten(),
                decreases m - b,
            {
                let file_type = file_types[b].as_str();
                let head = joined(keyword, " filetype:", file_type, " site:");
                let mut row = affix(head.as_str(), domains, 3, "");
                let ghost before = dorks@;
                let ghost row_items = row@;
                dorks.append(&mut row);
                proof {
                    assert(fts[b as int] == file_type@);
                    assert(rows[b as int] == texts(row_items));
                    assert(texts(dorks@) =~= texts(before) + texts(row_items));
                    lemma_flatten_take_next(rows, b as int);
                }
                b = b + 1;
            }
            proof {
                assert(rows.take(m as int) =~= rows);
                lemma_flatten_take_next(blocks, a as int);
            }
            a = a + 1;
        }
        proof {
            assert(blocks.take(n as int) =~= blocks);
        }
        dorks
    }

    /// The `site:` dorks.
    pub fn generate_site_dorks(
        &self,
        keywords: &[String],
        _file_types: &[String],
        domains: &[String],
    ) -> (dorks: Vec<String>)
        ensures
            texts(dorks@) == site_dorks(texts(keywords@), texts(domains@)),
    {
        let n = at_most(keywords.len(), 10);
        let ghost kws = first(texts(keywords@), 10);
        let ghost dms = first(texts(domains@), 10);
        let ghost blocks = kws.map_values(|keyword: Seq<char>| site_block(keyword, dms));
        let mut dorks: Vec<String> = Vec::new();
        let mut a: usize = 0;
        assert(blocks.take(0).flatten() =~= Seq::<Seq<char>>::empty());
        while a < n
            invariant
                a <= n,
                n <= keywords.len(),
                n == kws.len(),
                kws == first(texts(keywords@), 10),
                dms == first(texts(domains@), 10),
                blocks == kws.map_values(|keyword: Seq<char>| site_block(keyword, dms)),
                texts(dorks@) == blocks.take(a as int).flatten(),
            decreases n - a,
        {
            let keyword = keywords[a].as_str();
            let tail = joined(" \"", keyword, "\"", "");
            let mut sited = affix("site:", domains, 10, tail.as_str());
            let ghost before = dorks@;
            let ghost sited_items = sited@;
            dorks.append(&mut sited);
            proof {
                assert(kws[a as int] == keyword@);
                reveal_strlit("");
                assert(tail@ =~= " \""@ + keyword@ + "\""@);
                assert(blocks[a as int] == texts(sited_items));
                assert(texts(dorks@) =~= texts(before) + texts(sited_items));
                lemma_flatten_take_next(blocks, a as int);
            }
            a = a + 1;
        }
        proof {
            assert(blocks.take(n as int) =~= blocks);
        }
        dorks
    }

    /// The dorks of a whole run: what the patterns yield and then the common
    /// dorks, without duplicates, at most as many as the limit.
    pub fn run(&self, keywords: Vec<String>, file_types: Vec<String>, domains: Vec<String>) -> (dorks:
        Vec<String>)
        ensures
            texts(dorks@) == generated_dorks(
                texts(self@.patterns@),
                texts(keywords@),
                texts(file_types@),
                texts(domains@),
                self@.limit as nat,
            ),
            texts(dorks@).no_duplicates(),
            dorks.len() <= self@.limit,
    {
        let limit = self.config.limit as usize;
        let ghost cap = self@.limit as nat;
        let ghost kws = texts(keywords@);
        let ghost fts = texts(file_types@);
        let ghost dms = texts(domains@);
        let ghost yields = texts(self@.patterns@).map_values(
            |pattern: Seq<char>| capped_pattern_dorks(pattern, kws, fts, dms, cap),
        );
        let ghost templates = yields.flatten();
        let mut found = Accumulator::new();
        let mut p: usize = 0;
        assert(yields.take(0).flatten() =~= Seq::<Seq<char>>::empty());
        while p < self.config.patterns.len() && found.len() < limit
            invariant
                p <= self.config.patterns.len(),
                limit == cap,
                cap == self@.limit,
                kws == texts(keywords@),
                fts == texts(file_types@),
                dms == texts(domains@),
                self.config == self@,
                yields == texts(self@.patterns@).map_values(
                    |pattern: Seq<char>| capped_pattern_dorks(pattern, kws, fts, dms, cap),
                ),
                found@ == first(distinct(yields.take(p as int).flatten()), cap),
            decreases self.config.patterns.len() - p,
        {
            let generated = self.generate_from_pattern(
                self.config.patterns[p].as_str(),
                keywords.as_slice(),
                file_types.as_slice(),
                domains.as_slice(),
            );
            let ghost earlier = yields.take(p as int).flatten();
            let ghost batch = texts(generated@);
            assert(yields[p as int] == batch);
            assert(earlier + batch.take(0) =~= earlier);
            for dork in it: generated
                invariant
                    limit == cap,
                    texts(it.seq()) == batch,
                    found@ == first(distinct(earlier + batch.take(it.index())), cap),
            {
                proof {
                    let done = it.index();
                    assert(earlier + batch.take(done + 1) =~= (earlier + batch.take(done)).push(
                        dork@,
                    ));
                    lemma_bounded_insert(earlier + batch.take(done), dork@, cap);
                }
                if found.len() < limit {
                    found.insert(dork);
                }
            }
            proof {
                assert(batch.take(batch.len() as int) =~= batch);
                lemma_flatten_take_next(yields, p as int);
            }
            p = p + 1;
        }
        proof {
            let seen = yields.take(p as int).flatten();
            lemma_flatten_take_prefix(yields, p as int);
            let rest = templates.skip(seen.len() as int);
            assert(templates =~= seen + rest);
            lemma_distinct_members(seen);
            if p < self.config.patterns.len() {
                lemma_distinct_prefix(seen, rest);
                assert(distinct(templates).take(cap as int) =~= distinct(templates).take(
                    distinct(seen).len() as int,
                ).take(cap as int));
            } else {
                assert(yields.take(p as int) =~= yields);
            }
            assert(found@ == first(distinct(templates), cap));
        }
        let ghost held = found@;
        let inurl = self.generate_inurl_dorks(
            keywords.as_slice(),
            file_types.as_slice(),
            domains.as_slice(),
        );
        let intext = self.generate_intext_dorks(
            keywords.as_slice(),
            file_types.as_slice(),
            domains.as_slice(),
        );
        let filetype = self.generate_filetype_dorks(
            keywords.as_slice(),
            file_types.as_slice(),
            domains.as_slice(),
        );
        let site = self.generate_site_dorks(
            keywords.as_slice(),
            file_types.as_slice(),
            domains.as_slice(),
        );
        let ghost i = texts(inurl@);
        let ghost x = texts(intext@);
        let ghost f = texts(filetype@);
        let ghost s = texts(site@);
        found.extend(inurl);
        found.extend(intext);
        found.extend(filetype);
        found.extend(site);
        proof {
            lemma_distinct_absorb(held + i, x);
            lemma_distinct_absorb(held + i + x, f);
            lemma_distinct_absorb(held + i + x + f, s);
            assert(held + i + x + f + s =~= held + (i + x + f + s));
            assert(i + x + f + s == common_dorks(kws, fts, dms));
            lemma_bounded_then_all(templates, common_dorks(kws, fts, dms), cap);
        }
        let mut dorks = found.drain();
        let ghost all = dorks@;
        dorks.truncate(limit);
        proof {
            if limit <= all.len() {
                assert(texts(dorks@) =~= texts(all).take(limit as int));
            }
        }
        dorks
    }
}

} // verus!
