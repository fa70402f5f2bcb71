//! Ranking of scored items: highest score first, equal scores in the order
//! in which they came.

use vstd::prelude::*;

verus! {

/// A scored item as contracts see it: the subject's characters and the score.
pub type Scored = (Seq<char>, u32);

/// The scored items that a vector holds.
pub open spec fn scored(items: Seq<(String, u32)>) -> Seq<Scored> {
    items.map_values(|e: (String, u32)| (e.0@, e.1))
}

/// The test "has score `score`".
pub open spec fn has_score(score: u32) -> spec_fn(Scored) -> bool {
    |e: Scored| e.1 == score
}

/// Whether the scores never rise along `items`.
pub open spec fn descending(items: Seq<Scored>) -> bool {
    forall|i: int, j: int| 0 <= i <= j < items.len() ==> items[i].1 >= items[j].1
}

/// Whether `ranked` is `items` ranked: the scores never rise, and for each
/// score the items that have it are those of `items`, in the same order.
/// This fixes `ranked`: it is the items of the highest score in the order in
/// which they came, then those of the next score, and so on.
pub open spec fn is_ranking_of(ranked: Seq<Scored>, items: Seq<Scored>) -> bool {
    &&& descending(ranked)
    &&& ranked.len() == items.len()
    &&& forall|score: u32| #[trigger]
        ranked.filter(has_score(score)) == items.filter(has_score(score))
}

/// The test "has score `score` or more".
pub open spec fn has_at_least(score: nat) -> spec_fn(Scored) -> bool {
    |e: Scored| e.1 >= score
}

/// The items of score `from` or more, layer by layer: those of the highest
/// score first, and within one score in the order in which they came.
pub open spec fn layers(items: Seq<Scored>, from: nat) -> Seq<Scored>
    decreases 0x1_0000_0000 - from,
{
    if from > u32::MAX {
        Seq::empty()
    } else {
        layers(items, from + 1) + items.filter(has_score(from as u32))
    }
}

/// `items` ranked.
pub open spec fn ranked(items: Seq<Scored>) -> Seq<Scored> {
    layers(items, 0)
}

/// Along a sequence whose scores never rise, the items of a score or more
/// are those of a higher score and then those of just that score.
proof fn lemma_descending_split(items: Seq<Scored>, score: u32)
    requires
        descending(items),
    ensures
        items.filter(has_at_least(score as nat)) == items.filter(has_at_least((score + 1) as nat))
            + items.filter(has_score(score)),
    decreases items.len(),
{
    let all = has_at_least(score as nat);
    let above = has_at_least((score + 1) as nat);
    let just = has_score(score);
    if items.len() == 0 {
        reveal(Seq::filter);
    } else {
        let init = items.drop_last();
        let x = items.last();
        assert(init.push(x) =~= items);
        assert(descending(init)) by {
            assert forall|i: int, j: int| 0 <= i <= j < init.len() implies init[i].1
                >= init[j].1 by {
                assert(init[i] == items[i] && init[j] == items[j]);
            }
        }
        lemma_descending_split(init, score);
        init.lemma_filter_push(x, all);
        init.lemma_filter_push(x, above);
        init.lemma_filter_push(x, just);
        if x.1 > score {
            assert forall|i: int| 0 <= i < init.len() implies !just(#[trigger] init[i]) by {
                assert(init[i] == items[i]);
                assert(items[i].1 >= items[items.len() - 1].1);
            }
            lemma_filter_none(init, just);
            assert(items.filter(all) =~= items.filter(above) + items.filter(just));
        } else {
            assert(items.filter(all) =~= items.filter(above) + items.filter(just));
        }
    }
}

/// A sequence whose scores never rise is made of its own layers.
proof fn lemma_descending_layers(items: Seq<Scored>, from: nat)
    requires
        descending(items),
    ensures
        layers(items, from) == items.filter(has_at_least(from)),
    decreases 0x1_0000_0000 - from,
{
    if from > u32::MAX {
        assert forall|i: int| 0 <= i < items.len() implies !has_at_least(from)(
            #[trigger] items[i],
        ) by {}
        lemma_filter_none(items, has_at_least(from));
    } else {
        lemma_descending_layers(items, from + 1);
        lemma_descending_split(items, from as u32);
    }
}

/// Layers depend on nothing but which items have which score, in what order.
proof fn lemma_layers_by_score(a: Seq<Scored>, b: Seq<Scored>, from: nat)
    requires
        forall|score: u32| #[trigger] a.filter(has_score(score)) == b.filter(has_score(score)),
    ensures
        layers(a, from) == layers(b, from),
    decreases 0x1_0000_0000 - from,
{
    if from <= u32::MAX {
        lemma_layers_by_score(a, b, from + 1);
    }
}

/// A ranking is fixed by what is ranked: there is exactly one.
pub proof fn lemma_ranking_fixed(ranking: Seq<Scored>, items: Seq<Scored>)
    requires
        is_ranking_of(ranking, items),
    ensures
        ranking == ranked(items),
{
    lemma_descending_layers(ranking, 0);
    lemma_layers_by_score(ranking, items, 0);
    assert forall|i: int| 0 <= i < ranking.len() implies has_at_least(0)(#[trigger] ranking[i]) by {}
    lemma_filter_all(ranking, has_at_least(0));
}

/// A sequence in which everything passes the test filters to itself.
pub proof fn lemma_filter_all<A>(s: Seq<A>, pred: spec_fn(A) -> bool)
    requires
        forall|i: int| 0 <= i < s.len() ==> pred(#[trigger] s[i]),
    ensures
        s.filter(pred) == s,
    decreases s.len(),
{
    reveal(Seq::filter);
    if s.len() > 0 {
        lemma_filter_all(s.drop_last(), pred);
        assert(s.drop_last().push(s.last()) =~= s);
    }
}

/// A sequence in which nothing passes the test filters to nothing.
pub proof fn lemma_filter_none<A>(s: Seq<A>, pred: spec_fn(A) -> bool)
    requires
        forall|i: int| 0 <= i < s.len() ==> !pred(#[trigger] s[i]),
    ensures
        s.filter(pred) == Seq::<A>::empty(),
    decreases s.len(),
{
    reveal(Seq::filter);
    if s.len() > 0 {
        lemma_filter_none(s.drop_last(), pred);
    }
}

/// Every item of a ranking is an item of what was ranked.
pub proof fn lemma_ranking_members(ranked: Seq<Scored>, items: Seq<Scored>, i: int)
    requires
        is_ranking_of(ranked, items),
        0 <= i < ranked.len(),
    ensures
        items.contains(ranked[i]),
{
    let pred = has_score(ranked[i].1);
    ranked.lemma_filter_contains(pred, i);
    assert(ranked.filter(pred) == items.filter(pred));
    items.lemma_filter_contains_rev(pred, ranked[i]);
}

/// Ranks `items`: highest score first, equal scores in the order given.
pub fn rank(items: Vec<(String, u32)>) -> (ranked: Vec<(String, u32)>)
    ensures
        is_ranking_of(scored(ranked@), scored(items@)),
        scored(ranked@) == self::ranked(scored(items@)),
{
    let ghost all = scored(items@);
    let mut ranked: Vec<(String, u32)> = Vec::new();
    proof {
        assert(scored(ranked@) =~= Seq::<Scored>::empty());
        assert forall|score: u32| #[trigger]
            scored(ranked@).filter(has_score(score)) == all.take(0).filter(
                has_score(score),
            ) by {
            reveal(Seq::filter);
            assert(all.take(0) =~= Seq::<Scored>::empty());
        }
    }
    for item in it: items
        invariant
            scored(it.seq()) == all,
            descending(scored(ranked@)),
            ranked.len() == it.index(),
            forall|score: u32| #[trigger]
                scored(ranked@).filter(has_score(score)) == all.take(it.index()).filter(
                    has_score(score),
                ),
    {
        let ghost done = it.index();
        let ghost before = scored(ranked@);
        let ghost x: Scored = (item.0@, item.1);
        let mut p: usize = 0;
        while p < ranked.len() && ranked[p].1 >= item.1
            invariant
                p <= ranked.len(),
                before == scored(ranked@),
                forall|i: int| 0 <= i < p ==> before[i].1 >= item.1,
            decreases ranked.len() - p,
        {
            p = p + 1;
        }
        ranked.insert(p, item);
        proof {
            let after = scored(ranked@);
            let head = before.take(p as int);
            let tail = before.skip(p as int);
            assert(after =~= head + seq![x] + tail);
            assert(before =~= head + tail);
            assert(all.take(done + 1) =~= all.take(done).push(x));
            assert forall|i: int| 0 <= i < tail.len() implies #[trigger] tail[i].1 < x.1 by {
                assert(before[p as int].1 < x.1);
                assert(before[p as int].1 >= before[p + i].1);
            }
            assert forall|score: u32| #[trigger]
                after.filter(has_score(score)) == all.take(done + 1).filter(
                    has_score(score),
                ) by {
                let pred = has_score(score);
                Seq::filter_distributes_over_add(head + seq![x], tail, pred);
                Seq::filter_distributes_over_add(head, seq![x], pred);
                Seq::filter_distributes_over_add(head, tail, pred);
                all.take(done).lemma_filter_push(x, pred);
                assert(before.filter(pred) == all.take(done).filter(pred));
                assert(seq![x] =~= Seq::<Scored>::empty().push(x));
                Seq::<Scored>::empty().lemma_filter_push(x, pred);
                assert(Seq::<Scored>::empty().filter(pred) =~= Seq::<Scored>::empty()) by {
                    reveal(Seq::filter);
                }
                if score == x.1 {
                    lemma_filter_none(tail, pred);
                    assert(after.filter(pred) =~= head.filter(pred).push(x));
                    assert(before.filter(pred) =~= head.filter(pred));
                } else {
                    assert(seq![x].filter(pred) =~= Seq::<Scored>::empty());
                    assert(after.filter(pred) =~= head.filter(pred) + tail.filter(pred));
                }
            }
            assert forall|i: int, j: int| 0 <= i <= j < after.len() implies after[i].1
                >= after[j].1 by {
                if j < p {
                    assert(after[i] == before[i] && after[j] == before[j]);
                } else if j == p {
                    if i < p {
                        assert(after[i] == before[i]);
                    }
                } else {
                    assert(after[j] == before[j - 1]);
                    assert(after[j] == tail[j - 1 - p]);
                    if i < p {
                        assert(after[i] == before[i]);
                    } else if i > p {
                        assert(after[i] == before[i - 1]);
                    }
                }
            }
        }
    }
    proof {
        assert(all.take(all.len() as int) =~= all);
        lemma_ranking_fixed(scored(ranked@), all);
    }
    ranked
}

} // verus!
