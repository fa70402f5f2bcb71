//! The deduplicating accumulator that every task of one run feeds.
//!
//! An accumulator is modelled by the sequence of its items in the order in
//! which each was first inserted. No item occurs twice in that sequence, so
//! its length is the number of distinct items ever inserted.
//!
//! The items are kept in a vector, not in std's `HashSet<String>`: vstd
//! states what a hash set holds only for keys that have a key model, which
//! it gives to the integer types and not to `String`, so of such a set not
//! even the size after one insert can be proved.

use crate::sequences::first;
use crate::text::same_text;
use crate::text::texts;
use vstd::prelude::*;
use vstd::seq_lib::lemma_seq_concat_contains_all_elements;
use vstd::seq_lib::lemma_seq_contains_after_push;

verus! {

/// The items of `s`, each kept at its first occurrence only.
pub open spec fn distinct<A>(s: Seq<A>) -> Seq<A>
    decreases s.len(),
{
    if s.len() == 0 {
        Seq::empty()
    } else {
        let front = distinct(s.drop_last());
        if front.contains(s.last()) {
            front
        } else {
            front.push(s.last())
        }
    }
}

/// `distinct(s)` holds exactly the items of `s`, each once.
pub proof fn lemma_distinct_members<A>(s: Seq<A>)
    ensures
        distinct(s).no_duplicates(),
        distinct(s).len() <= s.len(),
        forall|x: A| #[trigger] distinct(s).contains(x) <==> s.contains(x),
    decreases s.len(),
{
    if s.len() > 0 {
        let init = s.drop_last();
        let front = distinct(init);
        lemma_distinct_members(init);
        assert(init.push(s.last()) =~= s);
        assert forall|x: A| #[trigger] distinct(s).contains(x) <==> s.contains(x) by {
            lemma_seq_contains_after_push(init, s.last(), x);
            lemma_seq_contains_after_push(front, s.last(), x);
        }
    }
}

/// Pushing one more item onto the input inserts it unless it is there already.
pub proof fn lemma_distinct_push<A>(s: Seq<A>, x: A)
    ensures
        distinct(s.push(x)) == if s.contains(x) {
            distinct(s)
        } else {
            distinct(s).push(x)
        },
{
    assert(s.push(x).drop_last() =~= s);
    lemma_distinct_members(s);
}

/// A sequence without duplicates is its own `distinct`.
pub proof fn lemma_distinct_of_unique<A>(s: Seq<A>)
    requires
        s.no_duplicates(),
    ensures
        distinct(s) == s,
    decreases s.len(),
{
    if s.len() > 0 {
        let init = s.drop_last();
        lemma_distinct_of_unique(init);
        if init.contains(s.last()) {
            let i = choose|i: int| 0 <= i < init.len() && init[i] == s.last();
            assert(s[i] == s[s.len() - 1]);
        }
        assert(init.push(s.last()) =~= s);
    } else {
        assert(s =~= Seq::empty());
    }
}

/// What was first inserted stays first: `distinct(p)` opens `distinct(p + q)`.
pub proof fn lemma_distinct_prefix<A>(p: Seq<A>, q: Seq<A>)
    ensures
        distinct(p).len() <= distinct(p + q).len(),
        distinct(p + q).take(distinct(p).len() as int) == distinct(p),
    decreases q.len(),
{
    if q.len() == 0 {
        assert(p + q =~= p);
        assert(distinct(p).take(distinct(p).len() as int) =~= distinct(p));
    } else {
        let init = q.drop_last();
        lemma_distinct_prefix(p, init);
        assert((p + q).drop_last() =~= p + init);
        assert((p + q).last() == q.last());
        let whole = distinct(p + init);
        assert(distinct(p + q).take(distinct(p).len() as int) =~= whole.take(
            distinct(p).len() as int,
        ));
    }
}

/// Deduplicating a part first changes nothing: `distinct(distinct(a) + b)`
/// is `distinct(a + b)`.
pub proof fn lemma_distinct_absorb<A>(a: Seq<A>, b: Seq<A>)
    ensures
        distinct(distinct(a) + b) == distinct(a + b),
    decreases b.len(),
{
    lemma_distinct_members(a);
    if b.len() == 0 {
        assert(distinct(a) + b =~= distinct(a));
        assert(a + b =~= a);
        lemma_distinct_of_unique(distinct(a));
    } else {
        let init = b.drop_last();
        lemma_distinct_absorb(a, init);
        assert((distinct(a) + b).drop_last() =~= distinct(a) + init);
        assert((a + b).drop_last() =~= a + init);
        assert((distinct(a) + b).last() == b.last());
        assert((a + b).last() == b.last());
    }
}

/// However often items repeat among the inserts, the size that results is
/// the number of distinct items.
pub proof fn lemma_distinct_len<A>(s: Seq<A>)
    ensures
        distinct(s).len() == s.to_set().len(),
        distinct(s).to_set() == s.to_set(),
{
    lemma_distinct_members(s);
    distinct(s).unique_seq_to_set();
    assert(distinct(s).to_set() =~= s.to_set());
}

/// In whatever order two batches are merged, the same items are held.
pub proof fn lemma_merge_order(a: Seq<Seq<char>>, b: Seq<Seq<char>>)
    ensures
        distinct(a + b).to_set() == distinct(b + a).to_set(),
        distinct(a + b).len() == distinct(b + a).len(),
{
    lemma_distinct_len(a + b);
    lemma_distinct_len(b + a);
    assert((a + b).to_set() =~= (b + a).to_set()) by {
        assert forall|x: Seq<char>| (a + b).contains(x) <==> (b + a).contains(x) by {
            lemma_seq_concat_contains_all_elements(a, b, x);
            lemma_seq_concat_contains_all_elements(b, a, x);
        }
    }
}

/// Inserting only while fewer than `limit` items are held keeps the first
/// `limit` distinct items of what was offered.
pub proof fn lemma_bounded_insert<A>(offered: Seq<A>, x: A, limit: nat)
    ensures
        first(distinct(offered), limit).len() < limit ==> distinct(
            first(distinct(offered), limit).push(x),
        ) == first(distinct(offered.push(x)), limit),
        first(distinct(offered), limit).len() >= limit ==> first(distinct(offered), limit)
            == first(distinct(offered.push(x)), limit),
{
    let held = distinct(offered);
    lemma_distinct_members(offered);
    lemma_distinct_push(offered, x);
    if first(held, limit).len() < limit {
        lemma_distinct_of_unique(held);
        lemma_distinct_push(held, x);
    } else {
        assert(held.push(x).take(limit as int) =~= held.take(limit as int));
    }
}

/// What the first `limit` distinct items of `early` and then all of `late`
/// give, cut to `limit`, is the first `limit` distinct items of both.
pub proof fn lemma_bounded_then_all<A>(early: Seq<A>, late: Seq<A>, limit: nat)
    ensures
        first(distinct(first(distinct(early), limit) + late), limit) == first(
            distinct(early + late),
            limit,
        ),
{
    let held = first(distinct(early), limit);
    lemma_distinct_members(early);
    if distinct(early).len() <= limit {
        assert(held =~= distinct(early));
        lemma_distinct_absorb(early, late);
    } else {
        assert(held.no_duplicates());
        lemma_distinct_of_unique(held);
        lemma_distinct_prefix(held, late);
        lemma_distinct_prefix(early, late);
        let both = distinct(early + late);
        assert(both.take(limit as int) =~= both.take(distinct(early).len() as int).take(
            limit as int,
        ));
    }
}

/// A set of strings, kept in the order of first insertion.
pub struct Accumulator {
    items: Vec<String>,
}

impl View for Accumulator {
    type V = Seq<Seq<char>>;

    closed spec fn view(&self) -> Seq<Seq<char>> {
        texts(self.items@)
    }
}

impl Accumulator {
    /// What holds of every accumulator: nothing is held twice.
    #[verifier::type_invariant]
    pub closed spec fn unique(self) -> bool {
        texts(self.items@).no_duplicates()
    }

    /// An accumulator is what deduplication leaves of itself.
    pub proof fn lemma_unique(self)
        requires
            self.unique(),
        ensures
            self@.no_duplicates(),
            distinct(self@) == self@,
    {
        lemma_distinct_of_unique(self@);
    }

    /// An accumulator that holds nothing.
    pub fn new() -> (acc: Self)
        ensures
            acc@ == Seq::<Seq<char>>::empty(),
    {
        let acc = Accumulator { items: Vec::new() };
        assert(texts(acc.items@) =~= Seq::<Seq<char>>::empty());
        acc
    }

    /// The number of items held, which is the number of distinct items.
    pub fn len(&self) -> (n: usize)
        ensures
            n == self@.len(),
            n == self@.to_set().len(),
            self@.no_duplicates(),
    {
        proof {
            use_type_invariant(self);
            self@.unique_seq_to_set();
        }
        self.items.len()
    }

    /// Whether nothing is held.
    pub fn is_empty(&self) -> (empty: bool)
        ensures
            empty == (self@.len() == 0),
    {
        self.items.len() == 0
    }

    /// Whether `item` is held.
    pub fn contains(&self, item: &str) -> (found: bool)
        ensures
            found == self@.contains(item@),
    {
        let mut i: usize = 0;
        while i < self.items.len()
            invariant
                i <= self.items.len(),
                forall|j: int| 0 <= j < i ==> self@[j] != item@,
            decreases self.items.len() - i,
        {
            if same_text(self.items[i].as_str(), item) {
                assert(self@[i as int] == item@);
                return true;
            }
            i = i + 1;
        }
        false
    }

    /// Inserts `item` unless it is held already; says whether it was new.
    pub fn insert(&mut self, item: String) -> (fresh: bool)
        ensures
            fresh == !old(self)@.contains(item@),
            final(self)@ == distinct(old(self)@.push(item@)),
            final(self)@ == if fresh {
                old(self)@.push(item@)
            } else {
                old(self)@
            },
            final(self)@.no_duplicates(),
    {
        proof {
            use_type_invariant(&*self);
            lemma_distinct_of_unique(self@);
            lemma_distinct_push(self@, item@);
        }
        if self.contains(item.as_str()) {
            false
        } else {
            let ghost before = self.items@;
            let mut items: Vec<String> = Vec::new();
            assert(texts(items@) =~= Seq::<Seq<char>>::empty());
            std::mem::swap(&mut self.items, &mut items);
            items.push(item);
            proof {
                assert(texts(items@) =~= texts(before).push(item@));
                lemma_distinct_members(texts(before).push(item@));
            }
            self.items = items;
            true
        }
    }

    /// Inserts every item of `items`, in order, skipping what is held already.
    pub fn extend(&mut self, items: Vec<String>)
        ensures
            final(self)@ == distinct(old(self)@ + texts(items@)),
            final(self)@.no_duplicates(),
    {
        self.merge(items, false);
    }

    /// Merges one page of results. With `dedupe` an item is inserted only
    /// after a look whether it is held already; without it every item is
    /// handed to the set, which keeps one of each all the same.
    pub fn merge(&mut self, items: Vec<String>, dedupe: bool)
        ensures
            final(self)@ == distinct(old(self)@ + texts(items@)),
            final(self)@.no_duplicates(),
    {
        let ghost all = texts(items@);
        let ghost start = self@;
        proof {
            use_type_invariant(&*self);
            lemma_distinct_of_unique(self@);
            assert(start + all.take(0) =~= start);
        }
        for item in it: items
            invariant
                texts(it.seq()) == all,
                self@ == distinct(start + all.take(it.index())),
        {
            proof {
                let done = it.index();
                assert(start + all.take(done + 1) =~= (start + all.take(done)).push(item@));
                lemma_distinct_members(start + all.take(done));
                lemma_distinct_push(start + all.take(done), item@);
            }
            if !dedupe || !self.contains(item.as_str()) {
                self.insert(item);
            }
        }
        proof {
            assert(all.take(all.len() as int) =~= all);
            lemma_distinct_members(start + all);
        }
    }

    /// A copy of everything held, in the order of first insertion.
    pub fn snapshot(&self) -> (items: Vec<String>)
        ensures
            texts(items@) == self@,
            texts(items@).no_duplicates(),
    {
        proof {
            use_type_invariant(self);
        }
        let mut items: Vec<String> = Vec::new();
        let mut i: usize = 0;
        while i < self.items.len()
            invariant
                i <= self.items.len(),
                texts(items@) == self@.take(i as int),
            decreases self.items.len() - i,
        {
            let ghost before = items@;
            let item = self.items[i].clone();
            items.push(item);
            assert(texts(items@) =~= texts(before).push(item@));
            i = i + 1;
        }
        assert(self@.take(i as int) =~= self@);
        items
    }

    /// Hands out everything held, in the order of first insertion, and
    /// leaves the accumulator empty.
    pub fn drain(&mut self) -> (items: Vec<String>)
        ensures
            texts(items@) == old(self)@,
            texts(items@).no_duplicates(),
            final(self)@ == Seq::<Seq<char>>::empty(),
    {
        proof {
            use_type_invariant(&*self);
        }
        let mut items: Vec<String> = Vec::new();
        assert(texts(items@) =~= Seq::<Seq<char>>::empty());
        std::mem::swap(&mut self.items, &mut items);
        items
    }
}

} // verus!
