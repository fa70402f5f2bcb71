//! Lemmas on sequences of sequences laid end to end.

use vstd::prelude::*;

verus! {

/// The first `n` items of `s`, or all of them where there are fewer.
pub open spec fn first<A>(s: Seq<A>, n: nat) -> Seq<A> {
    if n <= s.len() {
        s.take(n as int)
    } else {
        s
    }
}

/// Laying out one more row appends that row.
pub proof fn lemma_flatten_take_next<A>(rows: Seq<Seq<A>>, i: int)
    requires
        0 <= i < rows.len(),
    ensures
        rows.take(i + 1).flatten() == rows.take(i).flatten() + rows[i],
{
    assert(rows.take(i + 1) =~= rows.take(i).push(rows[i]));
    rows.take(i).lemma_flatten_push(rows[i]);
}

/// The first `i` rows laid out open the layout of all rows.
pub proof fn lemma_flatten_take_prefix<A>(rows: Seq<Seq<A>>, i: int)
    requires
        0 <= i <= rows.len(),
    ensures
        rows.take(i).flatten().is_prefix_of(rows.flatten()),
    decreases rows.len() - i,
{
    if i == rows.len() {
        assert(rows.take(i) =~= rows);
    } else {
        lemma_flatten_take_next(rows, i);
        lemma_flatten_take_prefix(rows, i + 1);
    }
}

/// The first `i` rows and the first `k` items of the next row open the layout
/// of all rows.
pub proof fn lemma_flatten_prefix<A>(rows: Seq<Seq<A>>, i: int, k: int)
    requires
        0 <= i < rows.len(),
        0 <= k <= rows[i].len(),
    ensures
        (rows.take(i).flatten() + rows[i].take(k)).is_prefix_of(rows.flatten()),
{
    lemma_flatten_take_next(rows, i);
    lemma_flatten_take_prefix(rows, i + 1);
}

} // verus!
