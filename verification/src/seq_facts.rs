//! Facts about filtered sequences that the world's transitions rest on.

use vstd::prelude::*;

verus! {

/// A filter that every item passes keeps the sequence as it is.
pub proof fn lemma_filter_keeps_all<A>(s: Seq<A>, pred: spec_fn(A) -> bool)
    requires
        forall|i: int| 0 <= i < s.len() ==> pred(#[trigger] s[i]),
    ensures
        s.filter(pred) == s,
    decreases s.len(),
{
    reveal(Seq::filter);
    if s.len() > 0 {
        lemma_filter_keeps_all(s.drop_last(), pred);
        assert(s.drop_last().push(s.last()) =~= s);
    }
}

/// A filter that exactly one item fails removes that item and nothing else.
pub proof fn lemma_filter_drops_one<A>(s: Seq<A>, pred: spec_fn(A) -> bool, k: int)
    requires
        0 <= k < s.len(),
        !pred(s[k]),
        forall|i: int| 0 <= i < s.len() && i != k ==> pred(#[trigger] s[i]),
    ensures
        s.filter(pred) == s.remove(k),
    decreases s.len(),
{
    reveal(Seq::filter);
    if k == s.len() - 1 {
        lemma_filter_keeps_all(s.drop_last(), pred);
        assert(s.drop_last() =~= s.remove(k));
    } else {
        lemma_filter_drops_one(s.drop_last(), pred, k);
        assert(s.drop_last().remove(k).push(s.last()) =~= s.remove(k));
    }
}

/// Filtering a sequence that grew by one item filters what was there, and
/// then keeps the new item or not.
pub proof fn lemma_filter_push<A>(s: Seq<A>, pred: spec_fn(A) -> bool, a: A)
    ensures
        s.push(a).filter(pred) == if pred(a) {
            s.filter(pred).push(a)
        } else {
            s.filter(pred)
        },
{
    reveal(Seq::filter);
    assert(s.push(a).drop_last() =~= s);
}

/// An item of a filtered sequence is an item of the sequence, and passes.
pub proof fn lemma_filter_member<A>(s: Seq<A>, pred: spec_fn(A) -> bool, j: int) -> (i: int)
    requires
        0 <= j < s.filter(pred).len(),
    ensures
        0 <= i < s.len(),
        s[i] == s.filter(pred)[j],
        pred(s[i]),
    decreases s.len(),
{
    reveal(Seq::filter);
    let rest = s.drop_last().filter(pred);
    if pred(s.last()) && j == rest.len() {
        s.len() - 1
    } else {
        lemma_filter_member(s.drop_last(), pred, j)
    }
}

/// Filtering keeps the items in their order: two items of the filtered
/// sequence come from two items of the sequence in the same order.
pub proof fn lemma_filter_order<A>(s: Seq<A>, pred: spec_fn(A) -> bool, j1: int, j2: int) -> (r: (
    int,
    int,
))
    requires
        0 <= j1 < j2 < s.filter(pred).len(),
    ensures
        0 <= r.0 < r.1 < s.len(),
        s[r.0] == s.filter(pred)[j1],
        s[r.1] == s.filter(pred)[j2],
    decreases s.len(),
{
    reveal(Seq::filter);
    let rest = s.drop_last().filter(pred);
    if pred(s.last()) && j2 == rest.len() {
        let i1 = lemma_filter_member(s.drop_last(), pred, j1);
        (i1, s.len() - 1)
    } else {
        lemma_filter_order(s.drop_last(), pred, j1, j2)
    }
}

/// An item that passes the filter is found in the filtered sequence.
pub proof fn lemma_filter_keeps<A>(s: Seq<A>, pred: spec_fn(A) -> bool, i: int) -> (j: int)
    requires
        0 <= i < s.len(),
        pred(s[i]),
    ensures
        0 <= j < s.filter(pred).len(),
        s.filter(pred)[j] == s[i],
    decreases s.len(),
{
    reveal(Seq::filter);
    if i == s.len() - 1 {
        s.drop_last().filter(pred).len() as int
    } else {
        lemma_filter_keeps(s.drop_last(), pred, i)
    }
}

} // verus!
