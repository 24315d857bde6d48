//! What stays the same when a sequence is rearranged.
//!
//! Two sequences are rearrangements of each other when they hold the same
//! items, each as often in one as in the other: when their multisets are equal.

use vstd::multiset::*;
use vstd::prelude::*;
use vstd::seq_lib::*;

verus! {

/// The items of a sequence that satisfy a predicate are, counted with their
/// number, the items of its multiset that satisfy it.
pub proof fn lemma_filter_multiset<A>(items: Seq<A>, pred: spec_fn(A) -> bool)
    ensures
        items.filter(pred).to_multiset() == items.to_multiset().filter(pred),
    decreases items.len(),
{
    broadcast use group_multiset_axioms;
    broadcast use group_to_multiset_ensures;

    if items.len() == 0 {
        reveal_with_fuel(Seq::filter, 1);
        assert(items.filter(pred) =~= Seq::<A>::empty());
        assert(items.to_multiset() =~= Multiset::<A>::empty());
        assert(items.filter(pred).to_multiset() =~= items.to_multiset().filter(pred));
    } else {
        let rest = items.drop_last();
        let last = items.last();
        assert(items =~= rest.push(last));
        lemma_filter_multiset(rest, pred);
        rest.lemma_filter_push(last, pred);
        to_multiset_build(rest, last);
        if pred(last) {
            to_multiset_build(rest.filter(pred), last);
        }
        assert(items.filter(pred).to_multiset() =~= items.to_multiset().filter(pred));
    }
}

/// Rearranging a sequence rearranges the items of it that satisfy a predicate.
pub proof fn lemma_filter_rearranged<A>(first: Seq<A>, second: Seq<A>, pred: spec_fn(A) -> bool)
    requires
        first.to_multiset() == second.to_multiset(),
    ensures
        first.filter(pred).to_multiset() == second.filter(pred).to_multiset(),
        first.filter(pred).len() == second.filter(pred).len(),
{
    lemma_filter_multiset(first, pred);
    lemma_filter_multiset(second, pred);
    to_multiset_len(first.filter(pred));
    to_multiset_len(second.filter(pred));
}

/// Rearranging a sequence rearranges the values that a function takes on it.
pub proof fn lemma_map_rearranged<A, B>(first: Seq<A>, second: Seq<A>, f: spec_fn(A) -> B)
    requires
        first.to_multiset() == second.to_multiset(),
    ensures
        first.map_values(f).to_multiset() == second.map_values(f).to_multiset(),
    decreases first.len(),
{
    broadcast use group_multiset_axioms;
    broadcast use group_to_multiset_ensures;

    to_multiset_len(first);
    to_multiset_len(second);
    if first.len() == 0 {
        assert(first.map_values(f) =~= second.map_values(f));
    } else {
        let item = first.last();
        let rest = first.drop_last();
        assert(first =~= rest.push(item));
        to_multiset_build(rest, item);
        assert(first.to_multiset().count(item) > 0);
        assert(second.contains(item));
        let i = second.index_of(item);
        let others = second.remove(i);
        to_multiset_remove(second, i);
        assert(rest.to_multiset() =~= others.to_multiset());
        lemma_map_rearranged(rest, others, f);
        assert(first.map_values(f) =~= rest.map_values(f).push(f(item)));
        to_multiset_build(rest.map_values(f), f(item));
        assert(others.map_values(f) =~= second.map_values(f).remove(i));
        to_multiset_remove(second.map_values(f), i);
        assert(second.map_values(f).contains(second.map_values(f)[i]));
        assert(first.map_values(f).to_multiset() =~= second.map_values(f).to_multiset());
    }
}

/// Rearranging a list of numbers changes neither its length, nor its least,
/// nor its greatest.
pub proof fn lemma_extremes_rearranged(first: Seq<int>, second: Seq<int>)
    requires
        first.to_multiset() == second.to_multiset(),
    ensures
        first.len() == second.len(),
        first.min() == second.min(),
        first.max() == second.max(),
{
    broadcast use group_to_multiset_ensures;

    to_multiset_len(first);
    to_multiset_len(second);
    first.min_ensures();
    first.max_ensures();
    second.min_ensures();
    second.max_ensures();
    if first.len() > 0 {
        assert(first.to_multiset().count(first.min()) > 0);
        assert(first.to_multiset().count(first.max()) > 0);
        assert(second.to_multiset().count(second.min()) > 0);
        assert(second.to_multiset().count(second.max()) > 0);
        assert(second.contains(first.min()));
        assert(second.contains(first.max()));
        assert(first.contains(second.min()));
        assert(first.contains(second.max()));
    }
}

} // verus!
