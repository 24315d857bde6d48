//! Ordering result records by their number of commits, most first.

use vstd::multiset::*;
use vstd::prelude::*;
use vstd::seq_lib::*;

verus! {

/// A record that carries a number of commits by which it is ranked.
pub trait Ranked {
    /// The number of commits of the record.
    spec fn rank(&self) -> nat;

    /// The number of commits of the record.
    fn rank_value(&self) -> (value: u32)
        ensures
            value == self.rank(),
    ;
}

/// Whether no record comes before one with more commits.
pub open spec fn descending<T: Ranked>(items: Seq<T>) -> bool {
    forall|i: int, j: int| 0 <= i < j < items.len() ==> items[i].rank() >= items[j].rank()
}

/// Whether no record comes before one with fewer commits.
pub open spec fn ascending<T: Ranked>(items: Seq<T>) -> bool {
    forall|i: int, j: int| 0 <= i < j < items.len() ==> items[i].rank() <= items[j].rank()
}

/// Whether every record of `low` has at most as many commits as every record of `high`.
pub open spec fn all_below<T: Ranked>(low: Seq<T>, high: Seq<T>) -> bool {
    forall|i: int, j: int|
        0 <= i < low.len() && 0 <= j < high.len() ==> low[i].rank() <= high[j].rank()
}

/// Two sequences with the same records, each as often in one as in the other,
/// have the same members; and if no record occurs twice in one, none does in
/// the other.
pub proof fn lemma_rearranged<T>(items: Seq<T>, sorted: Seq<T>)
    requires
        sorted.to_multiset() == items.to_multiset(),
    ensures
        sorted.len() == items.len(),
        forall|i: int| 0 <= i < sorted.len() ==> items.contains(#[trigger] sorted[i]),
        forall|j: int| 0 <= j < items.len() ==> sorted.contains(#[trigger] items[j]),
        items.no_duplicates() ==> sorted.no_duplicates(),
{
    broadcast use group_to_multiset_ensures;

    assert(sorted.len() == items.len()) by {
        to_multiset_len(sorted);
        to_multiset_len(items);
    }
    assert forall|i: int| 0 <= i < sorted.len() implies items.contains(#[trigger] sorted[i]) by {
        assert(sorted.contains(sorted[i]));
        assert(sorted.to_multiset().count(sorted[i]) > 0);
    }
    assert forall|j: int| 0 <= j < items.len() implies sorted.contains(#[trigger] items[j]) by {
        assert(items.contains(items[j]));
        assert(items.to_multiset().count(items[j]) > 0);
    }
    if items.no_duplicates() {
        items.lemma_multiset_has_no_duplicates();
        sorted.lemma_multiset_has_no_duplicates_conv();
    }
}

/// Merges two sequences, each ordered by falling number of commits, into one.
fn merge_descending<T: Ranked>(left: Vec<T>, right: Vec<T>) -> (merged: Vec<T>)
    requires
        descending(left@),
        descending(right@),
    ensures
        descending(merged@),
        merged@.to_multiset() == left@.to_multiset().add(right@.to_multiset()),
{
    broadcast use group_to_multiset_ensures;
    broadcast use group_multiset_axioms;

    let ghost whole = left@.to_multiset().add(right@.to_multiset());
    let mut left = left;
    let mut right = right;
    let mut rising: Vec<T> = Vec::new();
    proof {
        assert(rising@.to_multiset().add(left@.to_multiset()).add(right@.to_multiset())
            =~= whole);
    }
    while left.len() > 0 || right.len() > 0
        invariant
            descending(left@),
            descending(right@),
            ascending(rising@),
            all_below(rising@, left@),
            all_below(rising@, right@),
            rising@.to_multiset().add(left@.to_multiset()).add(right@.to_multiset()) == whole,
        decreases left.len() + right.len(),
    {
        let from_left = if left.len() == 0 {
            false
        } else if right.len() == 0 {
            true
        } else {
            left[left.len() - 1].rank_value() < right[right.len() - 1].rank_value()
        };
        let ghost left_before = left@;
        let ghost right_before = right@;
        let ghost rising_before = rising@;
        let item = if from_left {
            left.pop().unwrap()
        } else {
            right.pop().unwrap()
        };
        rising.push(item);
        proof {
            to_multiset_build(rising_before, item);
            if from_left {
                assert(left_before =~= left@.push(item));
                to_multiset_build(left@, item);
            } else {
                assert(right_before =~= right@.push(item));
                to_multiset_build(right@, item);
            }
            assert(rising@.to_multiset().add(left@.to_multiset()).add(right@.to_multiset())
                =~= rising_before.to_multiset().add(left_before.to_multiset()).add(
                right_before.to_multiset(),
            ));
        }
    }
    let mut merged: Vec<T> = Vec::new();
    proof {
        assert(merged@.to_multiset().add(rising@.to_multiset()) =~= whole);
    }
    while rising.len() > 0
        invariant
            ascending(rising@),
            descending(merged@),
            all_below(rising@, merged@),
            merged@.to_multiset().add(rising@.to_multiset()) == whole,
        decreases rising.len(),
    {
        let ghost rising_before = rising@;
        let ghost merged_before = merged@;
        let item = rising.pop().unwrap();
        merged.push(item);
        proof {
            assert(rising_before =~= rising@.push(item));
            to_multiset_build(rising@, item);
            to_multiset_build(merged_before, item);
            assert(merged@.to_multiset().add(rising@.to_multiset())
                =~= merged_before.to_multiset().add(rising_before.to_multiset()));
        }
    }
    proof {
        assert(merged@.to_multiset() =~= whole);
    }
    merged
}

/// Orders `items` by falling number of commits. The order among records with
/// the same number is left open.
pub fn sort_descending<T: Ranked>(items: Vec<T>) -> (sorted: Vec<T>)
    ensures
        descending(sorted@),
        sorted@.to_multiset() == items@.to_multiset(),
        sorted.len() == items.len(),
    decreases items.len(),
{
    broadcast use group_to_multiset_ensures;

    if items.len() <= 1 {
        return items;
    }
    let ghost whole = items@;
    let mut left = items;
    let middle = left.len() / 2;
    let right = left.split_off(middle);
    proof {
        assert(whole =~= left@ + right@);
        lemma_multiset_commutative(left@, right@);
    }
    let left = sort_descending(left);
    let right = sort_descending(right);
    let sorted = merge_descending(left, right);
    proof {
        lemma_rearranged(whole, sorted@);
    }
    sorted
}

} // verus!
