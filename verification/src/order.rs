//! Sorting values by a total order on what they stand for.

use crate::text::{at_most, str_le, str_le_is_total_order, views};
use vstd::prelude::*;
use vstd::relations::*;
use vstd::seq_lib::*;

verus! {

/// Values with a total order on their views.
pub trait Ordered: View + Sized {
    /// Whether a value with view `a` comes no later than one with view `b`.
    spec fn precedes(a: Self::V, b: Self::V) -> bool;

    /// The order is total.
    proof fn order_is_total()
        ensures
            total_ordering(|a: Self::V, b: Self::V| Self::precedes(a, b)),
    ;

    /// Whether this value comes no later than `other`.
    fn no_later_than(&self, other: &Self) -> (le: bool)
        ensures
            le == Self::precedes(self@, other@),
    ;
}

impl Ordered for String {
    open spec fn precedes(a: Seq<char>, b: Seq<char>) -> bool {
        str_le(a, b)
    }

    proof fn order_is_total() {
        str_le_is_total_order();
        let leq = |a: Seq<char>, b: Seq<char>| Self::precedes(a, b);
        assert(leq =~= |a: Seq<char>, b: Seq<char>| str_le(a, b));
    }

    fn no_later_than(&self, other: &Self) -> bool {
        at_most(self.as_str(), other.as_str())
    }
}

/// The views in their order, each as often as it occurs.
pub open spec fn in_order<T: Ordered>(items: Seq<T::V>) -> Seq<T::V> {
    items.sort_by(|a: T::V, b: T::V| T::precedes(a, b))
}

/// Sorting keeps every item as often as it occurs, and leaves no item before a lesser one.
pub proof fn in_order_sorts<T: Ordered>(items: Seq<T::V>)
    ensures
        in_order::<T>(items).to_multiset() == items.to_multiset(),
        in_order::<T>(items).len() == items.len(),
        sorted_by(in_order::<T>(items), |a: T::V, b: T::V| T::precedes(a, b)),
{
    T::order_is_total();
    items.lemma_sort_by_ensures(|a: T::V, b: T::V| T::precedes(a, b));
    items.to_multiset_ensures();
    in_order::<T>(items).to_multiset_ensures();
}

/// The order of the input does not matter to the sorted output.
pub proof fn in_order_ignores_input_order<T: Ordered>(left: Seq<T::V>, right: Seq<T::V>)
    requires
        left.to_multiset() == right.to_multiset(),
    ensures
        in_order::<T>(left) == in_order::<T>(right),
{
    in_order_sorts::<T>(left);
    in_order_sorts::<T>(right);
    T::order_is_total();
    lemma_sorted_unique(
        in_order::<T>(left),
        in_order::<T>(right),
        |a: T::V, b: T::V| T::precedes(a, b),
    );
}

/// Puts `item` into a sorted list, in its place.
fn insert_in_order<T: Ordered>(sorted: &mut Vec<T>, item: T)
    requires
        sorted_by(views(old(sorted)@), |a: T::V, b: T::V| T::precedes(a, b)),
    ensures
        sorted_by(views(final(sorted)@), |a: T::V, b: T::V| T::precedes(a, b)),
        views(final(sorted)@).to_multiset() == views(old(sorted)@).to_multiset().insert(item@),
{
    let ghost leq = |a: T::V, b: T::V| T::precedes(a, b);
    let ghost before = sorted@;
    proof {
        T::order_is_total();
    }
    let mut at: usize = 0;
    while at < sorted.len() && sorted[at].no_later_than(&item)
        invariant
            at <= sorted.len(),
            sorted@ == before,
            leq == |a: T::V, b: T::V| T::precedes(a, b),
            forall|i: int| 0 <= i < at ==> leq(#[trigger] views(before)[i], item@),
        decreases sorted.len() - at,
    {
        assert(leq(views(before)[at as int], item@));
        at += 1;
    }
    sorted.insert(at, item);
    proof {
        let after = views(sorted@);
        assert(after =~= views(before).insert(at as int, item@));
        vstd::seq_lib::to_multiset_insert(views(before), at as int, item@);
        assert forall|i: int, j: int| 0 <= i < j < after.len() implies #[trigger] leq(
            after[i],
            after[j],
        ) by {
            if at < before.len() {
                assert(leq(item@, views(before)[at as int])) by {
                    assert(!leq(views(before)[at as int], item@));
                    assert(strongly_connected(leq));
                }
            }
            if i < at {
                assert(after[i] == views(before)[i]);
                if j == at {
                } else if j < at {
                    assert(leq(views(before)[i], views(before)[j]));
                } else {
                    assert(leq(views(before)[i], views(before)[j - 1]));
                }
            } else if i == at {
                assert(after[j] == views(before)[j - 1]);
                if j - 1 > at {
                    assert(leq(views(before)[at as int], views(before)[j - 1]));
                    assert(leq(item@, views(before)[at as int]));
                }
            } else {
                assert(leq(views(before)[i - 1], views(before)[j - 1]));
            }
        }
    }
}

/// Sorts a list.
pub fn sort<T: Ordered>(items: Vec<T>) -> (sorted: Vec<T>)
    ensures
        views(sorted@) == in_order::<T>(views(items@)),
{
    let ghost leq = |a: T::V, b: T::V| T::precedes(a, b);
    let ghost all = views(items@);
    let mut rest = items;
    let mut sorted: Vec<T> = Vec::new();
    proof {
        assert(views(sorted@) =~= Seq::<T::V>::empty());
        Seq::<T::V>::empty().to_multiset_ensures();
        assert(views(sorted@).to_multiset().add(views(rest@).to_multiset())
            =~= all.to_multiset());
    }
    loop
        invariant
            sorted_by(views(sorted@), |a: T::V, b: T::V| T::precedes(a, b)),
            views(sorted@).to_multiset().add(views(rest@).to_multiset()) == all.to_multiset(),
        ensures
            sorted_by(views(sorted@), |a: T::V, b: T::V| T::precedes(a, b)),
            views(sorted@).to_multiset() == all.to_multiset(),
        decreases rest.len(),
    {
        let ghost before = views(rest@);
        match rest.pop() {
            None => {
                proof {
                    assert(before =~= Seq::<T::V>::empty());
                    before.to_multiset_ensures();
                    assert(views(sorted@).to_multiset() =~= all.to_multiset());
                }
                break;
            },
            Some(item) => {
                let ghost placed = views(sorted@).to_multiset();
                insert_in_order(&mut sorted, item);
                proof {
                    assert(before =~= views(rest@).push(item@));
                    views(rest@).to_multiset_ensures();
                    assert(views(sorted@).to_multiset().add(views(rest@).to_multiset())
                        =~= placed.add(before.to_multiset()));
                }
            },
        }
    }
    proof {
        in_order_sorts::<T>(all);
        T::order_is_total();
        lemma_sorted_unique(views(sorted@), in_order::<T>(all), leq);
    }
    sorted
}

} // verus!
