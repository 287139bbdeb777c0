//! Sorting by a strict weak order.

use vstd::prelude::*;

verus! {

/// A type whose values are ranked by a strict weak order.
pub trait Ranked: Copy {
    /// Whether `self` comes strictly before `other`.
    spec fn before(self, other: Self) -> bool;

    proof fn asymmetric(a: Self, b: Self)
        requires
            a.before(b),
        ensures
            !b.before(a),
    ;

    proof fn negatively_transitive(a: Self, b: Self, c: Self)
        requires
            a.before(c),
        ensures
            a.before(b) || b.before(c),
    ;

    fn precedes(&self, other: &Self) -> (b: bool)
        ensures
            b == self.before(*other),
    ;
}

/// No item comes before one that stands ahead of it.
pub open spec fn is_sorted<T: Ranked>(items: Seq<T>) -> bool {
    forall|i: int, j: int| 0 <= i < j < items.len() ==> !(#[trigger] items[j]).before(#[trigger] items[i])
}

/// `sorted` is `items` put in order.
pub open spec fn is_sorting_of<T: Ranked>(sorted: Seq<T>, items: Seq<T>) -> bool {
    is_sorted(sorted) && sorted.to_multiset() == items.to_multiset()
}

/// Sorts by insertion.
pub fn sort<T: Ranked>(items: &mut Vec<T>)
    ensures
        is_sorting_of(final(items)@, old(items)@),
{
    let n: usize = items.len();
    for k in 0..n
        invariant
            n == items@.len(),
            is_sorted(items@.take(k as int)),
            items@.to_multiset() == old(items)@.to_multiset(),
    {
        let x = items[k];
        let ghost start = items@;
        let mut p: usize = k;
        while p > 0 && x.precedes(&items[p - 1])
            invariant
                p <= k < n,
                n == items@.len(),
                items@ == start,
                start[k as int] == x,
                forall|j: int| p <= j < k ==> x.before(#[trigger] start[j]),
            decreases p,
        {
            p = p - 1;
        }
        let moved = items.remove(k);
        items.insert(p, moved);
        proof {
            let out = items@;
            assert(out =~= start.remove(k as int).insert(p as int, x));
            assert forall|j: int| 0 <= j < n implies #[trigger] out[j] == (if j < p {
                start[j]
            } else if j == p {
                x
            } else if j <= k {
                start[j - 1]
            } else {
                start[j]
            }) by {}
            let t = start.take(k as int);
            assert forall|i: int, j: int| 0 <= i < j < k + 1 implies !(#[trigger] out.take(
                k + 1,
            )[j]).before(#[trigger] out.take(k + 1)[i]) by {
                let a = if i < p { i } else { i - 1 };
                let b = if j < p { j } else { j - 1 };
                if i != p && j != p {
                    assert(!t[b].before(t[a]));
                } else if j == p {
                    // x against an item ahead of it
                    assert(!x.before(t[p - 1]));
                    if x.before(t[i]) {
                        if i < p - 1 {
                            T::negatively_transitive(x, t[p - 1], t[i]);
                            assert(!t[p - 1].before(t[i]));
                        }
                    }
                } else {
                    assert(x.before(start[b]));
                    T::asymmetric(x, start[b]);
                }
            }
            broadcast use vstd::seq_lib::group_to_multiset_ensures;

            assert(start.remove(k as int).to_multiset() =~= start.to_multiset().remove(x));
            assert(out.to_multiset() =~= start.remove(k as int).to_multiset().insert(x));
            assert(start.to_multiset().count(x) > 0) by {
                assert(start.contains(x));
            }
            assert(out.to_multiset() =~= start.to_multiset());
        }
    }
    assert(items@.take(n as int) =~= items@);
}

/// Items that are not ranked against each other are equal.
pub open spec fn ranks_all<T: Ranked>() -> bool {
    forall|a: T, b: T| !(#[trigger] a.before(b)) && !b.before(a) ==> a == b
}

/// Each item comes before those that follow it.
pub open spec fn strictly_sorted<T: Ranked>(items: Seq<T>) -> bool {
    forall|i: int, j: int| 0 <= i < j < items.len() ==> (#[trigger] items[i]).before(#[trigger] items[j])
}

/// Sorts the items and drops repetitions.
pub fn sort_distinct<T: Ranked>(items: Vec<T>) -> (list: Vec<T>)
    requires
        ranks_all::<T>(),
    ensures
        strictly_sorted(list@),
        forall|x: T| #[trigger] list@.contains(x) <==> items@.contains(x),
{
    let ghost given = items@;
    let mut sorted = items;
    sort(&mut sorted);
    proof {
        lemma_sorting_contains(sorted@, given);
    }
    let mut list: Vec<T> = Vec::new();
    for k in 0..sorted.len()
        invariant
            ranks_all::<T>(),
            is_sorted(sorted@),
            strictly_sorted(list@),
            forall|x: T| #[trigger] list@.contains(x) <==> sorted@.take(k as int).contains(x),
            k > 0 ==> list@.len() > 0 && list@.last() == sorted@[k - 1],
            k == 0 ==> list@.len() == 0,
    {
        let ghost before = list@;
        let x = sorted[k];
        let fresh: bool = list.len() == 0 || list[list.len() - 1].precedes(&x);
        if fresh {
            proof {
                assert forall|i: int| 0 <= i < before.len() implies (#[trigger] before[i]).before(
                    x,
                ) by {
                    if i < before.len() - 1 {
                        let last = before[before.len() - 1];
                        assert(before[i].before(last));
                        if !before[i].before(x) {
                            T::negatively_transitive(before[i], x, last);
                            T::asymmetric(last, x);
                        }
                    }
                }
            }
            list.push(x);
        } else {
            proof {
                assert(!sorted@[k as int].before(sorted@[k - 1]));
                assert(before.last() == x);
            }
        }
        proof {
            let a = sorted@.take(k as int);
            let b = sorted@.take(k + 1);
            assert(b =~= a.push(x));
            assert forall|y: T| #[trigger] list@.contains(y) <==> b.contains(y) by {
                assert(before.contains(y) <==> a.contains(y));
                if a.contains(y) {
                    let j = choose|j: int| 0 <= j < a.len() && a[j] == y;
                    assert(b[j] == y);
                }
                assert(b[k as int] == x);
                if b.contains(y) && y != x {
                    let j = choose|j: int| 0 <= j < b.len() && b[j] == y;
                    assert(a[j] == y);
                }
                if before.contains(y) {
                    let j = choose|j: int| 0 <= j < before.len() && before[j] == y;
                    assert(list@[j] == y);
                }
                if fresh {
                    assert(list@[before.len() as int] == x);
                    if list@.contains(y) && y != x {
                        let j = choose|j: int| 0 <= j < list@.len() && list@[j] == y;
                        assert(before[j] == y);
                    }
                } else {
                    assert(before[before.len() - 1] == x);
                }
            }
        }
    }
    assert(sorted@.take(sorted@.len() as int) =~= sorted@);
    list
}

/// Sorting keeps exactly the items.
pub proof fn lemma_sorting_contains<T: Ranked>(sorted: Seq<T>, items: Seq<T>)
    requires
        sorted.to_multiset() == items.to_multiset(),
    ensures
        sorted.len() == items.len(),
        forall|x: T| #[trigger] sorted.contains(x) <==> items.contains(x),
{
    sorted.to_multiset_ensures();
    items.to_multiset_ensures();
    assert forall|x: T| #[trigger] sorted.contains(x) <==> items.contains(x) by {
        assert(sorted.contains(x) <==> sorted.to_multiset().count(x) > 0);
        assert(items.contains(x) <==> items.to_multiset().count(x) > 0);
    }
}

} // verus!
