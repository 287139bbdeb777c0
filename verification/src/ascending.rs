//! Sets of indices kept as strictly ascending lists.

use vstd::prelude::*;

verus! {

pub open spec fn ascending(list: Seq<usize>) -> bool {
    forall|i: int, j: int| 0 <= i < j < list.len() ==> list[i] < list[j]
}

/// `list` holds the members of `set` in ascending order.
pub open spec fn lists(list: Seq<usize>, set: Set<usize>) -> bool {
    ascending(list) && forall|x: usize| #[trigger] list.contains(x) <==> set.contains(x)
}

/// A set has only one ascending list.
pub proof fn law_listing_unique(a: Seq<usize>, b: Seq<usize>, set: Set<usize>)
    requires
        lists(a, set),
        lists(b, set),
    ensures
        a == b,
    decreases a.len(),
{
    if a.len() == 0 {
        if b.len() > 0 {
            assert(b.contains(b[0]));
            assert(a.contains(b[0]));
        }
        assert(a =~= b);
    } else {
        assert(a.contains(a.last()));
        assert(b.contains(a.last()));
        assert(b.len() > 0);
        assert(b.contains(b.last()));
        assert(a.contains(b.last()));
        let i = choose|i: int| 0 <= i < a.len() && a[i] == b.last();
        let j = choose|j: int| 0 <= j < b.len() && b[j] == a.last();
        assert(a.last() == b.last());
        let x = a.last();
        lemma_drop_last(a, set);
        lemma_drop_last(b, set);
        law_listing_unique(a.drop_last(), b.drop_last(), set.remove(x));
        assert(a =~= a.drop_last().push(x));
        assert(b =~= b.drop_last().push(x));
    }
}

proof fn lemma_drop_last(a: Seq<usize>, set: Set<usize>)
    requires
        lists(a, set),
        a.len() > 0,
    ensures
        lists(a.drop_last(), set.remove(a.last())),
{
    let d = a.drop_last();
    assert forall|x: usize| #[trigger] d.contains(x) <==> set.remove(a.last()).contains(x) by {
        if d.contains(x) {
            let k = choose|k: int| 0 <= k < d.len() && d[k] == x;
            assert(a[k] == x);
            assert(a.contains(x));
        }
        if set.remove(a.last()).contains(x) {
            assert(a.contains(x));
            let k = choose|k: int| 0 <= k < a.len() && a[k] == x;
            assert(d[k] == x);
        }
    }
}

/// Adds an index to an ascending list; tells whether it was missing.
pub fn insert_ascending(list: &mut Vec<usize>, x: usize) -> (fresh: bool)
    requires
        ascending(old(list)@),
    ensures
        ascending(final(list)@),
        fresh == !old(list)@.contains(x),
        forall|y: usize| #[trigger]
            final(list)@.contains(y) <==> old(list)@.contains(y) || y == x,
        final(list)@.len() == old(list)@.len() + (if fresh {
            1int
        } else {
            0
        }),
{
    let mut p: usize = list.len();
    while p > 0 && list[p - 1] > x
        invariant
            p <= list@.len(),
            list@ == old(list)@,
            forall|k: int| p <= k < list@.len() ==> list@[k] > x,
        decreases p,
    {
        p = p - 1;
    }
    if p > 0 && list[p - 1] == x {
        assert(list@[p - 1] == x);
        return false;
    }
    let ghost before = list@;
    list.insert(p, x);
    proof {
        let after = list@;
        assert forall|y: usize| #[trigger] after.contains(y) <==> before.contains(y) || y == x by {
            if before.contains(y) {
                let k = choose|k: int| 0 <= k < before.len() && before[k] == y;
                if k < p {
                    assert(after[k] == y);
                } else {
                    assert(after[k + 1] == y);
                }
            }
            assert(after[p as int] == x);
            if after.contains(y) && y != x {
                let k = choose|k: int| 0 <= k < after.len() && after[k] == y;
                if k < p {
                    assert(before[k] == y);
                } else {
                    assert(before[k - 1] == y);
                }
            }
        }
        if before.contains(x) {
            let k = choose|k: int| 0 <= k < before.len() && before[k] == x;
            assert(k < p);
            assert(before[p - 1] < x);
        }
    }
    true
}

/// Whether a list holds an index.
pub fn holds(list: &[usize], x: usize) -> (b: bool)
    ensures
        b == list@.contains(x),
{
    for k in 0..list.len()
        invariant
            forall|j: int| 0 <= j < k ==> list@[j] != x,
    {
        if list[k] == x {
            assert(list@[k as int] == x);
            return true;
        }
    }
    false
}

} // verus!
