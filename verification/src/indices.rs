//! Selecting and counting indices by a predicate.
//!
//! Most results of the mapper are lists of image, feature or point indices in
//! ascending order. `indices_where` is the specification of such a list and
//! `count_where` that of its length.

use vstd::prelude::*;

verus! {

/// The indices below `n` that satisfy `p`, in ascending order.
pub open spec fn indices_where(n: nat, p: spec_fn(int) -> bool) -> Seq<usize>
    decreases n,
{
    if n == 0 {
        Seq::empty()
    } else {
        let rest = indices_where((n - 1) as nat, p);
        if p(n - 1) {
            rest.push((n - 1) as usize)
        } else {
            rest
        }
    }
}

/// How many indices below `n` satisfy `p`.
pub open spec fn count_where(n: nat, p: spec_fn(int) -> bool) -> nat
    decreases n,
{
    if n == 0 {
        0
    } else {
        count_where((n - 1) as nat, p) + (if p(n - 1) {
            1nat
        } else {
            0nat
        })
    }
}

/// The list holds exactly the selected indices and is strictly ascending.
pub proof fn lemma_indices_where(n: nat, p: spec_fn(int) -> bool)
    requires
        n <= usize::MAX + 1,
    ensures
        forall|i: int| 0 <= i < n && #[trigger] p(i) ==> indices_where(n, p).contains(i as usize),
        forall|x: usize| #[trigger] indices_where(n, p).contains(x) ==> x < n && p(x as int),
        forall|a: int, b: int|
            0 <= a < b < indices_where(n, p).len() ==> indices_where(n, p)[a] < indices_where(n, p)[b],
        indices_where(n, p).len() == count_where(n, p),
    decreases n,
{
    if n > 0 {
        let m = (n - 1) as nat;
        lemma_indices_where(m, p);
        let rest = indices_where(m, p);
        let all = indices_where(n, p);
        assert forall|k: int| 0 <= k < rest.len() implies rest[k] < m by {
            assert(rest.contains(rest[k]));
        }
        if p(n - 1) {
            assert(all[rest.len() as int] == m as usize);
            assert forall|x: usize| rest.contains(x) implies all.contains(x) by {
                let k = choose|k: int| 0 <= k < rest.len() && rest[k] == x;
                assert(all[k] == x);
            }
            assert forall|x: usize| #[trigger] all.contains(x) implies x < n && p(x as int) by {
                let k = choose|k: int| 0 <= k < all.len() && all[k] == x;
                if k < rest.len() {
                    assert(rest[k] == x);
                    assert(rest.contains(x));
                }
            }
            assert forall|i: int| 0 <= i < n && #[trigger] p(i) implies all.contains(
                i as usize,
            ) by {
                if i < m {
                    assert(rest.contains(i as usize));
                }
            }
        }
    }
}

/// A count never exceeds the range.
pub proof fn lemma_count_bound(n: nat, p: spec_fn(int) -> bool)
    ensures
        count_where(n, p) <= n,
    decreases n,
{
    if n > 0 {
        lemma_count_bound((n - 1) as nat, p);
    }
}

/// Selection and count depend on the predicate only below `n`.
pub proof fn lemma_where_congruent(n: nat, p: spec_fn(int) -> bool, q: spec_fn(int) -> bool)
    requires
        forall|i: int| 0 <= i < n ==> #[trigger] p(i) == q(i),
    ensures
        indices_where(n, p) == indices_where(n, q),
        count_where(n, p) == count_where(n, q),
    decreases n,
{
    if n > 0 {
        assert(p(n - 1) == q(n - 1));
        lemma_where_congruent((n - 1) as nat, p, q);
    }
}

/// Turning the predicate on at one index raises the count by one.
pub proof fn lemma_count_turned_on(
    n: nat,
    p: spec_fn(int) -> bool,
    q: spec_fn(int) -> bool,
    k: int,
)
    requires
        0 <= k < n,
        !p(k),
        q(k),
        forall|i: int| 0 <= i < n && i != k ==> #[trigger] p(i) == q(i),
    ensures
        count_where(n, q) == count_where(n, p) + 1,
    decreases n,
{
    if k == n - 1 {
        assert forall|i: int| 0 <= i < n - 1 implies #[trigger] p(i) == q(i) by {}
        lemma_where_congruent((n - 1) as nat, p, q);
    } else {
        assert(p(n - 1) == q(n - 1));
        lemma_count_turned_on((n - 1) as nat, p, q, k);
    }
}

/// A weaker predicate counts at least as much.
pub proof fn lemma_count_monotone(n: nat, p: spec_fn(int) -> bool, q: spec_fn(int) -> bool)
    requires
        forall|i: int| 0 <= i < n && #[trigger] p(i) ==> q(i),
    ensures
        count_where(n, p) <= count_where(n, q),
    decreases n,
{
    if n > 0 {
        lemma_count_monotone((n - 1) as nat, p, q);
        if p(n - 1) {
            assert(q(n - 1));
        }
    }
}

/// A positive count has a witness, and a witness makes the count positive.
pub proof fn lemma_count_positive(n: nat, p: spec_fn(int) -> bool)
    ensures
        count_where(n, p) > 0 <==> exists|i: int| 0 <= i < n && #[trigger] p(i),
    decreases n,
{
    if n > 0 {
        lemma_count_positive((n - 1) as nat, p);
        if p(n - 1) {
            assert(exists|i: int| 0 <= i < n && #[trigger] p(i));
        } else if count_where(n, p) > 0 {
            let i = choose|i: int| 0 <= i < n - 1 && #[trigger] p(i);
            assert(0 <= i < n && p(i));
        }
    }
}

/// The first `k` entries of a list that satisfy `q`, in order.
pub open spec fn filtered(list: Seq<usize>, k: nat, q: spec_fn(usize) -> bool) -> Seq<usize>
    decreases k,
{
    if k == 0 {
        Seq::empty()
    } else {
        let rest = filtered(list, (k - 1) as nat, q);
        if q(list[k - 1]) {
            rest.push(list[k - 1])
        } else {
            rest
        }
    }
}

/// A filtered list is no longer than its source and holds what was selected.
pub proof fn lemma_filtered(list: Seq<usize>, k: nat, q: spec_fn(usize) -> bool)
    requires
        k <= list.len(),
    ensures
        filtered(list, k, q).len() <= k,
        forall|x: usize| #[trigger]
            filtered(list, k, q).contains(x) <==> q(x) && list.take(k as int).contains(x),
    decreases k,
{
    if k > 0 {
        let m = (k - 1) as nat;
        lemma_filtered(list, m, q);
        let rest = filtered(list, m, q);
        let all = filtered(list, k, q);
        let a = list.take(m as int);
        let b = list.take(k as int);
        assert forall|x: usize| #[trigger] all.contains(x) <==> q(x) && b.contains(x) by {
            assert(rest.contains(x) <==> q(x) && a.contains(x));
            if a.contains(x) {
                let j = choose|j: int| 0 <= j < a.len() && a[j] == x;
                assert(b[j] == x);
            }
            assert(b[m as int] == list[m as int]);
            if b.contains(x) && x != list[m as int] {
                let j = choose|j: int| 0 <= j < b.len() && b[j] == x;
                assert(a[j] == x);
            }
            if q(list[m as int]) {
                if rest.contains(x) {
                    let j = choose|j: int| 0 <= j < rest.len() && rest[j] == x;
                    assert(all[j] == x);
                }
                assert(all[rest.len() as int] == list[m as int]);
                if all.contains(x) && x != list[m as int] {
                    let j = choose|j: int| 0 <= j < all.len() && all[j] == x;
                    assert(rest[j] == x);
                }
            }
        }
    }
}

} // verus!
