//! Partition of a range of numbers under union, with union by rank and path
//! compression.

use crate::indices::{count_where, lemma_count_bound, lemma_count_turned_on, lemma_where_congruent};
use vstd::prelude::*;

verus! {

#[derive(Debug)]
pub struct DisjointSet {
    parent: Vec<usize>,
    rank: Vec<usize>,
}

/// The root that a chain of parents leads to. Ranks grow along the chain.
pub open spec fn root_of(parent: Seq<usize>, rank: Seq<usize>, x: int) -> int
    decreases parent.len() - rank[x],
{
    if !(0 <= x < parent.len()) || parent[x] == x || parent[x] >= parent.len()
        || rank[parent[x] as int] <= rank[x] || rank[parent[x] as int] >= parent.len() {
        x
    } else {
        root_of(parent, rank, parent[x] as int)
    }
}

pub open spec fn is_root(parent: Seq<usize>) -> spec_fn(int) -> bool {
    |x: int| parent[x] == x
}

/// Whether two numbers are linked by the first `k` of a list of edges: the
/// smallest equivalence that joins the ends of each edge.
pub open spec fn linked(edges: Seq<(usize, usize)>, k: nat, x: int, y: int) -> bool
    decreases k,
{
    if k == 0 {
        x == y
    } else {
        let (a, b) = edges[k - 1];
        let m = (k - 1) as nat;
        ||| linked(edges, m, x, y)
        ||| (linked(edges, m, x, a as int) && linked(edges, m, b as int, y))
        ||| (linked(edges, m, x, b as int) && linked(edges, m, a as int, y))
    }
}

/// Whether `after` is `before` with the parts of `a` and `b` merged.
pub open spec fn merges(before: DisjointSet, after: DisjointSet, a: int, b: int) -> bool {
    forall|x: int, y: int|
        0 <= x < before.size() && 0 <= y < before.size() ==> (#[trigger] after.root(x)
            == #[trigger] after.root(y) <==> {
            ||| before.root(x) == before.root(y)
            ||| (before.root(x) == before.root(a) && before.root(b) == before.root(y))
            ||| (before.root(x) == before.root(b) && before.root(a) == before.root(y))
        })
}

impl DisjointSet {
    pub closed spec fn size(self) -> nat {
        self.parent@.len()
    }

    /// Ranks grow towards the roots and are bounded by the merges done.
    pub closed spec fn well_formed(self) -> bool {
        let n = self.parent@.len();
        &&& self.rank@.len() == n
        &&& forall|x: int| 0 <= x < n ==> #[trigger] self.parent@[x] < n
        &&& forall|x: int|
            0 <= x < n && #[trigger] self.parent@[x] != x ==> self.rank@[x]
                < self.rank@[self.parent@[x] as int]
        &&& forall|x: int|
            0 <= x < n ==> #[trigger] self.rank@[x] + count_where(n, is_root(self.parent@)) <= n
        &&& n > 0 ==> count_where(n, is_root(self.parent@)) > 0
    }

    /// The representative of a number.
    pub closed spec fn root(self, x: int) -> int {
        root_of(self.parent@, self.rank@, x)
    }

    /// Whether the partition is the one generated by a list of edges.
    pub open spec fn partitions(self, edges: Seq<(usize, usize)>, k: nat) -> bool {
        forall|x: int, y: int|
            0 <= x < self.size() && 0 <= y < self.size() ==> (#[trigger] self.root(x)
                == #[trigger] self.root(y) <==> linked(edges, k, x, y))
    }

    proof fn lemma_root(self, x: int)
        requires
            self.well_formed(),
            0 <= x < self.size(),
        ensures
            0 <= self.root(x) < self.size(),
            self.parent@[self.root(x)] == self.root(x),
            self.rank@[x] <= self.rank@[self.root(x)],
            self.parent@[x] != x ==> self.rank@[x] < self.rank@[self.root(x)],
            self.parent@[x] == x <==> self.root(x) == x,
            self.root(self.parent@[x] as int) == self.root(x),
            self.rank@[x] < self.size(),
        decreases self.size() - self.rank@[x],
    {
        let n = self.parent@.len();
        assert(self.rank@[x] + count_where(n, is_root(self.parent@)) <= n);
        if self.parent@[x] != x {
            let p = self.parent@[x] as int;
            assert(self.rank@[p] + count_where(n, is_root(self.parent@)) <= n);
            self.lemma_root(p);
        }
    }

    /// Representatives are members of the partition.
    pub proof fn lemma_roots_in_range(self)
        requires
            self.well_formed(),
        ensures
            forall|x: int| 0 <= x < self.size() ==> 0 <= #[trigger] self.root(x) < self.size(),
    {
        assert forall|x: int| 0 <= x < self.size() implies 0 <= #[trigger] self.root(x)
            < self.size() by {
            self.lemma_root(x);
        }
    }

    /// A partition of `size` numbers, each on its own.
    pub fn new(size: usize) -> (set: DisjointSet)
        ensures
            set.well_formed(),
            set.size() == size,
            forall|x: int| 0 <= x < size ==> #[trigger] set.root(x) == x,
    {
        let mut parent: Vec<usize> = Vec::new();
        let mut rank: Vec<usize> = Vec::new();
        for i in 0..size
            invariant
                parent@.len() == i,
                rank@.len() == i,
                forall|x: int| 0 <= x < i ==> parent@[x] == x,
                forall|x: int| 0 <= x < i ==> rank@[x] == 0,
        {
            parent.push(i);
            rank.push(0);
        }
        proof {
            lemma_all_roots(parent@, size as nat);
            lemma_count_bound(size as nat, is_root(parent@));
        }
        DisjointSet { parent, rank }
    }

    /// Finds the representative and shortens the way to it.
    pub fn find(&mut self, x: usize) -> (root: usize)
        requires
            old(self).well_formed(),
            x < old(self).size(),
        ensures
            final(self).well_formed(),
            final(self).size() == old(self).size(),
            root == old(self).root(x as int),
            root < old(self).size(),
            forall|y: int|
                0 <= y < old(self).size() ==> #[trigger] final(self).root(y) == old(self).root(y),
            final(self).ranked_as(*old(self)),
        decreases old(self).measure(x as int),
    {
        proof {
            self.lemma_root(x as int);
            lemma_ranked_refl(*self);
        }
        let p: usize = self.parent[x];
        if p != x {
            proof {
                self.lemma_root(p as int);
            }
            let root: usize = self.find(p);
            proof {
                self.lemma_root(x as int);
                self.lemma_root(root as int);
                old(self).lemma_root(root as int);
            }
            let ghost before = *self;
            self.parent[x] = root;
            proof {
                lemma_compressed(before, *self, x as int, root as int);
            }
            root
        } else {
            x
        }
    }

    pub closed spec fn measure(self, x: int) -> int {
        self.parent@.len() - self.rank@[x]
    }

    /// Whether the ranks and the roots are those of another state.
    pub closed spec fn ranked_as(self, other: DisjointSet) -> bool {
        &&& self.rank@ == other.rank@
        &&& forall|y: int|
            0 <= y < other.parent@.len() ==> (#[trigger] self.parent@[y] == y
                <==> other.parent@[y] == y)
    }

    /// Merges the parts of two numbers.
    #[verifier::spinoff_prover]
    #[verifier::rlimit(60)]
    pub fn union(&mut self, a: usize, b: usize)
        requires
            old(self).well_formed(),
            a < old(self).size(),
            b < old(self).size(),
        ensures
            final(self).well_formed(),
            final(self).size() == old(self).size(),
            merges(*old(self), *final(self), a as int, b as int),
    {
        let size: usize = self.parent.len();
        let mut ra: usize = self.find(a);
        let mut rb: usize = self.find(b);
        if ra == rb {
            return;
        }
        proof {
            self.lemma_root(ra as int);
            self.lemma_root(rb as int);
            self.lemma_root(a as int);
            self.lemma_root(b as int);
        }
        if self.rank[ra] < self.rank[rb] {
            let t: usize = ra;
            ra = rb;
            rb = t;
        }
        let ghost before = *self;
        proof {
            let n = before.parent@.len();
            assert(before.root(ra as int) == ra && before.root(rb as int) == rb);
            assert(before.rank@[ra as int] + count_where(n, is_root(before.parent@)) <= n);
        }
        self.parent[rb] = ra;
        if self.rank[ra] == self.rank[rb] {
            self.rank[ra] = self.rank[ra] + 1;
        }
        proof {
            lemma_merged(before, *self, ra as int, rb as int);
        }
    }
}

proof fn lemma_ranked_refl(s: DisjointSet)
    ensures
        s.ranked_as(s),
{
}

proof fn lemma_all_roots(parent: Seq<usize>, k: nat)
    requires
        k <= parent.len(),
        forall|x: int| 0 <= x < parent.len() ==> parent[x] == x,
    ensures
        count_where(k, is_root(parent)) == k,
    decreases k,
{
    if k > 0 {
        lemma_all_roots(parent, (k - 1) as nat);
    }
}

/// Pointing a number at its root changes no root.
proof fn lemma_compressed(before: DisjointSet, after: DisjointSet, x: int, root: int)
    requires
        before.well_formed(),
        0 <= x < before.size(),
        root == before.root(x),
        before.parent@[x] != x,
        after.rank@ == before.rank@,
        after.parent@ == before.parent@.update(x, root as usize),
        root <= usize::MAX,
    ensures
        after.well_formed(),
        forall|y: int| 0 <= y < before.size() ==> #[trigger] after.root(y) == before.root(y),
        after.ranked_as(before),
{
    let n = before.parent@.len();
    before.lemma_root(x);
    before.lemma_root(root);
    lemma_where_congruent(n, is_root(before.parent@), is_root(after.parent@));
    assert forall|y: int| 0 <= y < n implies #[trigger] after.rank@[y] + count_where(
        n,
        is_root(after.parent@),
    ) <= n by {
        assert(before.rank@[y] + count_where(n, is_root(before.parent@)) <= n);
    }
    assert(after.well_formed());
    assert forall|y: int| 0 <= y < n implies #[trigger] after.root(y) == before.root(y) by {
        lemma_compressed_root(before, after, x, root, y);
    }
}

proof fn lemma_compressed_root(
    before: DisjointSet,
    after: DisjointSet,
    x: int,
    root: int,
    y: int,
)
    requires
        before.well_formed(),
        after.well_formed(),
        0 <= x < before.size(),
        0 <= y < before.size(),
        root == before.root(x),
        before.parent@[x] != x,
        after.rank@ == before.rank@,
        after.parent@ == before.parent@.update(x, root as usize),
        root <= usize::MAX,
    ensures
        after.root(y) == before.root(y),
    decreases before.size() - before.rank@[y],
{
    before.lemma_root(y);
    after.lemma_root(y);
    before.lemma_root(x);
    if y == x {
        after.lemma_root(root);
        assert(after.parent@[root] == root);
    } else if before.parent@[y] != y {
        let p = before.parent@[y] as int;
        before.lemma_root(p);
        lemma_compressed_root(before, after, x, root, p);
    }
}

/// Linking one root below another merges their parts.
proof fn lemma_merged(before: DisjointSet, after: DisjointSet, ra: int, rb: int)
    requires
        before.well_formed(),
        0 <= ra < before.size(),
        0 <= rb < before.size(),
        ra != rb,
        before.parent@[ra] == ra,
        before.parent@[rb] == rb,
        before.rank@[ra] >= before.rank@[rb],
        before.size() <= usize::MAX,
        after.parent@ == before.parent@.update(rb, ra as usize),
        after.rank@ == (if before.rank@[ra] == before.rank@[rb] {
            before.rank@.update(ra, (before.rank@[ra] + 1) as usize)
        } else {
            before.rank@
        }),
    ensures
        after.well_formed(),
        forall|y: int|
            0 <= y < before.size() ==> #[trigger] after.root(y) == (if before.root(y) == rb {
                ra
            } else {
                before.root(y)
            }),
{
    let n = before.parent@.len();
    let old_roots = count_where(n, is_root(before.parent@));
    let new_roots = count_where(n, is_root(after.parent@));
    lemma_count_turned_on(n, is_root(after.parent@), is_root(before.parent@), rb);
    crate::indices::lemma_count_positive(n, is_root(after.parent@));
    assert(is_root(after.parent@)(ra));
    assert(before.rank@[ra] + old_roots <= n);
    assert forall|y: int| 0 <= y < n implies #[trigger] after.rank@[y] + new_roots <= n by {
        assert(before.rank@[y] + old_roots <= n);
    }
    assert forall|y: int| 0 <= y < n && #[trigger] after.parent@[y] != y implies after.rank@[y]
        < after.rank@[after.parent@[y] as int] by {
        if y != rb {
            assert(before.parent@[y] != y);
            assert(before.rank@[y] < before.rank@[before.parent@[y] as int]);
        }
    }
    assert(after.well_formed());
    assert forall|y: int| 0 <= y < n implies #[trigger] after.root(y) == (if before.root(y) == rb {
        ra
    } else {
        before.root(y)
    }) by {
        lemma_merged_root(before, after, ra, rb, y);
    }
}

proof fn lemma_merged_root(before: DisjointSet, after: DisjointSet, ra: int, rb: int, y: int)
    requires
        before.well_formed(),
        after.well_formed(),
        0 <= ra < before.size(),
        0 <= rb < before.size(),
        0 <= y < before.size(),
        ra != rb,
        before.parent@[ra] == ra,
        before.parent@[rb] == rb,
        before.size() <= usize::MAX,
        after.parent@ == before.parent@.update(rb, ra as usize),
    ensures
        after.root(y) == (if before.root(y) == rb {
            ra
        } else {
            before.root(y)
        }),
    decreases before.size() - before.rank@[y],
{
    before.lemma_root(y);
    after.lemma_root(y);
    after.lemma_root(ra);
    before.lemma_root(ra);
    before.lemma_root(rb);
    if y == rb {
        assert(after.parent@[y] == ra);
    } else if before.parent@[y] != y {
        let p = before.parent@[y] as int;
        before.lemma_root(p);
        lemma_merged_root(before, after, ra, rb, p);
    }
}

/// Links form an equivalence.
pub proof fn law_links_are_an_equivalence(edges: Seq<(usize, usize)>, k: nat, x: int, y: int, z: int)
    ensures
        linked(edges, k, x, x),
        linked(edges, k, x, y) ==> linked(edges, k, y, x),
        linked(edges, k, x, y) && linked(edges, k, y, z) ==> linked(edges, k, x, z),
    decreases k,
{
    if k > 0 {
        let (a, b) = edges[k - 1];
        let m = (k - 1) as nat;
        let a = a as int;
        let b = b as int;
        law_links_are_an_equivalence(edges, m, x, y, z);
        law_links_are_an_equivalence(edges, m, x, a, z);
        law_links_are_an_equivalence(edges, m, x, b, z);
        law_links_are_an_equivalence(edges, m, y, a, x);
        law_links_are_an_equivalence(edges, m, y, b, x);
        law_links_are_an_equivalence(edges, m, a, y, x);
        law_links_are_an_equivalence(edges, m, b, y, x);
        law_links_are_an_equivalence(edges, m, a, y, z);
        law_links_are_an_equivalence(edges, m, b, y, z);
        law_links_are_an_equivalence(edges, m, a, y, a);
        law_links_are_an_equivalence(edges, m, a, y, b);
        law_links_are_an_equivalence(edges, m, b, y, a);
        law_links_are_an_equivalence(edges, m, b, y, b);
        law_links_are_an_equivalence(edges, m, x, y, a);
        law_links_are_an_equivalence(edges, m, x, y, b);
        law_links_are_an_equivalence(edges, m, x, a, b);
        law_links_are_an_equivalence(edges, m, x, b, a);
        law_links_are_an_equivalence(edges, m, a, b, z);
        law_links_are_an_equivalence(edges, m, b, a, z);
        law_links_are_an_equivalence(edges, m, a, b, y);
        law_links_are_an_equivalence(edges, m, b, a, y);
    }
}

/// Merging the ends of the next edge keeps the partition that of the edges.
pub proof fn lemma_partition_step(
    before: DisjointSet,
    after: DisjointSet,
    edges: Seq<(usize, usize)>,
    k: nat,
)
    requires
        before.partitions(edges, k),
        after.size() == before.size(),
        edges[k as int].0 < before.size(),
        edges[k as int].1 < before.size(),
        merges(before, after, edges[k as int].0 as int, edges[k as int].1 as int),
    ensures
        after.partitions(edges, k + 1),
{
    assert forall|x: int, y: int|
        0 <= x < after.size() && 0 <= y < after.size() implies (#[trigger] after.root(x)
        == #[trigger] after.root(y) <==> linked(edges, k + 1, x, y)) by {
        let a = edges[k as int].0 as int;
        let b = edges[k as int].1 as int;
        assert(before.root(x) == before.root(y) <==> linked(edges, k, x, y));
        assert(before.root(x) == before.root(a) <==> linked(edges, k, x, a));
        assert(before.root(x) == before.root(b) <==> linked(edges, k, x, b));
        assert(before.root(b) == before.root(y) <==> linked(edges, k, b, y));
        assert(before.root(a) == before.root(y) <==> linked(edges, k, a, y));
    }
}

} // verus!
