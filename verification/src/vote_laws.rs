//! Votes on directions, said of angles and indices themselves.

use crate::indices::{indices_where, lemma_indices_where};
use crate::pair_laws::law_ring_closures;
use crate::scalar::Real32;
use crate::sorting::{is_sorting_of, lemma_sorting_contains, Ranked};
use crate::translation_votes::{
    adjacent_from, asks_neighbors, can_anchor, earlier_vote, is_best_anchor, joins_neighbors,
    later_vote, neighbor_pairs, outlier_angle, own_vote, reliable, spanning_votes, votes_on,
    NeighborPair, VoteSource,
};
use crate::types::PairGeometry;
use vstd::prelude::*;

verus! {

/// Whether pair `i` is the first that joins an image and the next one.
pub open spec fn is_adjacent(pairs: Seq<PairGeometry>, image: int, i: int) -> bool {
    &&& 0 <= i < pairs.len()
    &&& pairs[i].left == image && pairs[i].right == image + 1
    &&& forall|j: int|
        0 <= j < i ==> !((#[trigger] pairs[j]).left == image && pairs[j].right == image + 1)
}

/// The pair of an image and the next one is the first that joins them.
pub proof fn law_adjacent_pair(pairs: Seq<PairGeometry>, image: int)
    requires
        pairs.len() <= usize::MAX,
    ensures
        adjacent_from(pairs, image, 0) matches Some(i) ==> is_adjacent(pairs, image, i as int),
        adjacent_from(pairs, image, 0) is None ==> forall|j: int|
            0 <= j < pairs.len() ==> !((#[trigger] pairs[j]).left == image && pairs[j].right == image
                + 1),
{
    lemma_adjacent(pairs, image, 0);
}

proof fn lemma_adjacent(pairs: Seq<PairGeometry>, image: int, from: int)
    requires
        pairs.len() <= usize::MAX,
        0 <= from,
        forall|j: int|
            0 <= j < from && j < pairs.len() ==> !((#[trigger] pairs[j]).left == image
                && pairs[j].right == image + 1),
    ensures
        adjacent_from(pairs, image, from) matches Some(i) ==> is_adjacent(pairs, image, i as int),
        adjacent_from(pairs, image, from) is None ==> forall|j: int|
            0 <= j < pairs.len() ==> !((#[trigger] pairs[j]).left == image && pairs[j].right == image
                + 1),
    decreases pairs.len() - from,
{
    if from < pairs.len() && !(pairs[from].left == image && pairs[from].right == image + 1) {
        lemma_adjacent(pairs, image, from + 1);
    }
}

/// Whether the direction from an image to the next one is known, and its pair sees
/// its points under an angle of at least the given one.
pub open spec fn is_wide(
    pairs: Seq<PairGeometry>,
    known: Seq<bool>,
    image: int,
    least: u32,
) -> bool {
    &&& 0 <= image < known.len()
    &&& known[image]
    &&& exists|i: int| #[trigger]
        is_adjacent(pairs, image, i) && (Real32 { bits: least }).at_most(
            pairs[i].median_triangulation_angle_deg,
        )
}

/// Whether the pair of an image and the next one sees its points under an angle
/// of at most three quarters of a degree, or none at all.
pub open spec fn is_narrow(pairs: Seq<PairGeometry>, known: Seq<bool>, image: int) -> bool {
    &&& 0 <= image < known.len()
    &&& exists|i: int| #[trigger]
        is_adjacent(pairs, image, i) && !(Real32 { bits: 0x3f40_0000 }).below(
            pairs[i].median_triangulation_angle_deg,
        )
}

proof fn lemma_wide(pairs: Seq<PairGeometry>, known: Seq<bool>, image: int, least: u32)
    requires
        pairs.len() <= usize::MAX,
    ensures
        reliable(pairs, known, image, least) == is_wide(pairs, known, image, least),
        asks_neighbors(pairs, known, image) == is_narrow(
            pairs,
            known,
            image,
        ),
{
    law_adjacent_pair(pairs, image);
    assert forall|i: int, j: int|
        #[trigger] is_adjacent(pairs, image, i) && #[trigger] is_adjacent(
            pairs,
            image,
            j,
        ) implies i == j by {
        if i < j {
            assert(pairs[i].left == image && pairs[i].right == image + 1);
        }
        if j < i {
            assert(pairs[j].left == image && pairs[j].right == image + 1);
        }
    }
    if adjacent_from(pairs, image, 0) is Some {
        assert(is_adjacent(pairs, image, adjacent_from(pairs, image, 0)->0 as int));
    } else {
        assert forall|i: int| !#[trigger] is_adjacent(pairs, image, i) by {}
    }
}

/// An image votes on itself just if its pair sees its points under one degree or
/// more. If it sees them under at most three quarters, the nearest of the three
/// images before votes that sees its own under more or as much, and so does the
/// nearest of the three after. No other image votes.
pub proof fn law_image_votes(
    pairs: Seq<PairGeometry>,
    known: Seq<bool>,
    pair_known: Seq<bool>,
    image: usize,
    voter: usize,
)
    requires
        pairs.len() <= usize::MAX,
        3 <= image < usize::MAX - 3,
    ensures
        ({
            let votes = votes_on(pairs, known, pair_known, image as int);
            let at = image as int;
            let v = votes.contains(VoteSource::Adjacent(voter));
            let open = is_narrow(pairs, known, at);
            let bits = 0x3f40_0000u32;
            &&& voter == image ==> (v <==> is_wide(pairs, known, at, 0x3f80_0000u32))
            &&& voter == image - 1 ==> (v <==> open && is_wide(pairs, known, at - 1, bits))
            &&& voter == image - 2 ==> (v <==> open && is_wide(pairs, known, at - 2, bits)
                && !is_wide(pairs, known, at - 1, bits))
            &&& voter == image - 3 ==> (v <==> open && is_wide(pairs, known, at - 3, bits)
                && !is_wide(pairs, known, at - 1, bits) && !is_wide(pairs, known, at - 2, bits))
            &&& voter == image + 1 ==> (v <==> open && is_wide(pairs, known, at + 1, bits))
            &&& voter == image + 2 ==> (v <==> open && is_wide(pairs, known, at + 2, bits)
                && !is_wide(pairs, known, at + 1, bits))
            &&& voter == image + 3 ==> (v <==> open && is_wide(pairs, known, at + 3, bits)
                && !is_wide(pairs, known, at + 1, bits) && !is_wide(pairs, known, at + 2, bits))
            &&& voter > image + 3 || voter < image - 3 ==> !v
        }),
{
    let at = image as int;
    let bits = 0x3f40_0000u32;
    lemma_wide(pairs, known, at, 0x3f80_0000u32);
    lemma_wide(pairs, known, at - 1, bits);
    lemma_wide(pairs, known, at - 2, bits);
    lemma_wide(pairs, known, at - 3, bits);
    lemma_wide(pairs, known, at + 1, bits);
    lemma_wide(pairs, known, at + 2, bits);
    lemma_wide(pairs, known, at + 3, bits);
    let own = own_vote(pairs, known, at);
    let earlier = earlier_vote(pairs, known, at);
    let later = later_vote(pairs, known, at);
    let spanning = spanning_votes(pairs, pair_known, at, pairs.len());
    let votes = votes_on(pairs, known, pair_known, at);
    let vote = VoteSource::Adjacent(voter);
    lemma_spanning_only(pairs, pair_known, at, pairs.len());
    assert(votes.contains(vote) <==> own.contains(vote) || earlier.contains(vote)
        || later.contains(vote)) by {
        let first = own + earlier;
        let second = first + later;
        if own.contains(vote) {
            let x = choose|x: int| 0 <= x < own.len() && own[x] == vote;
            assert(votes[x] == vote);
        }
        if earlier.contains(vote) {
            let x = choose|x: int| 0 <= x < earlier.len() && earlier[x] == vote;
            assert(votes[own.len() + x] == vote);
        }
        if later.contains(vote) {
            let x = choose|x: int| 0 <= x < later.len() && later[x] == vote;
            assert(votes[first.len() + x] == vote);
        }
        if votes.contains(vote) {
            let x = choose|x: int| 0 <= x < votes.len() && votes[x] == vote;
            if x < own.len() {
                assert(own[x] == vote);
            } else if x < first.len() {
                assert(earlier[x - own.len()] == vote);
            } else if x < second.len() {
                assert(later[x - first.len()] == vote);
            } else {
                assert(spanning[x - second.len()] == vote);
            }
        }
    }
    lemma_single(own, vote);
    lemma_single(earlier, vote);
    lemma_single(later, vote);
}

proof fn lemma_single(s: Seq<VoteSource>, vote: VoteSource)
    requires
        s.len() <= 1,
    ensures
        s.contains(vote) <==> s.len() == 1 && s[0] == vote,
{
    if s.len() == 1 && s[0] == vote {
        assert(s.contains(s[0]));
    }
}

proof fn lemma_spanning_only(
    pairs: Seq<PairGeometry>,
    pair_known: Seq<bool>,
    image: int,
    k: nat,
)
    ensures
        forall|x: int|
            0 <= x < spanning_votes(pairs, pair_known, image, k).len() ==> #[trigger]
                spanning_votes(pairs, pair_known, image, k)[x] is Spanning,
    decreases k,
{
    if k > 0 {
        lemma_spanning_only(pairs, pair_known, image, (k - 1) as nat);
    }
}

/// A pair over two to five images votes on each image from its first to the one
/// before its last, if its direction is known and it sees its points under half a
/// degree or more.
pub proof fn law_spanning_votes(
    pairs: Seq<PairGeometry>,
    pair_known: Seq<bool>,
    image: int,
    k: nat,
    voter: usize,
)
    requires
        k <= pairs.len() <= usize::MAX,
    ensures
        spanning_votes(pairs, pair_known, image, k).contains(VoteSource::Spanning(voter)) <==> {
            let pair = pairs[voter as int];
            &&& voter < k
            &&& pair_known[voter as int]
            &&& pair.left <= image < pair.right
            &&& pair.left + 2 <= pair.right <= pair.left + 5
            &&& !pair.median_triangulation_angle_deg.below(Real32 { bits: 0x3f00_0000 })
        },
    decreases k,
{
    if k > 0 {
        law_spanning_votes(pairs, pair_known, image, (k - 1) as nat, voter);
        let rest = spanning_votes(pairs, pair_known, image, (k - 1) as nat);
        let all = spanning_votes(pairs, pair_known, image, k);
        let vote = VoteSource::Spanning(voter);
        if rest.contains(vote) {
            let x = choose|x: int| 0 <= x < rest.len() && rest[x] == vote;
            assert(all[x] == vote);
        }
        if all.contains(vote) {
            let x = choose|x: int| 0 <= x < all.len() && all[x] == vote;
            if x < rest.len() {
                assert(rest[x] == vote);
            }
        }
        if voter == k - 1 && all.len() > rest.len() {
            assert(all[rest.len() as int] == vote);
        }
    }
}

/// A pair lends its direction just if it ends where the pair of neighbors ends,
/// starts one or two images earlier, sees its points under one degree or more, has
/// a mean error of one pixel or less, and sixty inliers.
pub proof fn law_anchors(adjacent: PairGeometry, candidate: PairGeometry)
    requires
        adjacent.right == adjacent.left + 1,
    ensures
        can_anchor(adjacent, candidate) <==> {
            &&& candidate.right == adjacent.right
            &&& candidate.left + 1 == adjacent.left || candidate.left + 2 == adjacent.left
            &&& (Real32 { bits: 0x3f80_0000 }).at_most(candidate.median_triangulation_angle_deg)
            &&& candidate.mean_reprojection_error_px.at_most(Real32 { bits: 0x3f80_0000 })
            &&& candidate.inliers >= 60
        },
{
}

/// No pair that can lend its direction has a higher score than the best, and of
/// those with the same score the best is the last.
pub proof fn law_best_anchor(
    adjacent: PairGeometry,
    pairs: Seq<PairGeometry>,
    scores: Seq<Real32>,
    best: int,
    j: int,
)
    requires
        is_best_anchor(adjacent, pairs, scores, pairs.len() as int, best),
        0 <= j < pairs.len(),
        can_anchor(adjacent, pairs[j]),
    ensures
        !scores[best].below(scores[j]),
        j > best ==> scores[j].below(scores[best]),
        can_anchor(adjacent, pairs[best]),
{
    assert(can_anchor(adjacent, pairs[j]));
}

/// Pairs of neighbors are walked by their left image, then by position, and each
/// of them is walked.
pub proof fn law_neighbors_in_order(
    pairs: Seq<PairGeometry>,
    out: Seq<NeighborPair>,
    i: int,
    j: int,
    index: usize,
)
    requires
        pairs.len() <= usize::MAX,
        is_sorting_of(out, neighbor_pairs(pairs, pairs.len())),
        0 <= i < out.len(),
        0 <= j < out.len(),
    ensures
        out[i].left < out[j].left ==> i < j,
        out[i].left == out[j].left && out[i].index < out[j].index ==> i < j,
        out.contains(NeighborPair { left: pairs[index as int].left, index }) <==> index
            < pairs.len() && pairs[index as int].right == pairs[index as int].left + 1,
        out[i].index < pairs.len() && out[i].left == pairs[out[i].index as int].left,
{
    let given = neighbor_pairs(pairs, pairs.len());
    let chosen = indices_where(pairs.len(), joins_neighbors(pairs));
    lemma_sorting_contains(out, given);
    lemma_indices_where(pairs.len(), joins_neighbors(pairs));
    if j < i {
        assert(!out[i].before(out[j]));
    }
    let pair = NeighborPair { left: pairs[index as int].left, index };
    if given.contains(pair) {
        let x = choose|x: int| 0 <= x < given.len() && given[x] == pair;
        assert(chosen.contains(chosen[x]));
        assert(joins_neighbors(pairs)(index as int));
    }
    if index < pairs.len() && pairs[index as int].right == pairs[index as int].left + 1 {
        assert(joins_neighbors(pairs)(index as int));
        assert(chosen.contains(index));
        let x = choose|x: int| 0 <= x < chosen.len() && chosen[x] == index;
        assert(given[x] == pair);
    }
    assert(out.contains(out[i]));
    let x = choose|x: int| 0 <= x < given.len() && given[x] == out[i];
    assert(chosen.contains(chosen[x]));
}

/// A pair over two images may differ from what it spans by 28 degrees, over three
/// or four by 24, over more by 18. Neighbors and pairs that close a turn may differ
/// by any angle.
pub proof fn law_outlier_angles(pair: PairGeometry)
    requires
        pair.left <= pair.right,
    ensures
        ({
            let n = pair.right - pair.left;
            let limit = outlier_angle(pair);
            let closes = 188 <= n <= 196 && (pair.left % 192 <= 3 || pair.left % 192 >= 188);
            &&& n <= 1 || closes ==> limit is None
            &&& n == 2 ==> limit == Some(Real32 { bits: 0x41e0_0000 })
            &&& n == 3 || n == 4 ==> limit == Some(Real32 { bits: 0x41c0_0000 })
            &&& n >= 5 && !closes ==> limit == Some(Real32 { bits: 0x4190_0000 })
        }),
{
    law_ring_closures(pair.left, pair.right);
}

} // verus!
