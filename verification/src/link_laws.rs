//! Statistics of images, said of matches, poses and observed points themselves.

use crate::indices::{
    count_where, lemma_count_bound, lemma_count_positive, lemma_where_congruent,
};
use crate::links::{
    all_links, at_links, backward_link, count_links, forward_link, links_upto, pair_links,
    to_point, to_registered, Link,
};
use crate::observation_manager::{pair_stats_upto, triangulated, ObservationManager};
use crate::types::{ImageFrame, PairGeometry, ReconstructionView};
use crate::visibility::{coarse_cell, grid_size, occupied_cells, score_upto, visibility_score};
use vstd::prelude::*;

verus! {

/// Whether a link is match `i` of pair `j`, seen from either of its images, and
/// both features exist.
pub open spec fn is_link_of(
    frames: Seq<ImageFrame>,
    pairs: Seq<PairGeometry>,
    j: int,
    i: int,
    l: Link,
) -> bool {
    let pair = pairs[j];
    let m = pair.inlier_matches@[i];
    &&& 0 <= j < pairs.len()
    &&& 0 <= i < pair.inlier_matches@.len()
    &&& {
        ||| (l.image == pair.left && l.feature == m.query_idx as usize && l.other_image
            == pair.right && l.other_feature == m.train_idx as usize)
        ||| (l.image == pair.right && l.feature == m.train_idx as usize && l.other_image
            == pair.left && l.other_feature == m.query_idx as usize)
    }
    &&& l.image < frames.len() && l.feature < frames[l.image as int].keypoints@.len()
    &&& l.other_image < frames.len() && l.other_feature
        < frames[l.other_image as int].keypoints@.len()
}

proof fn lemma_links_of_pair(
    frames: Seq<ImageFrame>,
    pairs: Seq<PairGeometry>,
    j: int,
    k: nat,
    l: Link,
)
    requires
        0 <= j < pairs.len(),
        k <= pairs[j].inlier_matches@.len(),
    ensures
        pair_links(frames, pairs[j], k).contains(l) <==> exists|i: int|
            0 <= i < k && #[trigger] is_link_of(frames, pairs, j, i, l),
    decreases k,
{
    if k > 0 {
        lemma_links_of_pair(frames, pairs, j, (k - 1) as nat, l);
        let pair = pairs[j];
        let rest = pair_links(frames, pair, (k - 1) as nat);
        let all = pair_links(frames, pair, k);
        let m = pair.inlier_matches@[k - 1];
        if rest.contains(l) {
            let x = choose|x: int| 0 <= x < rest.len() && rest[x] == l;
            assert(all[x] == l);
            let i = choose|i: int|
                0 <= i < k - 1 && #[trigger] is_link_of(frames, pairs, j, i, l);
            assert(is_link_of(frames, pairs, j, i, l));
        }
        if is_link_of(frames, pairs, j, k - 1, l) {
            assert(l == forward_link(pair, m) || l == backward_link(pair, m));
            if l == forward_link(pair, m) {
                assert(all[rest.len() as int] == l);
            } else {
                assert(all[rest.len() as int + 1] == l);
            }
        }
        if all.contains(l) {
            let x = choose|x: int| 0 <= x < all.len() && all[x] == l;
            if x < rest.len() {
                assert(rest[x] == l);
            } else {
                assert(is_link_of(frames, pairs, j, k - 1, l));
            }
        }
        if exists|i: int| 0 <= i < k && #[trigger] is_link_of(frames, pairs, j, i, l) {
            let i = choose|i: int| 0 <= i < k && #[trigger] is_link_of(frames, pairs, j, i, l);
            if i < k - 1 {
                assert(is_link_of(frames, pairs, j, i, l));
            }
        }
    }
}

/// The links are the matches whose features exist, seen from both images.
pub proof fn law_links(frames: Seq<ImageFrame>, pairs: Seq<PairGeometry>, k: nat, l: Link)
    requires
        k <= pairs.len(),
    ensures
        links_upto(frames, pairs, k).contains(l) <==> exists|j: int, i: int|
            j < k && #[trigger] is_link_of(frames, pairs, j, i, l),
    decreases k,
{
    if k > 0 {
        law_links(frames, pairs, (k - 1) as nat, l);
        let rest = links_upto(frames, pairs, (k - 1) as nat);
        let n = pairs[k - 1].inlier_matches@.len();
        let own = pair_links(frames, pairs[k - 1], n);
        let all = links_upto(frames, pairs, k);
        lemma_links_of_pair(frames, pairs, k - 1, n, l);
        if rest.contains(l) {
            let x = choose|x: int| 0 <= x < rest.len() && rest[x] == l;
            assert(all[x] == l);
            let (j, i) = choose|j: int, i: int|
                j < k - 1 && #[trigger] is_link_of(frames, pairs, j, i, l);
            assert(is_link_of(frames, pairs, j, i, l));
        }
        if own.contains(l) {
            let x = choose|x: int| 0 <= x < own.len() && own[x] == l;
            assert(all[rest.len() + x] == l);
            let i = choose|i: int|
                0 <= i < n && #[trigger] is_link_of(frames, pairs, k - 1, i, l);
            assert(is_link_of(frames, pairs, k - 1, i, l));
        }
        if all.contains(l) {
            let x = choose|x: int| 0 <= x < all.len() && all[x] == l;
            if x < rest.len() {
                assert(rest[x] == l);
            } else {
                assert(own[x - rest.len()] == l);
            }
        }
        if exists|j: int, i: int| j < k && #[trigger] is_link_of(frames, pairs, j, i, l) {
            let (j, i) = choose|j: int, i: int|
                j < k && #[trigger] is_link_of(frames, pairs, j, i, l);
            if j < k - 1 {
                assert(is_link_of(frames, pairs, j, i, l));
            } else {
                assert(is_link_of(frames, pairs, k - 1, i, l));
            }
        }
    }
}

proof fn lemma_some_link(links: Seq<Link>, q: spec_fn(Link) -> bool)
    ensures
        count_links(links, q) > 0 <==> exists|l: Link| links.contains(l) && #[trigger] q(l),
{
    let at = at_links(links, q);
    lemma_count_positive(links.len(), at);
    if count_links(links, q) > 0 {
        let k = choose|k: int| 0 <= k < links.len() && #[trigger] at(k);
        assert(links.contains(links[k]) && q(links[k]));
    }
    if exists|l: Link| links.contains(l) && #[trigger] q(l) {
        let l = choose|l: Link| links.contains(l) && #[trigger] q(l);
        let k = choose|k: int| 0 <= k < links.len() && links[k] == l;
        assert(at(k));
    }
}

/// A feature counts as seeing a point just if a match joins it to a feature of a
/// registered image that observes one. An image has a visible correspondence just
/// if a match joins it to a registered image.
pub proof fn law_visible_features(
    manager: ObservationManager,
    frames: Seq<ImageFrame>,
    pairs: Seq<PairGeometry>,
    r: ReconstructionView,
    image: usize,
    feature: usize,
)
    requires
        manager.reflects(frames, pairs, r),
        image < frames.len(),
        feature < frames[image as int].keypoints@.len(),
    ensures
        manager.point_counts()[image as int][feature as int] > 0 <==> exists|j: int, i: int, l:
            Link| {
            &&& #[trigger] is_link_of(frames, pairs, j, i, l)
            &&& l.image == image && l.feature == feature
            &&& r.registered(l.other_image as int)
            &&& r.observed(l.other_image as int, l.other_feature as int) is Some
        },
        manager.image_stats()[image as int].num_visible_correspondences > 0 <==> exists|
            j: int,
            i: int,
            l: Link,
        | {
            &&& #[trigger] is_link_of(frames, pairs, j, i, l)
            &&& l.image == image
            &&& r.registered(l.other_image as int)
        },
{
    let links = all_links(frames, pairs);
    let sees = to_point(r, image as int, feature as int);
    let reaches = to_registered(r, image as int);
    lemma_some_link(links, sees);
    lemma_some_link(links, reaches);
    let stat = manager.image_stats()[image as int];
    assert(stat.num_visible_correspondences == count_links(links, reaches));
    assert(manager.point_counts()[image as int][feature as int] == count_links(links, sees));
    assert forall|l: Link| #[trigger] links.contains(l) <==> exists|j: int, i: int| #[trigger]
        is_link_of(frames, pairs, j, i, l) by {
        law_links(frames, pairs, pairs.len(), l);
        if exists|j: int, i: int| #[trigger] is_link_of(frames, pairs, j, i, l) {
            let (j, i) = choose|j: int, i: int| #[trigger] is_link_of(frames, pairs, j, i, l);
            assert(j < pairs.len() && is_link_of(frames, pairs, j, i, l));
        }
    }
    if exists|j: int, i: int, l: Link| {
        &&& #[trigger] is_link_of(frames, pairs, j, i, l)
        &&& l.image == image && l.feature == feature
        &&& r.registered(l.other_image as int)
        &&& r.observed(l.other_image as int, l.other_feature as int) is Some
    } {
        let (j, i, l) = choose|j: int, i: int, l: Link| {
            &&& #[trigger] is_link_of(frames, pairs, j, i, l)
            &&& l.image == image && l.feature == feature
            &&& r.registered(l.other_image as int)
            &&& r.observed(l.other_image as int, l.other_feature as int) is Some
        };
        assert(links.contains(l) && sees(l));
    }
    if exists|j: int, i: int, l: Link| {
        &&& #[trigger] is_link_of(frames, pairs, j, i, l)
        &&& l.image == image
        &&& r.registered(l.other_image as int)
    } {
        let (j, i, l) = choose|j: int, i: int, l: Link| {
            &&& #[trigger] is_link_of(frames, pairs, j, i, l)
            &&& l.image == image
            &&& r.registered(l.other_image as int)
        };
        assert(links.contains(l) && reaches(l));
    }
}

/// Selects the matches whose features exist and observe the same point.
pub open spec fn meets(
    frames: Seq<ImageFrame>,
    pair: PairGeometry,
    r: ReconstructionView,
) -> spec_fn(int) -> bool {
    |i: int|
        {
            let m = pair.inlier_matches@[i];
            let left = r.observed(pair.left as int, m.query_idx as usize as int);
            let right = r.observed(pair.right as int, m.train_idx as usize as int);
            &&& pair.left < frames.len() && (m.query_idx as usize)
                < frames[pair.left as int].keypoints@.len()
            &&& pair.right < frames.len() && (m.train_idx as usize)
                < frames[pair.right as int].keypoints@.len()
            &&& left is Some && right is Some && left->0 == right->0
        }
}

/// The statistics of two images are those of the last pair that joins them: the
/// number of its matches, and of those whose features observe the same point.
pub proof fn law_pair_statistics(
    frames: Seq<ImageFrame>,
    pairs: Seq<PairGeometry>,
    r: ReconstructionView,
    k: nat,
    at: int,
    low: usize,
    high: usize,
)
    requires
        0 <= at < k <= pairs.len(),
        low <= high < frames.len(),
        joins(pairs[at], low, high),
        forall|j: int| at < j < k ==> !joins(#[trigger] pairs[j], low, high),
    ensures
        pair_stats_upto(frames, pairs, r, k).contains_key((low, high)),
        ({
            let stat = pair_stats_upto(frames, pairs, r, k)[(low, high)];
            let n = pairs[at].inlier_matches@.len();
            &&& stat.num_total_corrs == n
            &&& stat.num_tri_corrs == count_where(n, meets(frames, pairs[at], r))
        }),
    decreases k,
{
    if at < k - 1 {
        law_pair_statistics(frames, pairs, r, (k - 1) as nat, at, low, high);
        assert(!joins(pairs[k - 1], low, high));
    } else {
        let pair = pairs[at];
        let n = pair.inlier_matches@.len();
        assert(n == pair.inlier_matches.len());
        assert forall|i: int| 0 <= i < n implies #[trigger] triangulated(frames, pair, r)(i)
            == meets(frames, pair, r)(i) by {}
        lemma_where_congruent(n, triangulated(frames, pair, r), meets(frames, pair, r));
        lemma_count_bound(n, meets(frames, pair, r));
    }
}

/// Whether a pair joins two images, in either order.
pub open spec fn joins(pair: PairGeometry, low: usize, high: usize) -> bool {
    (pair.left == low && pair.right == high) || (pair.left == high && pair.right == low)
}

/// The score of an image counts the occupied cells of six grids, of one, two, four,
/// eight, sixteen and thirty-two columns and rows.
pub proof fn law_visibility_grids(frame: ImageFrame, visible: spec_fn(int) -> bool)
    requires
        frame.width > 0,
        frame.height > 0,
    ensures
        ({
            let keypoints = frame.keypoints@;
            visibility_score(frame, visible) == occupied_cells(keypoints, visible, 1)
                + occupied_cells(keypoints, visible, 2) + occupied_cells(keypoints, visible, 4)
                + occupied_cells(keypoints, visible, 8) + occupied_cells(keypoints, visible, 16)
                + occupied_cells(keypoints, visible, 32)
        }),
{
    reveal_with_fuel(score_upto, 7);
    reveal_with_fuel(grid_size, 6);
}

/// A coarser cell holds as many finest cells as the grid has fewer columns. What
/// lies beyond the finest grid counts as its last cell.
pub proof fn law_coarse_cells(cell: u8)
    ensures
        cell < 32 ==> coarse_cell(cell, 32) == cell && coarse_cell(cell, 16) == cell / 2
            && coarse_cell(cell, 8) == cell / 4 && coarse_cell(cell, 4) == cell / 8
            && coarse_cell(cell, 2) == cell / 16,
        coarse_cell(cell, 1) == 0,
        cell >= 32 ==> coarse_cell(cell, 32) == 31 && coarse_cell(cell, 2) == 1,
{
    let c: int = if cell < 32 {
        cell as int
    } else {
        31
    };
    assert(32int / 1 == 32 && 32int / 2 == 16 && 32int / 4 == 8 && 32int / 8 == 4 && 32int / 16
        == 2 && 32int / 32 == 1);
    assert(coarse_cell(cell, 1) == c / 32);
    assert(coarse_cell(cell, 2) == c / 16);
    assert(coarse_cell(cell, 4) == c / 8);
    assert(coarse_cell(cell, 8) == c / 4);
    assert(coarse_cell(cell, 16) == c / 2);
    assert(coarse_cell(cell, 32) == c / 1);
}

} // verus!
