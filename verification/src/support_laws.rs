//! Registration without points, said of matches, tracks and errors themselves.

use crate::absolute_pose::{marked, pair_side, supports};
use crate::config::MapperConfig;
use crate::indices::{indices_where, lemma_indices_where};
use crate::observation_manager::Edited;
use crate::scalar::Real32;
use crate::structureless::{
    agrees, becomes_point, constrains, continuable_point, continuable_points, decision_applied,
    group_makes_track, group_observations, inlier_usable, joins, marked_inliers, matches_of,
    position_of, problem_upto, structureless_matches, supports_pose, with_image, ContinuationFit,
    CreationFit, StructurelessCandidate, StructurelessDecision, StructurelessInlier,
    StructurelessProblemView, StructurelessSupport,
};
use crate::types::{ImageFrame, PairGeometry, ReconstructionView, TrackObservation};
use vstd::prelude::*;

verus! {

/// Whether match `i` of a pair joins the features of an inlier, and both exist.
pub open spec fn is_match(
    frames: Seq<ImageFrame>,
    pair: PairGeometry,
    image_is_left: bool,
    i: int,
    x: StructurelessInlier,
) -> bool {
    let m = pair.inlier_matches@[i];
    &&& 0 <= i < pair.inlier_matches@.len()
    &&& image_is_left ==> x.feature == m.query_idx as usize && x.other_feature
        == m.train_idx as usize
    &&& !image_is_left ==> x.feature == m.train_idx as usize && x.other_feature
        == m.query_idx as usize
    &&& x.image < frames.len() && x.feature < frames[x.image as int].keypoints@.len()
    &&& x.other < frames.len() && x.other_feature < frames[x.other as int].keypoints@.len()
}

/// The matches of a pair are those whose features exist, and no others.
pub proof fn law_matches_of_pair(
    frames: Seq<ImageFrame>,
    pair: PairGeometry,
    image: usize,
    other: usize,
    image_is_left: bool,
    k: nat,
    x: StructurelessInlier,
)
    requires
        k <= pair.inlier_matches@.len(),
    ensures
        structureless_matches(frames, pair, image, other, image_is_left, k).contains(x) <==> {
            &&& x.image == image
            &&& x.other == other
            &&& exists|i: int| 0 <= i < k && #[trigger] is_match(frames, pair, image_is_left, i, x)
        },
    decreases k,
{
    let list = structureless_matches(frames, pair, image, other, image_is_left, k);
    if k > 0 {
        law_matches_of_pair(frames, pair, image, other, image_is_left, (k - 1) as nat, x);
        let rest = structureless_matches(
            frames,
            pair,
            image,
            other,
            image_is_left,
            (k - 1) as nat,
        );
        if rest.contains(x) {
            let y = choose|y: int| 0 <= y < rest.len() && rest[y] == x;
            assert(list[y] == x);
            let i = choose|i: int|
                0 <= i < k - 1 && #[trigger] is_match(frames, pair, image_is_left, i, x);
            assert(is_match(frames, pair, image_is_left, i, x));
        }
        if list.contains(x) {
            let y = choose|y: int| 0 <= y < list.len() && list[y] == x;
            if y < rest.len() {
                assert(rest[y] == x);
            } else {
                assert(is_match(frames, pair, image_is_left, k - 1, x));
            }
        }
        if x.image == image && x.other == other && is_match(
            frames,
            pair,
            image_is_left,
            k - 1,
            x,
        ) {
            assert(list[rest.len() as int] == x);
        }
        if exists|i: int| 0 <= i < k && #[trigger] is_match(frames, pair, image_is_left, i, x) {
            let i = choose|i: int|
                0 <= i < k && #[trigger] is_match(frames, pair, image_is_left, i, x);
            if i < k - 1 {
                assert(is_match(frames, pair, image_is_left, i, x));
            }
        }
    }
}

/// The first position of an entry.
pub proof fn law_first_position(list: Seq<usize>, x: usize)
    ensures
        position_of(list, x) <= list.len(),
        position_of(list, x) == list.len() <==> !list.contains(x),
        position_of(list, x) < list.len() ==> list[position_of(list, x) as int] == x,
        forall|i: int| 0 <= i < position_of(list, x) ==> list[i] != x,
    decreases list.len(),
{
    if list.len() > 0 && list[0] != x {
        let rest = list.skip(1);
        law_first_position(rest, x);
        assert forall|i: int| 0 <= i < position_of(list, x) implies list[i] != x by {
            if i > 0 {
                assert(rest[i - 1] == list[i]);
            }
        }
        if list.contains(x) {
            let i = choose|i: int| 0 <= i < list.len() && list[i] == x;
            assert(rest[i - 1] == x);
        }
        if rest.contains(x) {
            let i = choose|i: int| 0 <= i < rest.len() && rest[i] == x;
            assert(list[i + 1] == x);
        }
    } else if list.len() > 0 {
        assert(list[0] == x);
    }
}

/// Whether a correspondence of an image points to its registered image.
pub open spec fn names_image(p: StructurelessProblemView, image: usize, i: int) -> bool {
    &&& p.camera_idxs[i] < p.images.len()
    &&& p.images[p.camera_idxs[i] as int] == p.correspondences[i].other
    &&& p.correspondences[i].image == image
}

/// The images of a problem are registered and have plausible cameras, and none is
/// named twice. Each correspondence points to its registered image.
pub proof fn law_problem_images(
    frames: Seq<ImageFrame>,
    pairs: Seq<PairGeometry>,
    r: ReconstructionView,
    image: usize,
    k: nat,
)
    requires
        k <= pairs.len() <= usize::MAX,
    ensures
        ({
            let p = problem_upto(frames, pairs, r, image, k);
            &&& p.images.len() <= k
            &&& p.images.no_duplicates()
            &&& forall|i: int|
                0 <= i < p.images.len() ==> r.registered((#[trigger] p.images[i]) as int)
                    && !r.camera_of(p.images[i] as int).bogus
            &&& p.camera_idxs.len() == p.correspondences.len()
            &&& forall|i: int|
                0 <= i < p.correspondences.len() ==> #[trigger] names_image(p, image, i)
        }),
    decreases k,
{
    if k > 0 {
        law_problem_images(frames, pairs, r, image, (k - 1) as nat);
        let rest = problem_upto(frames, pairs, r, image, (k - 1) as nat);
        let p = problem_upto(frames, pairs, r, image, k);
        let pair = pairs[k - 1];
        if pair_side(image, pair) is Some && supports(
            r,
            (pair_side(image, pair)->0).0,
        ) {
            let (other, image_is_left) = pair_side(image, pair)->0;
            let n = pair.inlier_matches@.len();
            let found = structureless_matches(frames, pair, image, other, image_is_left, n);
            law_first_position(rest.images, other);
            assert(p.images == with_image(rest.images, other));
            assert forall|i: int| 0 <= i < found.len() implies (#[trigger] found[i]).image == image
                && found[i].other == other by {
                assert(found.contains(found[i]));
                law_matches_of_pair(frames, pair, image, other, image_is_left, n, found[i]);
            }
            assert forall|i: int, j: int| 0 <= i < j < p.images.len() implies p.images[i]
                != p.images[j] by {
                if j == rest.images.len() {
                    assert(rest.images.contains(rest.images[i]));
                }
            }
            assert forall|i: int| 0 <= i < p.images.len() implies r.registered(
                (#[trigger] p.images[i]) as int,
            ) && !r.camera_of(p.images[i] as int).bogus by {
                if i < rest.images.len() {
                    assert(p.images[i] == rest.images[i]);
                }
            }
            assert forall|i: int| 0 <= i < p.correspondences.len() implies #[trigger] names_image(
                p,
                image,
                i,
            ) by {
                if i < rest.correspondences.len() {
                    assert(names_image(rest, image, i));
                    assert(p.correspondences[i] == rest.correspondences[i]);
                    assert(p.camera_idxs[i] == rest.camera_idxs[i]);
                } else {
                    assert(p.correspondences[i] == found[i - rest.correspondences.len()]);
                    assert(p.camera_idxs[i] == position_of(rest.images, other));
                }
            }
        }
    }
}

/// Whether a match of a pair joins the features of an inlier.
pub open spec fn has_match(
    frames: Seq<ImageFrame>,
    pair: PairGeometry,
    image_is_left: bool,
    x: StructurelessInlier,
) -> bool {
    exists|i: int| #[trigger] is_match(frames, pair, image_is_left, i, x)
}

/// Whether a pair joins an image with a registered one of a plausible camera, and
/// one of its matches is the inlier.
pub open spec fn offers(
    frames: Seq<ImageFrame>,
    r: ReconstructionView,
    image: usize,
    pair: PairGeometry,
    x: StructurelessInlier,
) -> bool {
    &&& pair.left == image || pair.right == image
    &&& x.image == image
    &&& x.other == (if pair.left == image {
        pair.right
    } else {
        pair.left
    })
    &&& r.registered(x.other as int)
    &&& !r.camera_of(x.other as int).bogus
    &&& has_match(frames, pair, pair.left == image, x)
}

/// The correspondences of a problem are those that a pair offers.
pub proof fn law_problem_correspondences(
    frames: Seq<ImageFrame>,
    pairs: Seq<PairGeometry>,
    r: ReconstructionView,
    image: usize,
    k: nat,
    x: StructurelessInlier,
)
    requires
        k <= pairs.len(),
    ensures
        problem_upto(frames, pairs, r, image, k).correspondences.contains(x) <==> exists|j: int|
            0 <= j < k && offers(frames, r, image, #[trigger] pairs[j], x),
    decreases k,
{
    if k > 0 {
        law_problem_correspondences(frames, pairs, r, image, (k - 1) as nat, x);
        let rest = problem_upto(frames, pairs, r, image, (k - 1) as nat).correspondences;
        let all = problem_upto(frames, pairs, r, image, k).correspondences;
        let pair = pairs[k - 1];
        if pair_side(image, pair) is Some && supports(
            r,
            (pair_side(image, pair)->0).0,
        ) {
            let (other, image_is_left) = pair_side(image, pair)->0;
            let n = pair.inlier_matches@.len();
            let found = structureless_matches(frames, pair, image, other, image_is_left, n);
            law_matches_of_pair(frames, pair, image, other, image_is_left, n, x);
            assert(found.contains(x) <==> offers(frames, r, image, pair, x)) by {
                if offers(frames, r, image, pair, x) {
                    let i = choose|i: int| #[trigger]
                        is_match(frames, pair, image_is_left, i, x);
                    assert(is_match(frames, pair, image_is_left, i, x));
                }
            }
            assert(all == rest + found);
            if rest.contains(x) {
                let y = choose|y: int| 0 <= y < rest.len() && rest[y] == x;
                assert(all[y] == x);
            }
            if found.contains(x) {
                let y = choose|y: int| 0 <= y < found.len() && found[y] == x;
                assert(all[rest.len() + y] == x);
            }
            if all.contains(x) {
                let y = choose|y: int| 0 <= y < all.len() && all[y] == x;
                if y < rest.len() {
                    assert(rest[y] == x);
                } else {
                    assert(found[y - rest.len()] == x);
                }
            }
        }
        if exists|j: int| 0 <= j < k - 1 && offers(frames, r, image, #[trigger] pairs[j], x) {
            let j = choose|j: int|
                0 <= j < k - 1 && offers(frames, r, image, #[trigger] pairs[j], x);
            assert(offers(frames, r, image, pairs[j], x));
        }
    }
}

/// A pair constrains a pose just if it does not only tie poses together and offers
/// a match.
pub proof fn law_constraining_pairs(
    frames: Seq<ImageFrame>,
    r: ReconstructionView,
    image: usize,
    pair: PairGeometry,
)
    ensures
        constrains(frames, r, image, pair) <==> !pair.pose_graph_only && exists|x:
            StructurelessInlier| #[trigger] offers(frames, r, image, pair, x),
{
    if pair_side(image, pair) is Some {
        let (other, image_is_left) = pair_side(image, pair)->0;
        let n = pair.inlier_matches@.len();
        let found = structureless_matches(frames, pair, image, other, image_is_left, n);
        if exists|x: StructurelessInlier| #[trigger] offers(frames, r, image, pair, x) {
            let x = choose|x: StructurelessInlier| #[trigger] offers(frames, r, image, pair, x);
            law_matches_of_pair(frames, pair, image, other, image_is_left, n, x);
            let i = choose|i: int| #[trigger] is_match(frames, pair, image_is_left, i, x);
            assert(is_match(frames, pair, image_is_left, i, x));
            assert(found.contains(x));
        }
        if constrains(frames, r, image, pair) {
            let x = found[0];
            assert(found.contains(x));
            law_matches_of_pair(frames, pair, image, other, image_is_left, n, x);
            assert(offers(frames, r, image, pair, x));
        }
    } else {
        assert forall|x: StructurelessInlier| !#[trigger] offers(frames, r, image, pair, x) by {}
    }
}

/// A pose is looked for just if there are twice as many matches as inliers are
/// needed, from two images at least. It is supported just if there are twice as
/// many inliers, from two images at least, and their share is not too low.
pub proof fn law_support(
    support: StructurelessSupport,
    inliers: nat,
    neighbors: nat,
    ratio: Real32,
    config: MapperConfig,
)
    ensures
        support.matches < 2 * config.abs_pose_min_num_inliers ==> !support.suffices(config),
        support.neighbors < 2 ==> !support.suffices(config),
        support.matches >= 2 * config.abs_pose_min_num_inliers && support.neighbors >= 2
            ==> support.suffices(config),
        inliers < 2 * config.abs_pose_min_num_inliers ==> !supports_pose(
            inliers,
            neighbors,
            ratio,
            config,
        ),
        neighbors < 2 ==> !supports_pose(inliers, neighbors, ratio, config),
        ratio.below(config.abs_pose_min_inlier_ratio) ==> !supports_pose(
            inliers,
            neighbors,
            ratio,
            config,
        ),
        inliers >= 2 * config.abs_pose_min_num_inliers && neighbors >= 2
            && config.abs_pose_min_inlier_ratio.at_most(ratio) ==> supports_pose(
            inliers,
            neighbors,
            ratio,
            config,
        ),
{
}

/// The matches of candidates add up one candidate after the other.
pub proof fn law_matches_add_up(
    candidates: Seq<StructurelessCandidate>,
    chosen: Seq<usize>,
    more: usize,
)
    ensures
        matches_of(candidates, chosen.push(more), chosen.len() + 1) == matches_of(
            candidates,
            chosen,
            chosen.len(),
        ) + candidates[more as int].matches@.len(),
        matches_of(candidates, Seq::empty(), 0) == 0,
{
    lemma_matches_congruent(candidates, chosen, chosen.push(more), chosen.len());
    assert(chosen.push(more)[chosen.len() as int] == more);
}

proof fn lemma_matches_congruent(
    candidates: Seq<StructurelessCandidate>,
    a: Seq<usize>,
    b: Seq<usize>,
    k: nat,
)
    requires
        k <= a.len(),
        k <= b.len(),
        forall|i: int| 0 <= i < k ==> a[i] == b[i],
    ensures
        matches_of(candidates, a, k) == matches_of(candidates, b, k),
    decreases k,
{
    if k > 0 {
        lemma_matches_congruent(candidates, a, b, (k - 1) as nat);
    }
}

/// A candidate agrees with a hypothesis just if its rotation error could be
/// measured and is at most the limit.
pub proof fn law_agreeing_candidates(errors: Seq<Option<Real32>>, limit: Real32, i: usize)
    requires
        errors.len() <= usize::MAX,
    ensures
        indices_where(errors.len(), agrees(errors, limit)).contains(i) <==> {
            &&& i < errors.len()
            &&& errors[i as int] is Some
            &&& errors[i as int]->0.at_most(limit)
        },
{
    let q = agrees(errors, limit);
    lemma_indices_where(errors.len(), q);
    if i < errors.len() && q(i as int) {
        assert(indices_where(errors.len(), q).contains(i));
    }
}

/// The marked correspondences are those whose mark is set.
pub proof fn law_marked_inliers(
    correspondences: Seq<StructurelessInlier>,
    mask: Seq<bool>,
    x: StructurelessInlier,
)
    requires
        correspondences.len() <= usize::MAX,
    ensures
        marked_inliers(correspondences, mask).contains(x) <==> exists|i: int|
            0 <= i < correspondences.len() && i < mask.len() && mask[i]
                && #[trigger] correspondences[i] == x,
{
    let q = marked(mask);
    let chosen = indices_where(correspondences.len(), q);
    let list = marked_inliers(correspondences, mask);
    lemma_indices_where(correspondences.len(), q);
    if list.contains(x) {
        let y = choose|y: int| 0 <= y < list.len() && list[y] == x;
        assert(chosen.contains(chosen[y]));
        assert(correspondences[chosen[y] as int] == x);
    }
    if exists|i: int|
        0 <= i < correspondences.len() && i < mask.len() && mask[i]
            && #[trigger] correspondences[i] == x {
        let i = choose|i: int|
            0 <= i < correspondences.len() && i < mask.len() && mask[i]
                && #[trigger] correspondences[i] == x;
        assert(q(i));
        assert(chosen.contains(i as usize));
        let y = choose|y: int| 0 <= y < chosen.len() && chosen[y] == i as usize;
        assert(list[y] == x);
    }
}

/// An inlier is usable just if both images are registered and both features exist
/// among the keypoints and in the table.
pub proof fn law_usable_inliers(
    x: StructurelessInlier,
    frames: Seq<ImageFrame>,
    r: ReconstructionView,
)
    ensures
        inlier_usable(x, frames, r) <==> {
            &&& r.registered(x.image as int)
            &&& r.registered(x.other as int)
            &&& x.image < frames.len() && x.feature < frames[x.image as int].keypoints@.len()
            &&& x.other < frames.len() && x.other_feature < frames[x.other as int].keypoints@.len()
            &&& x.image < r.observations.len() && x.feature < r.observations[x.image as int].len()
            &&& x.other < r.observations.len() && x.other_feature
                < r.observations[x.other as int].len()
        },
{
}

/// A group of inliers offers a point just if a registered feature of it observes
/// the point and the track of the point has no observation of the image.
pub proof fn law_offered_points(
    r: ReconstructionView,
    list: Seq<StructurelessInlier>,
    start: int,
    k: int,
    point: usize,
)
    requires
        0 <= start <= k <= list.len(),
    ensures
        continuable_points(r, list, start, k).contains(point) <==> exists|j: int|
            start <= j < k && is_offered(r, #[trigger] list[j], point),
    decreases k - start,
{
    let all = continuable_points(r, list, start, k);
    if start < k {
        law_offered_points(r, list, start, k - 1, point);
        let rest = continuable_points(r, list, start, k - 1);
        let own = continuable_point(r, list[k - 1]);
        assert(own == Some(point) <==> is_offered(r, list[k - 1], point));
        if rest.contains(point) {
            let x = choose|x: int| 0 <= x < rest.len() && rest[x] == point;
            assert(all[x] == point);
            let j = choose|j: int| start <= j < k - 1 && is_offered(r, #[trigger] list[j], point);
            assert(is_offered(r, list[j], point));
        }
        if own == Some(point) {
            assert(all[rest.len() as int] == point);
            assert(is_offered(r, list[k - 1], point));
        }
        if all.contains(point) {
            let x = choose|x: int| 0 <= x < all.len() && all[x] == point;
            if x < rest.len() {
                assert(rest[x] == point);
            }
        }
        if exists|j: int| start <= j < k && is_offered(r, #[trigger] list[j], point) {
            let j = choose|j: int| start <= j < k && is_offered(r, #[trigger] list[j], point);
            if j < k - 1 {
                assert(is_offered(r, list[j], point));
            }
        }
    }
}

/// Whether the registered feature of an inlier observes a point whose track has no
/// observation of the image.
pub open spec fn is_offered(r: ReconstructionView, x: StructurelessInlier, point: usize) -> bool {
    &&& r.observed(x.other as int, x.other_feature as int) == Some(point)
    &&& point < r.points.len()
    &&& forall|k: int|
        0 <= k < r.points[point as int].track.len() ==> (
        #[trigger] r.points[point as int].track[k]).image != x.image
}

/// A group makes a track just if its feature and the registered ones are of
/// different images and none observes a point.
pub proof fn law_group_tracks(
    r: ReconstructionView,
    list: Seq<StructurelessInlier>,
    start: int,
    end: int,
)
    requires
        0 <= start < end <= list.len(),
        group_makes_track(r, list, start, end),
    ensures
        r.observed(list[start].image as int, list[start].feature as int) is None,
        forall|j: int|
            start <= j < end ==> {
                &&& (#[trigger] list[j]).other != list[start].image
                &&& r.observed(list[j].other as int, list[j].other_feature as int) is None
            },
        forall|i: int, j: int|
            start <= i < j < end ==> (#[trigger] list[i]).other != (#[trigger] list[j]).other,
{
    let all = group_observations(list, start, end);
    assert(all[0].image == list[start].image && all[0].feature == list[start].feature);
    assert forall|j: int| start <= j < end implies {
        &&& (#[trigger] list[j]).other != list[start].image
        &&& r.observed(list[j].other as int, list[j].other_feature as int) is None
    } by {
        assert(all[j - start + 1] == (TrackObservation {
            image: list[j].other,
            feature: list[j].other_feature,
        }));
    }
    assert forall|i: int, j: int| start <= i < j < end implies (#[trigger] list[i]).other != (
    #[trigger] list[j]).other by {
        assert(all[i - start + 1].image == list[i].other);
        assert(all[j - start + 1].image == list[j].other);
    }
}

/// A feature joins a point just if its error is finite and at most the limit and
/// the longer track holds. A new track becomes a point just if it is there, was
/// measured and holds.
pub proof fn law_joining(
    fit: ContinuationFit,
    max_error: Real32,
    track: Option<Vec<TrackObservation>>,
    created: Option<CreationFit>,
)
    requires
        !max_error.nan(),
    ensures
        !fit.error.finite() || max_error.below(fit.error) || !fit.track_ok ==> !joins(
            fit,
            max_error,
        ),
        fit.error.finite() && fit.error.at_most(max_error) && fit.track_ok ==> joins(
            fit,
            max_error,
        ),
        track is None || created is None ==> !becomes_point(track, created),
        created matches Some(c) ==> (becomes_point(track, created) <==> track is Some
            && c.track_ok),
{
}

/// A decision about a feature that observes a point changes nothing. Otherwise the
/// feature joins the named point, which moves where it was refitted to, or a point
/// with the named track is added.
pub proof fn law_decisions(
    s: Edited,
    image: usize,
    feature: usize,
    decision: StructurelessDecision,
)
    ensures
        ({
            let t = decision_applied(s, image, feature, decision);
            let taken = s.r.observed(image as int, feature as int) is Some;
            &&& taken ==> t == s
            &&& decision is Skip ==> t == s
            &&& decision is Continue ==> t.r.points.len() == s.r.points.len()
            &&& decision matches StructurelessDecision::Continue { point_id, refit } ==> {
                let p = point_id as int;
                !taken && t != s ==> {
                    &&& point_id < s.r.points.len()
                    &&& t.r.observed(image as int, feature as int) == Some(point_id)
                    &&& t.r.points[p].track == s.r.points[p].track.push(
                        TrackObservation { image, feature },
                    )
                    &&& refit is None ==> t.r.points[p].xyz == s.r.points[p].xyz
                    &&& refit matches Some(place) ==> t.r.points[p].xyz == place.0
                        && t.r.points[p].error == place.1
                    &&& forall|q: int|
                        0 <= q < s.r.points.len() && q != p ==> #[trigger] t.r.points[q]
                            == s.r.points[q]
                    &&& t.modified == s.modified.insert(point_id)
                }
            }
            &&& decision matches StructurelessDecision::Create { xyz, error, track } ==> {
                !taken && t != s ==> {
                    let n = s.r.points.len() as int;
                    &&& t.r.points.len() == n + 1
                    &&& t.r.points[n].track == track@
                    &&& t.r.points[n].xyz == xyz && t.r.points[n].error == error
                    &&& forall|q: int| 0 <= q < n ==> #[trigger] t.r.points[q] == s.r.points[q]
                    &&& t.modified == s.modified.insert(s.r.points.len() as usize)
                }
            }
        }),
{
}

/// A group makes a track if its feature and the registered ones are of different
/// images and none observes a point.
pub proof fn law_groups_make_tracks(
    r: ReconstructionView,
    list: Seq<StructurelessInlier>,
    start: int,
    end: int,
)
    requires
        0 <= start < end <= list.len(),
        r.observed(list[start].image as int, list[start].feature as int) is None,
        forall|j: int|
            start <= j < end ==> {
                &&& (#[trigger] list[j]).other != list[start].image
                &&& r.observed(list[j].other as int, list[j].other_feature as int) is None
            },
        forall|i: int, j: int|
            start <= i < j < end ==> (#[trigger] list[i]).other != (#[trigger] list[j]).other,
    ensures
        group_makes_track(r, list, start, end),
{
    let all = group_observations(list, start, end);
    assert(all[0].image == list[start].image && all[0].feature == list[start].feature);
    assert forall|i: int| 0 < i < all.len() implies (#[trigger] all[i]).image == list[start + i
        - 1].other && all[i].feature == list[start + i - 1].other_feature by {}
    assert forall|i: int, j: int| 0 <= i < j < all.len() implies (#[trigger] all[i]).image != (
    #[trigger] all[j]).image by {
        assert(list[start + j - 1].other == all[j].image);
        if i > 0 {
            assert(list[start + i - 1].other == all[i].image);
        }
    }
    assert forall|i: int| 0 <= i < all.len() implies r.observed(
        (#[trigger] all[i]).image as int,
        all[i].feature as int,
    ) is None by {
        if i > 0 {
            assert(list[start + i - 1].other == all[i].image);
        }
    }
}

/// A feature joins the named point if it has a slot and observes nothing, and the
/// track of the point has no observation of its image.
pub proof fn law_continuation_carried_out(
    s: Edited,
    image: usize,
    feature: usize,
    point_id: usize,
    refit: Option<([Real32; 3], Real32)>,
)
    requires
        image < s.r.observations.len(),
        feature < s.r.observations[image as int].len(),
        s.r.observed(image as int, feature as int) is None,
        point_id < s.r.points.len(),
        forall|k: int|
            0 <= k < s.r.points[point_id as int].track.len() ==> (
            #[trigger] s.r.points[point_id as int].track[k]).image != image,
    ensures
        ({
            let t = decision_applied(
                s,
                image,
                feature,
                StructurelessDecision::Continue { point_id, refit },
            );
            &&& t.r.observed(image as int, feature as int) == Some(point_id)
            &&& t.r.points[point_id as int].track == s.r.points[point_id as int].track.push(
                TrackObservation { image, feature },
            )
        }),
{
}

} // verus!
