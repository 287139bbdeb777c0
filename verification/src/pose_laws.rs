//! Placing an image, said of matches, errors and settings themselves.

use crate::absolute_pose::{
    accepts_pose, at_positions, counted_error, estimates_focal, least_correspondences, marked,
    match_features, pair_side, refines_camera, scratch_upto, search_match, search_matches,
    search_pairs, supports, varying_parameters, AbsolutePoseEval, AbsolutePoseObservation,
    CameraParameterRoles, PoseCorrespondence, PoseSearch, Scratch,
};
use crate::ascending::lists;
use crate::config::MapperConfig;
use crate::indices::{indices_where, lemma_indices_where};
use crate::registration_stats::StatsView;
use crate::scalar::Real32;
use crate::seed_laws::focal_known;
use crate::types::{CameraModel, PairGeometry, ReconstructionView};
use vstd::prelude::*;

verus! {

/// Whether match `i` of pair `j` names a feature of the image together with a
/// feature of a registered image of a plausible camera.
pub open spec fn suggests(
    r: ReconstructionView,
    num_features: nat,
    pairs: Seq<PairGeometry>,
    image: usize,
    j: int,
    i: int,
    feature: usize,
    other: usize,
    other_feature: usize,
) -> bool {
    let pair = pairs[j];
    let m = pair.inlier_matches@[i];
    &&& 0 <= j < pairs.len()
    &&& 0 <= i < pair.inlier_matches@.len()
    &&& if pair.left == image {
        other == pair.right && feature == m.query_idx as usize && other_feature
            == m.train_idx as usize
    } else {
        pair.right == image && other == pair.left && feature == m.train_idx as usize
            && other_feature == m.query_idx as usize
    }
    &&& r.registered(other as int)
    &&& !r.camera_of(other as int).bogus
    &&& feature < num_features
    &&& other < r.observations.len()
    &&& other_feature < r.observations[other as int].len()
}

/// Whether a match before match `m` of pair `k` names the feature.
pub open spec fn is_named(
    r: ReconstructionView,
    num_features: nat,
    pairs: Seq<PairGeometry>,
    image: usize,
    k: int,
    m: int,
    feature: usize,
) -> bool {
    exists|j: int, i: int, other: usize, other_feature: usize|
        (j < k || (j == k && i < m)) && #[trigger] suggests(
            r,
            num_features,
            pairs,
            image,
            j,
            i,
            feature,
            other,
            other_feature,
        )
}

/// Whether the first match that names the feature, if it stands before match `m`
/// of pair `k`, names it with a feature that observes `point`.
pub open spec fn first_named_with(
    r: ReconstructionView,
    num_features: nat,
    pairs: Seq<PairGeometry>,
    image: usize,
    k: int,
    m: int,
    feature: usize,
    point: Option<usize>,
) -> bool {
    exists|j: int, i: int, other: usize, other_feature: usize|
        (j < k || (j == k && i < m)) && #[trigger] suggests(
            r,
            num_features,
            pairs,
            image,
            j,
            i,
            feature,
            other,
            other_feature,
        ) && !is_named(r, num_features, pairs, image, j, i, feature)
            && r.observations[other as int][other_feature as int] == point
}

/// Whether a feature is settled: it has its correspondence, or the first match
/// that names it observes no point or one that another feature has.
pub open spec fn is_settled(
    s: PoseSearch,
    r: ReconstructionView,
    num_features: nat,
    pairs: Seq<PairGeometry>,
    image: usize,
    k: int,
    m: int,
    feature: usize,
) -> bool {
    ||| exists|x: int| 0 <= x < s.found.len() && (#[trigger] s.found[x]).feature == feature
    ||| first_named_with(r, num_features, pairs, image, k, m, feature, None)
    ||| exists|x: int|
        0 <= x < s.found.len() && first_named_with(
            r,
            num_features,
            pairs,
            image,
            k,
            m,
            feature,
            Some((#[trigger] s.found[x]).point_id),
        )
}

/// Whether a search has looked at the matches before match `m` of pair `k`.
pub open spec fn has_searched(
    s: PoseSearch,
    r: ReconstructionView,
    num_features: nat,
    pairs: Seq<PairGeometry>,
    image: usize,
    k: int,
    m: int,
) -> bool {
    &&& forall|f: usize| #[trigger]
        s.features.contains(f) <==> is_named(r, num_features, pairs, image, k, m, f)
    &&& forall|x: int|
        0 <= x < s.found.len() ==> first_named_with(
            r,
            num_features,
            pairs,
            image,
            k,
            m,
            (#[trigger] s.found[x]).feature,
            Some(s.found[x].point_id),
        )
    &&& forall|x: int, y: int|
        0 <= x < y < s.found.len() ==> (#[trigger] s.found[x]).feature != (
        #[trigger] s.found[y]).feature
    &&& forall|f: usize| #[trigger]
        s.features.contains(f) ==> is_settled(s, r, num_features, pairs, image, k, m, f)
    &&& forall|p: usize| #[trigger]
        s.points.contains(p) <==> exists|x: int|
            0 <= x < s.found.len() && (#[trigger] s.found[x]).point_id == p
}

proof fn lemma_named_later(
    r: ReconstructionView,
    num_features: nat,
    pairs: Seq<PairGeometry>,
    image: usize,
    k: int,
    m: int,
    k2: int,
    m2: int,
)
    requires
        k < k2 || (k == k2 && m <= m2),
    ensures
        forall|f: usize|
            is_named(r, num_features, pairs, image, k, m, f) ==> #[trigger] is_named(
                r,
                num_features,
                pairs,
                image,
                k2,
                m2,
                f,
            ),
        forall|f: usize, point: Option<usize>|
            first_named_with(r, num_features, pairs, image, k, m, f, point) ==> #[trigger]
                first_named_with(r, num_features, pairs, image, k2, m2, f, point),
{
    assert forall|f: usize| is_named(
        r,
        num_features,
        pairs,
        image,
        k,
        m,
        f,
    ) implies #[trigger] is_named(r, num_features, pairs, image, k2, m2, f) by {
        let (j, i, o, g) = choose|j: int, i: int, other: usize, other_feature: usize|
            (j < k || (j == k && i < m)) && #[trigger] suggests(
                r,
                num_features,
                pairs,
                image,
                j,
                i,
                f,
                other,
                other_feature,
            );
        assert(suggests(r, num_features, pairs, image, j, i, f, o, g));
    }
    assert forall|f: usize, point: Option<usize>|
        first_named_with(
            r,
            num_features,
            pairs,
            image,
            k,
            m,
            f,
            point,
        ) implies #[trigger] first_named_with(r, num_features, pairs, image, k2, m2, f, point) by {
        let (j, i, o, g) = choose|j: int, i: int, other: usize, other_feature: usize|
            (j < k || (j == k && i < m)) && #[trigger] suggests(
                r,
                num_features,
                pairs,
                image,
                j,
                i,
                f,
                other,
                other_feature,
            ) && !is_named(r, num_features, pairs, image, j, i, f)
                && r.observations[other as int][other_feature as int] == point;
        assert(suggests(r, num_features, pairs, image, j, i, f, o, g));
    }
}

proof fn lemma_settled_later(
    s: PoseSearch,
    t: PoseSearch,
    r: ReconstructionView,
    num_features: nat,
    pairs: Seq<PairGeometry>,
    image: usize,
    k: int,
    m: int,
    feature: usize,
)
    requires
        s.found.len() <= t.found.len(),
        forall|x: int| 0 <= x < s.found.len() ==> #[trigger] s.found[x] == t.found[x],
        is_settled(s, r, num_features, pairs, image, k, m, feature),
    ensures
        is_settled(t, r, num_features, pairs, image, k, m + 1, feature),
{
    lemma_named_later(r, num_features, pairs, image, k, m, k, m + 1);
    if exists|x: int| 0 <= x < s.found.len() && (#[trigger] s.found[x]).feature == feature {
        let x = choose|x: int| 0 <= x < s.found.len() && (#[trigger] s.found[x]).feature == feature;
        assert(t.found[x].feature == feature);
    } else if !first_named_with(r, num_features, pairs, image, k, m, feature, None) {
        let x = choose|x: int|
            0 <= x < s.found.len() && first_named_with(
                r,
                num_features,
                pairs,
                image,
                k,
                m,
                feature,
                Some((#[trigger] s.found[x]).point_id),
            );
        assert(first_named_with(
            r,
            num_features,
            pairs,
            image,
            k,
            m + 1,
            feature,
            Some(t.found[x].point_id),
        ));
    }
}

proof fn lemma_pose_step(
    s: PoseSearch,
    r: ReconstructionView,
    num_features: nat,
    pairs: Seq<PairGeometry>,
    image: usize,
    k: int,
    m: int,
    other: usize,
    image_is_left: bool,
)
    requires
        0 <= k < pairs.len(),
        0 <= m < pairs[k].inlier_matches@.len(),
        pair_side(image, pairs[k]) == Some((other, image_is_left)),
        supports(r, other),
        has_searched(s, r, num_features, pairs, image, k, m),
    ensures
        ({
            let (feature, other_feature) = match_features(
                pairs[k].inlier_matches@[m],
                image_is_left,
            );
            has_searched(
                search_match(s, r, num_features, other, feature, other_feature),
                r,
                num_features,
                pairs,
                image,
                k,
                m + 1,
            )
        }),
{
    let (feature, other_feature) = match_features(pairs[k].inlier_matches@[m], image_is_left);
    let t = search_match(s, r, num_features, other, feature, other_feature);
    lemma_named_later(r, num_features, pairs, image, k, m, k, m + 1);
    let fits = suggests(r, num_features, pairs, image, k, m, feature, other, other_feature);
    assert forall|f: usize| #[trigger]
        is_named(r, num_features, pairs, image, k, m + 1, f) implies is_named(
        r,
        num_features,
        pairs,
        image,
        k,
        m,
        f,
    ) || (fits && f == feature) by {
        let (j, i, o, g) = choose|j: int, i: int, other: usize, other_feature: usize|
            (j < k || (j == k && i < m + 1)) && #[trigger] suggests(
                r,
                num_features,
                pairs,
                image,
                j,
                i,
                f,
                other,
                other_feature,
            );
        assert(suggests(r, num_features, pairs, image, j, i, f, o, g));
        if !(j < k || (j == k && i < m)) {
            assert(j == k && i == m);
        }
    }
    if fits {
        assert(is_named(r, num_features, pairs, image, k, m + 1, feature));
    }
    if fits && !s.features.contains(feature) {
        assert(!is_named(r, num_features, pairs, image, k, m, feature));
        let point = r.observations[other as int][other_feature as int];
        assert(first_named_with(r, num_features, pairs, image, k, m + 1, feature, point));
        assert forall|x: int| 0 <= x < s.found.len() implies (#[trigger] s.found[x]).feature
            != feature by {
            let (j, i, o, g) = choose|j: int, i: int, other: usize, other_feature: usize|
                (j < k || (j == k && i < m)) && #[trigger] suggests(
                    r,
                    num_features,
                    pairs,
                    image,
                    j,
                    i,
                    s.found[x].feature,
                    other,
                    other_feature,
                ) && !is_named(r, num_features, pairs, image, j, i, s.found[x].feature)
                    && r.observations[other as int][other_feature as int] == Some(
                    s.found[x].point_id,
                );
            if s.found[x].feature == feature {
                assert(is_named(r, num_features, pairs, image, k, m, feature));
            }
        }
        assert forall|f: usize| #[trigger] t.features.contains(f) implies is_settled(
            t,
            r,
            num_features,
            pairs,
            image,
            k,
            m + 1,
            f,
        ) by {
            if f == feature {
                if point is Some {
                    if s.points.contains(point->0) {
                        let x = choose|x: int|
                            0 <= x < s.found.len() && (#[trigger] s.found[x]).point_id
                                == point->0;
                        assert(t.found[x].point_id == point->0);
                    } else {
                        assert(t.found[s.found.len() as int].feature == f);
                    }
                }
            } else {
                assert(s.features.contains(f));
                lemma_settled_later(s, t, r, num_features, pairs, image, k, m, f);
            }
        }
        assert forall|p: usize| #[trigger] t.points.contains(p) <==> exists|x: int|
            0 <= x < t.found.len() && (#[trigger] t.found[x]).point_id == p by {
            if s.points.contains(p) {
                let x = choose|x: int|
                    0 <= x < s.found.len() && (#[trigger] s.found[x]).point_id == p;
                assert(t.found[x].point_id == p);
            }
            if t.points.contains(p) && !s.points.contains(p) {
                assert(t.found[s.found.len() as int].point_id == p);
            }
            if exists|x: int| 0 <= x < t.found.len() && (#[trigger] t.found[x]).point_id == p {
                let x = choose|x: int|
                    0 <= x < t.found.len() && (#[trigger] t.found[x]).point_id == p;
                if x < s.found.len() {
                    assert(s.found[x].point_id == p);
                }
            }
        }
    } else {
        assert(t == s);
        assert forall|f: usize| #[trigger] s.features.contains(f) implies is_settled(
            s,
            r,
            num_features,
            pairs,
            image,
            k,
            m + 1,
            f,
        ) by {
            lemma_settled_later(s, s, r, num_features, pairs, image, k, m, f);
        }
    }
}

proof fn lemma_pose_pair(
    s: PoseSearch,
    r: ReconstructionView,
    num_features: nat,
    pairs: Seq<PairGeometry>,
    image: usize,
    k: int,
    m: nat,
    other: usize,
    image_is_left: bool,
)
    requires
        0 <= k < pairs.len(),
        m <= pairs[k].inlier_matches@.len(),
        pair_side(image, pairs[k]) == Some((other, image_is_left)),
        supports(r, other),
        has_searched(s, r, num_features, pairs, image, k, 0),
    ensures
        has_searched(
            search_matches(s, r, num_features, pairs[k], other, image_is_left, m),
            r,
            num_features,
            pairs,
            image,
            k,
            m as int,
        ),
    decreases m,
{
    if m > 0 {
        lemma_pose_pair(
            s,
            r,
            num_features,
            pairs,
            image,
            k,
            (m - 1) as nat,
            other,
            image_is_left,
        );
        lemma_pose_step(
            search_matches(
                s,
                r,
                num_features,
                pairs[k],
                other,
                image_is_left,
                (m - 1) as nat,
            ),
            r,
            num_features,
            pairs,
            image,
            k,
            m - 1,
            other,
            image_is_left,
        );
    }
}

/// The correspondences of an image: each feature that a match names together with
/// a feature of a registered image of a plausible camera counts once, with the
/// first such match. It gets the point that this match observes, unless there is
/// none or an earlier feature has it.
pub proof fn law_pose_correspondences(
    r: ReconstructionView,
    num_features: nat,
    pairs: Seq<PairGeometry>,
    image: usize,
    k: nat,
)
    requires
        k <= pairs.len(),
    ensures
        has_searched(
            search_pairs(r, num_features, pairs, image, k),
            r,
            num_features,
            pairs,
            image,
            k as int,
            0,
        ),
    decreases k,
{
    let t = search_pairs(r, num_features, pairs, image, k);
    if k == 0 {
        assert forall|f: usize| !#[trigger] is_named(r, num_features, pairs, image, 0, 0, f) by {}
    } else {
        let rest = search_pairs(r, num_features, pairs, image, (k - 1) as nat);
        law_pose_correspondences(r, num_features, pairs, image, (k - 1) as nat);
        let n = pairs[k - 1].inlier_matches@.len() as int;
        if pair_side(image, pairs[k - 1]) is Some && supports(
            r,
            (pair_side(image, pairs[k - 1])->0).0,
        ) {
            let side = pair_side(image, pairs[k - 1])->0;
            lemma_pose_pair(
                rest,
                r,
                num_features,
                pairs,
                image,
                k - 1,
                n as nat,
                side.0,
                side.1,
            );
        } else {
            assert forall|f: usize| #[trigger]
                is_named(r, num_features, pairs, image, k - 1, n, f) implies is_named(
                r,
                num_features,
                pairs,
                image,
                k - 1,
                0,
                f,
            ) by {
                let (j, i, o, g) = choose|j: int, i: int, other: usize, other_feature: usize|
                    (j < k - 1 || (j == k - 1 && i < n)) && #[trigger] suggests(
                        r,
                        num_features,
                        pairs,
                        image,
                        j,
                        i,
                        f,
                        other,
                        other_feature,
                    );
                assert(j < k - 1);
                assert(suggests(r, num_features, pairs, image, j, i, f, o, g));
            }
            lemma_named_later(r, num_features, pairs, image, k - 1, 0, k - 1, n);
            assert(has_searched(t, r, num_features, pairs, image, k - 1, n));
        }
        lemma_named_later(r, num_features, pairs, image, k - 1, n, k as int, 0);
        assert forall|f: usize| #[trigger]
            is_named(r, num_features, pairs, image, k as int, 0, f) implies is_named(
            r,
            num_features,
            pairs,
            image,
            k - 1,
            n,
            f,
        ) by {
            let (j, i, o, g) = choose|j: int, i: int, other: usize, other_feature: usize|
                (j < k || (j == k && i < 0)) && #[trigger] suggests(
                    r,
                    num_features,
                    pairs,
                    image,
                    j,
                    i,
                    f,
                    other,
                    other_feature,
                );
            assert(suggests(r, num_features, pairs, image, j, i, f, o, g));
        }
    }
}

/// Whether a registered image has settled the calibration of a camera.
pub open spec fn is_settled_camera(stats: StatsView, id: u32) -> bool {
    stats.images_per_camera.contains_key(id) && stats.images_per_camera[id] > 0
}

/// A focal length is estimated just if focal lengths are refined, the camera is
/// not held, its focal length is not known, and no registered image has settled
/// it, unless it became implausible.
pub proof fn law_focal_estimation(
    r: ReconstructionView,
    stats: StatsView,
    config: MapperConfig,
    flags: Seq<bool>,
    image: usize,
    camera: CameraModel,
)
    ensures
        ({
            let id = r.camera_id_of(image as int);
            estimates_focal(r, stats, config, flags, image, camera) <==> {
                &&& config.ba_refine_focal_length
                &&& !config.ba_constant_camera_ids@.contains(id)
                &&& !focal_known(r, flags, image)
                &&& is_settled_camera(stats, id) ==> camera.bogus
            }
        }),
{
}

/// A camera is refined with a pose just if something of it may vary, it is not
/// held, and no registered image has settled it, unless it became implausible.
pub proof fn law_camera_refinement(
    r: ReconstructionView,
    stats: StatsView,
    config: MapperConfig,
    image: usize,
    camera: CameraModel,
)
    ensures
        ({
            let id = r.camera_id_of(image as int);
            refines_camera(r, stats, config, image, camera) <==> {
                &&& config.ba_refine_focal_length || config.ba_refine_principal_point
                    || config.ba_refine_extra_params
                &&& !config.ba_constant_camera_ids@.contains(id)
                &&& is_settled_camera(stats, id) ==> camera.bogus
            }
        }),
{
}

/// A parameter is refined just if it exists and a refined role has it.
pub proof fn law_refined_parameters(
    params: Seq<usize>,
    roles: CameraParameterRoles,
    num_params: usize,
    config: MapperConfig,
    i: usize,
)
    requires
        lists(params, varying_parameters(roles, num_params, config)),
    ensures
        i >= num_params ==> !params.contains(i),
        i < num_params && config.ba_refine_focal_length && roles.focal@.contains(i)
            ==> params.contains(i),
        i < num_params && config.ba_refine_principal_point && roles.principal_point@.contains(i)
            ==> params.contains(i),
        i < num_params && config.ba_refine_extra_params && roles.extra@.contains(i)
            ==> params.contains(i),
        params.contains(i) && !config.ba_refine_focal_length && !config.ba_refine_principal_point
            ==> roles.extra@.contains(i) && config.ba_refine_extra_params,
        params.contains(i) && !config.ba_refine_focal_length && !config.ba_refine_extra_params
            ==> roles.principal_point@.contains(i) && config.ba_refine_principal_point,
        params.contains(i) && !config.ba_refine_principal_point && !config.ba_refine_extra_params
            ==> roles.focal@.contains(i) && config.ba_refine_focal_length,
        params.contains(i) ==> roles.focal@.contains(i) || roles.principal_point@.contains(i)
            || roles.extra@.contains(i),
        forall|x: int, y: int| 0 <= x < y < params.len() ==> params[x] < params[y],
{
}

/// A pose needs the configured number of correspondences, and never fewer than
/// four.
pub proof fn law_least_correspondences(config: MapperConfig)
    ensures
        least_correspondences(config) >= 4,
        least_correspondences(config) >= config.abs_pose_min_num_inliers,
        least_correspondences(config) == 4 || least_correspondences(config)
            == config.abs_pose_min_num_inliers,
{
}

/// An error counts just if it is finite, at most the threshold, and not masked
/// out.
pub proof fn law_counted_errors(
    errors: Seq<Real32>,
    mask: Option<Seq<bool>>,
    threshold: Real32,
    i: usize,
)
    requires
        errors.len() <= usize::MAX,
    ensures
        ({
            let inliers = indices_where(errors.len(), counted_error(errors, mask, threshold));
            &&& inliers.contains(i) <==> {
                &&& i < errors.len()
                &&& errors[i as int].finite()
                &&& errors[i as int].at_most(threshold)
                &&& mask is None || i >= (mask->0).len() || (mask->0)[i as int]
            }
            &&& forall|a: int, b: int| 0 <= a < b < inliers.len() ==> inliers[a] < inliers[b]
        }),
{
    let counts = counted_error(errors, mask, threshold);
    lemma_indices_where(errors.len(), counts);
    if i < errors.len() && counts(i as int) {
        assert(indices_where(errors.len(), counts).contains(i));
    }
}

/// A pose is good enough just if it has enough inliers and a mean error that is a
/// number and at most the threshold.
pub proof fn law_accepted_poses(eval: AbsolutePoseEval, config: MapperConfig)
    ensures
        eval.inliers < config.abs_pose_min_num_inliers ==> !accepts_pose(eval, config),
        config.pnp_threshold_px.below(eval.mean_error_px) ==> !accepts_pose(eval, config),
        eval.mean_error_px.nan() ==> !accepts_pose(eval, config),
        eval.inliers >= config.abs_pose_min_num_inliers && eval.mean_error_px.below(
            config.pnp_threshold_px,
        ) ==> accepts_pose(eval, config),
        eval.inliers >= config.abs_pose_min_num_inliers && eval.mean_error_px
            == config.pnp_threshold_px && !eval.mean_error_px.nan() ==> accepts_pose(eval, config),
{
}

/// The marked correspondences are those whose mark is set, in order.
pub proof fn law_marked_correspondences(
    list: Seq<PoseCorrespondence>,
    mask: Seq<bool>,
    c: PoseCorrespondence,
)
    requires
        list.len() <= usize::MAX,
    ensures
        ({
            let kept = at_positions(list, indices_where(list.len(), marked(mask)));
            kept.contains(c) <==> exists|i: int|
                0 <= i < list.len() && i < mask.len() && mask[i] && #[trigger] list[i] == c
        }),
{
    let positions = indices_where(list.len(), marked(mask));
    let kept = at_positions(list, positions);
    lemma_indices_where(list.len(), marked(mask));
    if kept.contains(c) {
        let x = choose|x: int| 0 <= x < kept.len() && kept[x] == c;
        assert(positions.contains(positions[x]));
        assert(list[positions[x] as int] == c);
    }
    if exists|i: int|
        0 <= i < list.len() && i < mask.len() && mask[i] && #[trigger] list[i] == c {
        let i = choose|i: int|
            0 <= i < list.len() && i < mask.len() && mask[i] && #[trigger] list[i] == c;
        assert(marked(mask)(i));
        assert(positions.contains(i as usize));
        let x = choose|x: int| 0 <= x < positions.len() && positions[x] == i as usize;
        assert(kept[x] == c);
    }
}

/// Whether a slot names the first of the first `k` observations of its feature, or
/// none if there is none.
pub open spec fn names_first(
    observations: Seq<AbsolutePoseObservation>,
    k: nat,
    feature: int,
    slot: Option<usize>,
) -> bool {
    match slot {
        Some(n) => n < k && observations[n as int].feature == feature && forall|m: int|
            0 <= m < n ==> (#[trigger] observations[m]).feature != feature,
        None => forall|n: int| 0 <= n < k ==> (#[trigger] observations[n]).feature != feature,
    }
}

/// Whether a point is made from the observation of its number, and the feature of
/// the observation says so.
pub open spec fn is_made_from(
    s: Scratch,
    image: usize,
    observations: Seq<AbsolutePoseObservation>,
    k: nat,
    x: int,
) -> bool {
    let n = s.ids[x] - 1;
    &&& 0 <= n < k
    &&& observations[n].feature < s.row.len()
    &&& s.row[observations[n].feature as int] == Some(n as usize)
    &&& s.points[x].xyz == observations[n].xyz
    &&& s.points[x].track.len() == 1
    &&& s.points[x].track[0].image == image
    &&& s.points[x].track[0].feature == observations[n].feature
}

/// Each feature that exists gets a point of its own, made from the first of the
/// observations that names it.
pub proof fn law_scratch_points(
    width: nat,
    image: usize,
    observations: Seq<AbsolutePoseObservation>,
    k: nat,
)
    requires
        k <= observations.len() < usize::MAX,
    ensures
        ({
            let s = scratch_upto(width, image, observations, k);
            &&& s.row.len() == width
            &&& s.points.len() == s.ids.len()
            &&& forall|f: int|
                0 <= f < width ==> names_first(observations, k, f, #[trigger] s.row[f])
            &&& forall|x: int|
                0 <= x < s.points.len() ==> #[trigger] is_made_from(s, image, observations, k, x)
        }),
    decreases k,
{
    let s = scratch_upto(width, image, observations, k);
    if k > 0 {
        law_scratch_points(width, image, observations, (k - 1) as nat);
        let rest = scratch_upto(width, image, observations, (k - 1) as nat);
        assert forall|f: int| 0 <= f < width implies names_first(
            observations,
            k,
            f,
            #[trigger] s.row[f],
        ) by {
            assert(names_first(observations, (k - 1) as nat, f, rest.row[f]));
        }
        assert forall|x: int| 0 <= x < s.points.len() implies #[trigger] is_made_from(
            s,
            image,
            observations,
            k,
            x,
        ) by {
            if x < rest.points.len() {
                assert(is_made_from(rest, image, observations, (k - 1) as nat, x));
            }
            if x < rest.points.len() {
                assert(s.points[x] == rest.points[x]);
                assert(s.ids[x] == rest.ids[x]);
            } else {
                assert(s.ids[x] == k as u64);
                assert(k as u64 == k);
            }
        }
    } else {
        assert forall|f: int| 0 <= f < width implies names_first(
            observations,
            k,
            f,
            #[trigger] s.row[f],
        ) by {}
    }
}

} // verus!
