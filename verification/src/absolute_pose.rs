//! The problem of placing an image against the points that its neighbors see.

use crate::ascending::{ascending, insert_ascending, lists};
use crate::camera_selection::{registration_camera, registration_camera_for_image};
use crate::config::MapperConfig;
use crate::indices::indices_where;
use crate::initial_pair::has_prior_focal;
use crate::registration_stats::{lookup, RegistrationStats, StatsView};
use crate::scalar::Real32;
use crate::types::{
    points_view, table_view, CameraModel, ImageFrame, Match, PairGeometry, Point3D, Point3DView,
    Pose, Reconstruction, ReconstructionView, TrackObservation,
};
use std::collections::HashSet;
use vstd::prelude::*;

verus! {

/// The other image of a pair, and whether the given one is its left image.
pub open spec fn pair_side(image: usize, pair: PairGeometry) -> Option<(usize, bool)> {
    if pair.left == image {
        Some((pair.right, true))
    } else if pair.right == image {
        Some((pair.left, false))
    } else {
        None
    }
}

pub fn structureless_pair_side(image: usize, pair: &PairGeometry) -> (side: Option<(usize, bool)>)
    ensures
        side == pair_side(image, *pair),
{
    if pair.left == image {
        Some((pair.right, true))
    } else if pair.right == image {
        Some((pair.left, false))
    } else {
        None
    }
}

/// The features of a match, that of the left or right image first.
pub open spec fn match_features(m: Match, image_is_left: bool) -> (usize, usize) {
    if image_is_left {
        (m.query_idx as usize, m.train_idx as usize)
    } else {
        (m.train_idx as usize, m.query_idx as usize)
    }
}

pub fn features_of_match(m: &Match, image_is_left: bool) -> (features: (usize, usize))
    ensures
        features == match_features(*m, image_is_left),
{
    if image_is_left {
        (m.query_idx as usize, m.train_idx as usize)
    } else {
        (m.train_idx as usize, m.query_idx as usize)
    }
}

/// Whether another image can support a registration: it is registered with a
/// plausible camera.
pub open spec fn supports(r: ReconstructionView, other: usize) -> bool {
    r.registered(other as int) && !r.camera_of(other as int).bogus
}

/// A feature and the point it presumably observes.
#[derive(Debug, Clone, Copy, PartialEq, Eq, Structural)]
pub struct PoseCorrespondence {
    pub feature: usize,
    pub point_id: usize,
}

/// Features looked at, points taken and correspondences found.
#[verifier::ext_equal]
pub struct PoseSearch {
    pub features: Set<usize>,
    pub points: Set<usize>,
    pub found: Seq<PoseCorrespondence>,
}

/// Looks at one match. A feature counts only with the first match that names
/// it, and a point only with the first feature.
pub open spec fn search_match(
    s: PoseSearch,
    r: ReconstructionView,
    num_features: nat,
    other: usize,
    feature: usize,
    other_feature: usize,
) -> PoseSearch {
    if feature >= num_features || other >= r.observations.len() || other_feature
        >= r.observations[other as int].len() || s.features.contains(feature) {
        s
    } else {
        let seen = PoseSearch { features: s.features.insert(feature), ..s };
        match r.observations[other as int][other_feature as int] {
            Some(point_id) => if s.points.contains(point_id) {
                seen
            } else {
                PoseSearch {
                    points: seen.points.insert(point_id),
                    found: seen.found.push(PoseCorrespondence { feature, point_id }),
                    ..seen
                }
            },
            None => seen,
        }
    }
}

/// Looks at the first `k` inlier matches of a pair.
pub open spec fn search_matches(
    s: PoseSearch,
    r: ReconstructionView,
    num_features: nat,
    pair: PairGeometry,
    other: usize,
    image_is_left: bool,
    k: nat,
) -> PoseSearch
    decreases k,
{
    if k == 0 {
        s
    } else {
        let (feature, other_feature) = match_features(pair.inlier_matches@[k - 1], image_is_left);
        search_match(
            search_matches(s, r, num_features, pair, other, image_is_left, (k - 1) as nat),
            r,
            num_features,
            other,
            feature,
            other_feature,
        )
    }
}

/// Looks at the first `k` pairs.
pub open spec fn search_pairs(
    r: ReconstructionView,
    num_features: nat,
    pairs: Seq<PairGeometry>,
    image: usize,
    k: nat,
) -> PoseSearch
    decreases k,
{
    if k == 0 {
        PoseSearch { features: Set::empty(), points: Set::empty(), found: Seq::empty() }
    } else {
        let rest = search_pairs(r, num_features, pairs, image, (k - 1) as nat);
        let pair = pairs[k - 1];
        match pair_side(image, pair) {
            Some((other, image_is_left)) => if supports(r, other) {
                search_matches(
                    rest,
                    r,
                    num_features,
                    pair,
                    other,
                    image_is_left,
                    pair.inlier_matches@.len(),
                )
            } else {
                rest
            },
            None => rest,
        }
    }
}

/// The correspondences of an image with observed points.
pub fn collect_pose_correspondences(
    image: usize,
    frames: &[ImageFrame],
    pairs: &[PairGeometry],
    reconstruction: &Reconstruction,
) -> (found: Vec<PoseCorrespondence>)
    requires
        image < frames@.len(),
    ensures
        found@ == search_pairs(
            reconstruction@,
            frames@[image as int].keypoints@.len(),
            pairs@,
            image,
            pairs@.len(),
        ).found,
{
    broadcast use vstd::std_specs::hash::group_hash_axioms;

    let ghost r = reconstruction@;
    let num_features: usize = frames[image].keypoints.len();
    let mut used_features: HashSet<usize> = HashSet::new();
    let mut used_points: HashSet<usize> = HashSet::new();
    let mut found: Vec<PoseCorrespondence> = Vec::new();
    for p in 0..pairs.len()
        invariant
            r == reconstruction@,
            (PoseSearch {
                features: used_features@,
                points: used_points@,
                found: found@,
            }) == search_pairs(r, num_features as nat, pairs@, image, p as nat),
    {
        let pair = &pairs[p];
        let ghost start = search_pairs(r, num_features as nat, pairs@, image, p as nat);
        if let Some((other, image_is_left)) = structureless_pair_side(image, pair) {
            if reconstruction.is_registered(other) && !reconstruction.camera_for_image(
                other,
            ).bogus {
                for k in 0..pair.inlier_matches.len()
                    invariant
                        r == reconstruction@,
                        (PoseSearch {
                            features: used_features@,
                            points: used_points@,
                            found: found@,
                        }) == search_matches(
                            start,
                            r,
                            num_features as nat,
                            *pair,
                            other,
                            image_is_left,
                            k as nat,
                        ),
                {
                    let (feature, other_feature): (usize, usize) = features_of_match(
                        &pair.inlier_matches[k],
                        image_is_left,
                    );
                    if feature < num_features && other < reconstruction.observations.len()
                        && other_feature < reconstruction.observations[other].len() {
                        if used_features.insert(feature) {
                            if let Some(point_id) = reconstruction.observations[other][other_feature] {
                                if used_points.insert(point_id) {
                                    found.push(PoseCorrespondence { feature, point_id });
                                }
                            }
                        }
                    }
                    proof {
                        let before = search_matches(
                            start,
                            r,
                            num_features as nat,
                            *pair,
                            other,
                            image_is_left,
                            k as nat,
                        );
                        let after = search_matches(
                            start,
                            r,
                            num_features as nat,
                            *pair,
                            other,
                            image_is_left,
                            (k + 1) as nat,
                        );
                        assert(used_features@ =~= after.features);
                        assert(used_points@ =~= after.points);
                    }
                }
            }
        }
    }
    found
}

/// No feature and no point occurs in two correspondences.
pub proof fn law_correspondences_one_to_one(
    r: ReconstructionView,
    num_features: nat,
    pairs: Seq<PairGeometry>,
    image: usize,
    i: int,
    j: int,
)
    requires
        0 <= i < j < search_pairs(r, num_features, pairs, image, pairs.len()).found.len(),
    ensures
        ({
            let found = search_pairs(r, num_features, pairs, image, pairs.len()).found;
            &&& found[i].feature != found[j].feature
            &&& found[i].point_id != found[j].point_id
            &&& found[i].feature < num_features
        }),
{
    lemma_search_pairs(r, num_features, pairs, image, pairs.len());
}

spec fn one_to_one(s: PoseSearch, num_features: nat) -> bool {
    &&& forall|i: int|
        0 <= i < s.found.len() ==> s.features.contains((#[trigger] s.found[i]).feature)
            && s.points.contains(s.found[i].point_id) && s.found[i].feature < num_features
    &&& forall|i: int, j: int|
        0 <= i < j < s.found.len() ==> (#[trigger] s.found[i]).feature != (
        #[trigger] s.found[j]).feature && s.found[i].point_id != s.found[j].point_id
}

proof fn lemma_search_pairs(
    r: ReconstructionView,
    num_features: nat,
    pairs: Seq<PairGeometry>,
    image: usize,
    k: nat,
)
    ensures
        one_to_one(search_pairs(r, num_features, pairs, image, k), num_features),
    decreases k,
{
    if k > 0 {
        lemma_search_pairs(r, num_features, pairs, image, (k - 1) as nat);
        let rest = search_pairs(r, num_features, pairs, image, (k - 1) as nat);
        let pair = pairs[k - 1];
        if let Some((other, image_is_left)) = pair_side(image, pair) {
            lemma_search_matches(
                rest,
                r,
                num_features,
                pair,
                other,
                image_is_left,
                pair.inlier_matches@.len(),
            );
        }
    }
}

proof fn lemma_search_matches(
    s: PoseSearch,
    r: ReconstructionView,
    num_features: nat,
    pair: PairGeometry,
    other: usize,
    image_is_left: bool,
    k: nat,
)
    requires
        one_to_one(s, num_features),
    ensures
        one_to_one(
            search_matches(s, r, num_features, pair, other, image_is_left, k),
            num_features,
        ),
    decreases k,
{
    if k > 0 {
        lemma_search_matches(s, r, num_features, pair, other, image_is_left, (k - 1) as nat);
    }
}

/// Whether a focal length is to be estimated along with the pose: it may vary,
/// is not known in advance, and no registered image has settled it.
pub open spec fn estimates_focal(
    r: ReconstructionView,
    stats: StatsView,
    config: MapperConfig,
    flags: Seq<bool>,
    image: usize,
    camera: CameraModel,
) -> bool {
    let id = r.camera_id_of(image as int);
    &&& config.ba_refine_focal_length
    &&& !config.ba_constant_camera_ids@.contains(id)
    &&& !has_prior_focal(r, image, flags)
    &&& lookup(stats.images_per_camera, id) == 0 || camera.bogus
}

/// Whether a list of identifiers holds one.
pub fn holds_id(ids: &Vec<u32>, id: u32) -> (b: bool)
    ensures
        b == ids@.contains(id),
{
    for k in 0..ids.len()
        invariant
            forall|j: int| 0 <= j < k ==> ids@[j] != id,
    {
        if ids[k] == id {
            assert(ids@[k as int] == id);
            return true;
        }
    }
    false
}

pub fn absolute_pose_estimate_focal_length_enabled(
    image: usize,
    camera: CameraModel,
    reconstruction: &Reconstruction,
    config: &MapperConfig,
    camera_has_prior_focal_length: &[bool],
    registration_stats: &RegistrationStats,
) -> (b: bool)
    ensures
        b == estimates_focal(
            reconstruction@,
            registration_stats@,
            *config,
            camera_has_prior_focal_length@,
            image,
            camera,
        ),
{
    if !config.ba_refine_focal_length {
        return false;
    }
    let camera_id: u32 = reconstruction.camera_id_for_image(image);
    if holds_id(&config.ba_constant_camera_ids, camera_id) {
        return false;
    }
    if crate::initial_pair::image_has_prior_focal_length(
        reconstruction,
        image,
        camera_has_prior_focal_length,
    ) {
        return false;
    }
    registration_stats.registered_images_with_camera_id(camera_id) == 0 || camera.bogus
}

/// Whether camera parameters are refined along with the pose: some may vary,
/// and no registered image has settled the camera.
pub open spec fn refines_camera(
    r: ReconstructionView,
    stats: StatsView,
    config: MapperConfig,
    image: usize,
    camera: CameraModel,
) -> bool {
    let id = r.camera_id_of(image as int);
    &&& !config.ba_constant_camera_ids@.contains(id)
    &&& lookup(stats.images_per_camera, id) == 0 || camera.bogus
    &&& config.ba_refine_focal_length || config.ba_refine_principal_point
        || config.ba_refine_extra_params
}

pub fn absolute_pose_refine_camera_params_enabled(
    image: usize,
    camera: CameraModel,
    reconstruction: &Reconstruction,
    config: &MapperConfig,
    registration_stats: &RegistrationStats,
) -> (b: bool)
    ensures
        b == refines_camera(reconstruction@, registration_stats@, *config, image, camera),
{
    let camera_id: u32 = reconstruction.camera_id_for_image(image);
    if holds_id(&config.ba_constant_camera_ids, camera_id) {
        return false;
    }
    if registration_stats.registered_images_with_camera_id(camera_id) > 0 && !camera.bogus {
        return false;
    }
    config.ba_refine_focal_length || config.ba_refine_principal_point
        || config.ba_refine_extra_params
}

/// The parameters of a camera model by role.
#[derive(Debug)]
pub struct CameraParameterRoles {
    pub focal: Vec<usize>,
    pub principal_point: Vec<usize>,
    pub extra: Vec<usize>,
}

/// The parameters that may vary.
pub open spec fn varying_parameters(
    roles: CameraParameterRoles,
    num_params: usize,
    config: MapperConfig,
) -> Set<usize> {
    Set::new(
        |i: usize|
            i < num_params && {
                ||| config.ba_refine_focal_length && roles.focal@.contains(i)
                ||| config.ba_refine_principal_point && roles.principal_point@.contains(i)
                ||| config.ba_refine_extra_params && roles.extra@.contains(i)
            },
    )
}

fn add_parameters(params: &mut Vec<usize>, role: &Vec<usize>, num_params: usize)
    requires
        ascending(old(params)@),
    ensures
        ascending(final(params)@),
        forall|i: usize| #[trigger]
            final(params)@.contains(i) <==> old(params)@.contains(i) || (i < num_params
                && role@.contains(i)),
{
    for k in 0..role.len()
        invariant
            ascending(params@),
            forall|i: usize| #[trigger]
                params@.contains(i) <==> old(params)@.contains(i) || (i < num_params && role@.take(
                    k as int,
                ).contains(i)),
    {
        proof {
            crate::registration_units::lemma_take_contains(role@, k as int);
        }
        if role[k] < num_params {
            insert_ascending(params, role[k]);
        }
    }
    assert(role@.take(role@.len() as int) =~= role@);
}

/// The parameters of a camera that are refined with a pose, in ascending order.
pub fn absolute_pose_camera_params(
    camera: CameraModel,
    roles: &CameraParameterRoles,
    config: &MapperConfig,
) -> (params: Vec<usize>)
    ensures
        lists(params@, varying_parameters(*roles, camera.num_params, *config)),
{
    let mut params: Vec<usize> = Vec::new();
    if config.ba_refine_focal_length {
        add_parameters(&mut params, &roles.focal, camera.num_params);
    }
    if config.ba_refine_principal_point {
        add_parameters(&mut params, &roles.principal_point, camera.num_params);
    }
    if config.ba_refine_extra_params {
        add_parameters(&mut params, &roles.extra, camera.num_params);
    }
    params
}

/// The seed of a pose search: the configured one or, if that is negative, the
/// next of a running count.
pub fn absolute_pose_ransac_seed(config: &MapperConfig, count: &mut u64) -> (seed: u64)
    ensures
        config.random_seed >= 0 ==> seed == config.random_seed && *final(count) == *old(count),
        config.random_seed < 0 ==> seed == *old(count) && *final(count) == (if *old(count)
            < u64::MAX {
            *old(count) + 1
        } else {
            0
        }),
{
    if config.random_seed >= 0 {
        config.random_seed as u64
    } else {
        let seed: u64 = *count;
        *count = count.wrapping_add(1);
        seed
    }
}

/// What a pose solver is asked.
#[derive(Debug)]
pub struct AbsolutePoseRequest {
    pub camera: CameraModel,
    pub correspondences: Vec<PoseCorrespondence>,
    pub estimate_focal: bool,
}

/// The least number of correspondences that a pose is solved from.
pub open spec fn least_correspondences(config: MapperConfig) -> usize {
    if config.abs_pose_min_num_inliers >= 4 {
        config.abs_pose_min_num_inliers
    } else {
        4
    }
}

/// Sets up the problem of placing an image. There is none if its camera is
/// implausible or it has too few correspondences.
pub fn prepare_absolute_pose(
    image: usize,
    frames: &[ImageFrame],
    pairs: &[PairGeometry],
    reconstruction: &Reconstruction,
    config: &MapperConfig,
    camera_priors: &[CameraModel],
    camera_has_prior_focal_length: &[bool],
    registration_stats: &RegistrationStats,
) -> (request: Option<AbsolutePoseRequest>)
    requires
        image < frames@.len(),
    ensures
        ({
            let camera = registration_camera(
                reconstruction@,
                registration_stats@,
                camera_priors@,
                image,
            );
            let found = search_pairs(
                reconstruction@,
                frames@[image as int].keypoints@.len(),
                pairs@,
                image,
                pairs@.len(),
            ).found;
            &&& request is Some <==> !camera.bogus && found.len() >= least_correspondences(*config)
            &&& request matches Some(q) ==> {
                &&& q.camera == camera
                &&& q.correspondences@ == found
                &&& q.estimate_focal == estimates_focal(
                    reconstruction@,
                    registration_stats@,
                    *config,
                    camera_has_prior_focal_length@,
                    image,
                    camera,
                )
            }
        }),
{
    let camera = registration_camera_for_image(
        image,
        reconstruction,
        camera_priors,
        registration_stats,
    );
    if camera.bogus {
        return None;
    }
    let correspondences: Vec<PoseCorrespondence> = collect_pose_correspondences(
        image,
        frames,
        pairs,
        reconstruction,
    );
    let least: usize = if config.abs_pose_min_num_inliers >= 4 {
        config.abs_pose_min_num_inliers
    } else {
        4
    };
    if correspondences.len() < least {
        return None;
    }
    let estimate_focal: bool = absolute_pose_estimate_focal_length_enabled(
        image,
        camera,
        reconstruction,
        config,
        camera_has_prior_focal_length,
        registration_stats,
    );
    Some(AbsolutePoseRequest { camera, correspondences, estimate_focal })
}

/// How well a pose explains its correspondences.
#[derive(Debug, Clone, Copy, PartialEq, Eq, Structural)]
pub struct AbsolutePoseEval {
    pub inliers: usize,
    pub mean_error_px: Real32,
}

/// Selects the errors within a threshold, among those that are not masked out.
/// Errors without a mask entry count.
pub open spec fn counted_error(
    errors: Seq<Real32>,
    mask: Option<Seq<bool>>,
    threshold: Real32,
) -> spec_fn(int) -> bool {
    |i: int|
        (match mask {
            Some(mask) => i < mask.len() ==> mask[i],
            None => true,
        }) && errors[i].finite() && errors[i].at_most(threshold)
}

/// The errors that count for the evaluation of a pose.
pub fn absolute_pose_inlier_indices(
    errors: &[Real32],
    inlier_mask: Option<&[bool]>,
    threshold: Real32,
) -> (inliers: Vec<usize>)
    ensures
        inliers@ == indices_where(
            errors@.len(),
            counted_error(
                errors@,
                match inlier_mask {
                    Some(mask) => Some(mask@),
                    None => None,
                },
                threshold,
            ),
        ),
{
    let ghost mask_view = match inlier_mask {
        Some(mask) => Some(mask@),
        None => None,
    };
    let mut inliers: Vec<usize> = Vec::new();
    for i in 0..errors.len()
        invariant
            mask_view == (match inlier_mask {
                Some(mask) => Some(mask@),
                None => None,
            }),
            inliers@ == indices_where(i as nat, counted_error(errors@, mask_view, threshold)),
    {
        let masked_out: bool = match inlier_mask {
            Some(mask) => i < mask.len() && !mask[i],
            None => false,
        };
        if !masked_out && errors[i].is_finite() && errors[i].le(&threshold) {
            inliers.push(i);
        }
    }
    inliers
}

/// Whether a pose is good enough.
pub open spec fn accepts_pose(eval: AbsolutePoseEval, config: MapperConfig) -> bool {
    eval.inliers >= config.abs_pose_min_num_inliers && eval.mean_error_px.at_most(
        config.pnp_threshold_px,
    )
}

pub fn accept_absolute_pose_eval(eval: AbsolutePoseEval, config: &MapperConfig) -> (b: bool)
    ensures
        b == accepts_pose(eval, *config),
{
    eval.inliers >= config.abs_pose_min_num_inliers && eval.mean_error_px.le(
        &config.pnp_threshold_px,
    )
}

/// Selects the positions that a mask marks; positions without an entry are not.
pub open spec fn marked(mask: Seq<bool>) -> spec_fn(int) -> bool {
    |i: int| i < mask.len() && mask[i]
}

/// The correspondences at given positions.
pub open spec fn at_positions(
    list: Seq<PoseCorrespondence>,
    positions: Seq<usize>,
) -> Seq<PoseCorrespondence> {
    Seq::new(positions.len(), |i: int| list[positions[i] as int])
}

/// The marked correspondences, in order.
pub fn inlier_absolute_pose_observations(
    correspondences: &Vec<PoseCorrespondence>,
    inlier_mask: &[bool],
) -> (inliers: Vec<PoseCorrespondence>)
    ensures
        inliers@ == at_positions(
            correspondences@,
            indices_where(correspondences@.len(), marked(inlier_mask@)),
        ),
{
    let mut inliers: Vec<PoseCorrespondence> = Vec::new();
    for i in 0..correspondences.len()
        invariant
            inliers@ == at_positions(
                correspondences@,
                indices_where(i as nat, marked(inlier_mask@)),
            ),
    {
        if i < inlier_mask.len() && inlier_mask[i] {
            inliers.push(correspondences[i]);
        }
        proof {
            assert(inliers@ =~= at_positions(
                correspondences@,
                indices_where((i + 1) as nat, marked(inlier_mask@)),
            ));
        }
    }
    inliers
}

/// The correspondences to refine a first pose with. The pose is given up if it
/// is not good enough or too few correspondences support it.
pub fn accept_initial_absolute_pose(
    eval: Option<AbsolutePoseEval>,
    correspondences: &Vec<PoseCorrespondence>,
    inlier_mask: &[bool],
    config: &MapperConfig,
) -> (inliers: Option<Vec<PoseCorrespondence>>)
    ensures
        ({
            let marked_ones = at_positions(
                correspondences@,
                indices_where(correspondences@.len(), marked(inlier_mask@)),
            );
            &&& inliers is Some <==> eval is Some && accepts_pose(eval->0, *config)
                && marked_ones.len() >= config.abs_pose_min_num_inliers
            &&& inliers matches Some(list) ==> list@ == marked_ones
        }),
{
    match eval {
        Some(eval) => {
            if !accept_absolute_pose_eval(eval, config) {
                return None;
            }
            let inliers: Vec<PoseCorrespondence> = inlier_absolute_pose_observations(
                correspondences,
                inlier_mask,
            );
            if inliers.len() < config.abs_pose_min_num_inliers {
                None
            } else {
                Some(inliers)
            }
        },
        None => None,
    }
}

/// A feature with the position of the point it observes.
#[derive(Debug, Clone, Copy)]
pub struct AbsolutePoseObservation {
    pub feature: usize,
    pub xyz: [Real32; 3],
}

/// The observed features of an image with the points made for them.
#[verifier::ext_equal]
pub struct Scratch {
    pub row: Seq<Option<usize>>,
    pub ids: Seq<u64>,
    pub points: Seq<Point3DView>,
}

/// A point for each of the first `k` observations whose feature exists and is
/// free. Points are numbered by observation.
pub open spec fn scratch_upto(
    width: nat,
    image: usize,
    observations: Seq<AbsolutePoseObservation>,
    k: nat,
) -> Scratch
    decreases k,
{
    if k == 0 {
        Scratch {
            row: Seq::new(width, |f: int| None::<usize>),
            ids: Seq::empty(),
            points: Seq::empty(),
        }
    } else {
        let rest = scratch_upto(width, image, observations, (k - 1) as nat);
        let obs = observations[k - 1];
        if obs.feature >= width || rest.row[obs.feature as int] is Some {
            rest
        } else {
            Scratch {
                row: rest.row.update(obs.feature as int, Some((k - 1) as usize)),
                ids: rest.ids.push(k as u64),
                points: rest.points.push(
                    Point3DView {
                        xyz: obs.xyz,
                        color: [0u8, 0u8, 0u8],
                        error: Real32 { bits: 0 },
                        track: seq![TrackObservation { image, feature: obs.feature }],
                    },
                ),
            }
        }
    }
}

/// A table with a free slot for each keypoint.
pub open spec fn free_table(keypoints: Seq<Vec<crate::types::Keypoint>>) -> Seq<
    Seq<Option<usize>>,
> {
    Seq::new(keypoints.len(), |i: int| Seq::new(keypoints[i]@.len(), |f: int| None::<usize>))
}

/// Frees every observation and drops every point.
pub fn clear_structure(reconstruction: &mut Reconstruction)
    ensures
        final(reconstruction)@ == (ReconstructionView {
            observations: free_table(old(reconstruction)@.keypoints),
            point_ids: Seq::empty(),
            points: Seq::empty(),
            ..old(reconstruction)@
        }),
{
    reconstruction.points = Vec::new();
    reconstruction.point_ids = Vec::new();
    let mut table: Vec<Vec<Option<usize>>> = Vec::new();
    for i in 0..reconstruction.keypoints.len()
        invariant
            table_view(table@) == free_table(reconstruction@.keypoints).take(i as int),
    {
        let width: usize = reconstruction.keypoints[i].len();
        let mut row: Vec<Option<usize>> = Vec::new();
        for f in 0..width
            invariant
                row@ == Seq::new(f as nat, |g: int| None::<usize>),
        {
            row.push(None);
            assert(row@ =~= Seq::new((f + 1) as nat, |g: int| None::<usize>));
        }
        let ghost before = table@;
        table.push(row);
        proof {
            assert(before.len() == table_view(before).len());
            assert(table_view(table@) =~= table_view(before).push(row@));
            assert(table_view(table@) =~= free_table(reconstruction@.keypoints).take(i + 1));
        }
    }
    proof {
        assert(table_view(table@) =~= free_table(reconstruction@.keypoints));
    }
    reconstruction.observations = table;
    assert(reconstruction@.points =~= Seq::<Point3DView>::empty());
}

/// Turns a copy of a reconstruction into one that holds only the observations
/// of an image at a pose.
pub fn absolute_pose_scratch_reconstruction(
    scratch: &mut Reconstruction,
    image: usize,
    pose: Pose,
    observations: &Vec<AbsolutePoseObservation>,
)
    requires
        image < old(scratch)@.keypoints.len(),
        observations@.len() < u64::MAX,
    ensures
        ({
            let r = old(scratch)@;
            let made = scratch_upto(
                r.keypoints[image as int]@.len(),
                image,
                observations@,
                observations@.len(),
            );
            final(scratch)@ == (ReconstructionView {
                poses: if image < r.poses.len() {
                    r.poses.update(image as int, Some(pose))
                } else {
                    r.poses
                },
                observations: free_table(r.keypoints).update(image as int, made.row),
                point_ids: made.ids,
                points: made.points,
                ..r
            })
        }),
{
    let ghost r = scratch@;
    let ghost width = r.keypoints[image as int]@.len();
    if image < scratch.poses.len() {
        scratch.poses[image] = Some(pose);
    }
    clear_structure(scratch);
    let ghost base = scratch@;
    proof {
        assert(table_view(scratch.observations@) == free_table(r.keypoints));
        assert(base.observations.update(image as int, scratch_upto(
            width,
            image,
            observations@,
            0,
        ).row) =~= base.observations);
    }
    for k in 0..observations.len()
        invariant
            base.observations == free_table(r.keypoints),
            image < base.observations.len(),
            width == r.keypoints[image as int]@.len(),
            observations@.len() < u64::MAX,
            ({
                let made = scratch_upto(width, image, observations@, k as nat);
                scratch@ == (ReconstructionView {
                    observations: base.observations.update(image as int, made.row),
                    point_ids: made.ids,
                    points: made.points,
                    ..base
                }) && made.row.len() == width
            }),
    {
        let ghost made = scratch_upto(width, image, observations@, k as nat);
        let ghost rows = scratch.observations@;
        let ghost points = scratch.points@;
        let feature: usize = observations[k].feature;
        proof {
            assert(table_view(rows) == base.observations.update(image as int, made.row));
            assert(table_view(rows).len() == rows.len());
            assert(table_view(rows)[image as int] == rows[image as int]@);
        }
        if feature < scratch.observations[image].len()
            && scratch.observations[image][feature].is_none() {
            scratch.observations[image][feature] = Some(k);
            scratch.point_ids.push(k as u64 + 1);
            let mut track: Vec<TrackObservation> = Vec::new();
            track.push(TrackObservation { image, feature });
            assert(track@ =~= seq![TrackObservation { image, feature }]);
            let point = Point3D {
                xyz: observations[k].xyz,
                color: [0u8, 0u8, 0u8],
                error: Real32 { bits: 0 },
                track,
            };
            scratch.points.push(point);
            proof {
                let next = scratch_upto(width, image, observations@, (k + 1) as nat);
                assert(points_view(scratch.points@) =~= points_view(points).push(point@));
                assert(point@.color == [0u8, 0u8, 0u8]);
                assert(scratch@.points =~= next.points);
                let goal = base.observations.update(image as int, next.row);
                assert(rows[image as int]@ == made.row);
                assert forall|i: int| 0 <= i < goal.len() implies #[trigger] scratch@.observations[i]
                    =~= goal[i] by {
                    if i != image {
                        assert(table_view(rows)[i] == rows[i]@);
                        assert(scratch.observations@[i] == rows[i]);
                    }
                }
                assert(scratch@.observations =~= goal);
                assert(scratch@ =~= (ReconstructionView {
                    observations: base.observations.update(image as int, next.row),
                    point_ids: next.ids,
                    points: next.points,
                    ..base
                }));
            }
        }
    }
}

} // verus!
