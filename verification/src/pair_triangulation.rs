//! New points and observations from the matches of verified pairs.

use crate::absolute_pose::{features_of_match, match_features, pair_side, structureless_pair_side};
use crate::ascending::{ascending, holds, insert_ascending};
use crate::config::MapperConfig;
use crate::indices::indices_where;
use crate::links::links_fit;
use crate::observation_manager::{
    can_add_observation, can_add_point, observation_added, Edited, ObservationManager,
};
use crate::point_ids::ids_fit;
use crate::scalar::Real32;
use crate::track_edits::with_point;
use crate::types::{
    ImageFrame, PairGeometry, Point3D, Point3DView, Reconstruction, ReconstructionView,
    TrackObservation,
};
use vstd::prelude::*;

verus! {

/// The two observations of a match.
pub open spec fn match_track(pair: PairGeometry, k: int) -> Seq<TrackObservation> {
    seq![
        TrackObservation {
            image: pair.left,
            feature: pair.inlier_matches@[k].query_idx as usize,
        },
        TrackObservation {
            image: pair.right,
            feature: pair.inlier_matches@[k].train_idx as usize,
        },
    ]
}

/// Selects the matches of existing features that observe no point.
pub open spec fn open_matches(
    frames: Seq<ImageFrame>,
    r: ReconstructionView,
    pair: PairGeometry,
) -> spec_fn(int) -> bool {
    |k: int|
        {
            let m = pair.inlier_matches@[k];
            &&& m.query_idx < frames[pair.left as int].keypoints@.len()
            &&& m.train_idx < frames[pair.right as int].keypoints@.len()
            &&& r.observed(pair.left as int, m.query_idx as int) is None
            &&& r.observed(pair.right as int, m.train_idx as int) is None
        }
}

/// The matches that may become points: none unless both images are registered.
pub fn triangulation_candidates(
    pair: &PairGeometry,
    frames: &[ImageFrame],
    reconstruction: &Reconstruction,
) -> (candidates: Vec<usize>)
    requires
        pair.left < frames@.len(),
        pair.right < frames@.len(),
    ensures
        candidates@ == (if reconstruction@.registered(pair.left as int)
            && reconstruction@.registered(pair.right as int) {
            indices_where(
                pair.inlier_matches@.len(),
                open_matches(frames@, reconstruction@, *pair),
            )
        } else {
            Seq::empty()
        }),
{
    let mut candidates: Vec<usize> = Vec::new();
    if !reconstruction.is_registered(pair.left) || !reconstruction.is_registered(pair.right) {
        return candidates;
    }
    for k in 0..pair.inlier_matches.len()
        invariant
            pair.left < frames@.len(),
            pair.right < frames@.len(),
            candidates@ == indices_where(
                k as nat,
                open_matches(frames@, reconstruction@, *pair),
            ),
    {
        let m = &pair.inlier_matches[k];
        let left: usize = m.query_idx as usize;
        let right: usize = m.train_idx as usize;
        if left < frames[pair.left].keypoints.len() && right < frames[pair.right].keypoints.len()
            && reconstruction.observed_point(pair.left, left).is_none()
            && reconstruction.observed_point(pair.right, right).is_none() {
            candidates.push(k);
        }
    }
    candidates
}

/// The point that a match becomes.
pub open spec fn match_point(
    frames: Seq<ImageFrame>,
    pair: PairGeometry,
    k: int,
    xyz: [Real32; 3],
    error: Real32,
) -> Point3DView {
    Point3DView {
        xyz,
        color: frames[pair.left as int].colors@[pair.inlier_matches@[k].query_idx as int],
        error,
        track: match_track(pair, k),
    }
}

/// Makes a point of a match, unless its error is too large or its features have
/// points by now.
pub fn triangulate_match(
    frames: &[ImageFrame],
    pairs: &[PairGeometry],
    reconstruction: &mut Reconstruction,
    observation_manager: &mut ObservationManager,
    config: &MapperConfig,
    pair: &PairGeometry,
    k: usize,
    xyz: [Real32; 3],
    error: Real32,
) -> (added: bool)
    requires
        links_fit(pairs@),
        ids_fit(old(reconstruction)@.point_ids, old(reconstruction)@.points.len()),
        k < pair.inlier_matches@.len(),
        pair.left < frames@.len(),
        pair.inlier_matches@[k as int].query_idx < frames@[pair.left as int].colors@.len(),
    ensures
        added <==> error.finite() && !config.max_reprojection_error_px.below(error)
            && can_add_point(old(reconstruction)@, match_track(*pair, k as int)),
        added ==> {
            &&& final(reconstruction)@ == with_point(
                old(reconstruction)@,
                match_point(frames@, *pair, k as int, xyz, error),
            )
            &&& final(observation_manager).modified() == old(
                observation_manager,
            ).modified().insert(old(reconstruction)@.points.len() as usize)
            &&& final(observation_manager).reflects(frames@, pairs@, final(reconstruction)@)
        },
        !added ==> *final(reconstruction) == *old(reconstruction) && *final(observation_manager)
            == *old(observation_manager),
{
    if !error.is_finite() || config.max_reprojection_error_px.lt(&error) {
        return false;
    }
    let m = &pair.inlier_matches[k];
    let left: usize = m.query_idx as usize;
    let mut track: Vec<TrackObservation> = Vec::new();
    track.push(TrackObservation { image: pair.left, feature: left });
    track.push(TrackObservation { image: pair.right, feature: m.train_idx as usize });
    assert(track@ =~= match_track(*pair, k as int));
    let point = Point3D { xyz, color: frames[pair.left].colors[left], error, track };
    assert(point@ =~= match_point(frames@, *pair, k as int, xyz, error));
    observation_manager.add_point3d(frames, pairs, reconstruction, point).is_some()
}

/// A feature of a new image and the point that a matched feature observes.
#[derive(Debug, Clone, Copy, PartialEq, Eq, Structural)]
pub struct ExistingObservation {
    pub feature: usize,
    pub point_id: usize,
}

/// Features looked at and observations found.
#[verifier::ext_equal]
pub struct ExistingSearch {
    pub features: Set<usize>,
    pub found: Seq<ExistingObservation>,
}

/// Looks at one match: each free feature counts with the first match that names
/// it.
pub open spec fn existing_match(
    s: ExistingSearch,
    r: ReconstructionView,
    num_features: nat,
    image: usize,
    other: usize,
    feature: usize,
    other_feature: usize,
) -> ExistingSearch {
    if feature >= num_features || other >= r.observations.len() || other_feature
        >= r.observations[other as int].len() || r.observed(image as int, feature as int) is Some
        || s.features.contains(feature) {
        s
    } else {
        ExistingSearch {
            features: s.features.insert(feature),
            found: match r.observations[other as int][other_feature as int] {
                Some(point_id) => s.found.push(ExistingObservation { feature, point_id }),
                None => s.found,
            },
        }
    }
}

pub open spec fn existing_matches(
    s: ExistingSearch,
    r: ReconstructionView,
    num_features: nat,
    image: usize,
    pair: PairGeometry,
    other: usize,
    image_is_left: bool,
    k: nat,
) -> ExistingSearch
    decreases k,
{
    if k == 0 {
        s
    } else {
        let (feature, other_feature) = match_features(pair.inlier_matches@[k - 1], image_is_left);
        existing_match(
            existing_matches(
                s,
                r,
                num_features,
                image,
                pair,
                other,
                image_is_left,
                (k - 1) as nat,
            ),
            r,
            num_features,
            image,
            other,
            feature,
            other_feature,
        )
    }
}

/// The observations that the first `k` pairs suggest for an image.
pub open spec fn existing_upto(
    r: ReconstructionView,
    num_features: nat,
    pairs: Seq<PairGeometry>,
    image: usize,
    k: nat,
) -> ExistingSearch
    decreases k,
{
    if k == 0 {
        ExistingSearch { features: Set::empty(), found: Seq::empty() }
    } else {
        let rest = existing_upto(r, num_features, pairs, image, (k - 1) as nat);
        let pair = pairs[k - 1];
        match pair_side(image, pair) {
            Some((other, image_is_left)) => if r.registered(other as int) {
                existing_matches(
                    rest,
                    r,
                    num_features,
                    image,
                    pair,
                    other,
                    image_is_left,
                    pair.inlier_matches@.len(),
                )
            } else {
                rest
            },
            None => rest,
        }
    }
}

/// The observations of existing points that the pairs of an image suggest.
pub fn existing_observation_candidates(
    image: usize,
    frames: &[ImageFrame],
    pairs: &[PairGeometry],
    reconstruction: &Reconstruction,
) -> (found: Vec<ExistingObservation>)
    requires
        image < frames@.len(),
    ensures
        found@ == existing_upto(
            reconstruction@,
            frames@[image as int].keypoints@.len(),
            pairs@,
            image,
            pairs@.len(),
        ).found,
{
    let ghost r = reconstruction@;
    let num_features: usize = frames[image].keypoints.len();
    let mut used: Vec<usize> = Vec::new();
    let mut found: Vec<ExistingObservation> = Vec::new();
    for p in 0..pairs.len()
        invariant
            r == reconstruction@,
            ascending(used@),
            found@ == existing_upto(r, num_features as nat, pairs@, image, p as nat).found,
            forall|x: usize| #[trigger]
                used@.contains(x) <==> existing_upto(
                    r,
                    num_features as nat,
                    pairs@,
                    image,
                    p as nat,
                ).features.contains(x),
    {
        let pair = &pairs[p];
        let ghost start = existing_upto(r, num_features as nat, pairs@, image, p as nat);
        if let Some((other, image_is_left)) = structureless_pair_side(image, pair) {
            if reconstruction.is_registered(other) {
                for k in 0..pair.inlier_matches.len()
                    invariant
                        r == reconstruction@,
                        ascending(used@),
                        found@ == existing_matches(
                            start,
                            r,
                            num_features as nat,
                            image,
                            *pair,
                            other,
                            image_is_left,
                            k as nat,
                        ).found,
                        forall|x: usize| #[trigger]
                            used@.contains(x) <==> existing_matches(
                                start,
                                r,
                                num_features as nat,
                                image,
                                *pair,
                                other,
                                image_is_left,
                                k as nat,
                            ).features.contains(x),
                {
                    let (feature, other_feature): (usize, usize) = features_of_match(
                        &pair.inlier_matches[k],
                        image_is_left,
                    );
                    if feature < num_features && other < reconstruction.observations.len()
                        && other_feature < reconstruction.observations[other].len()
                        && reconstruction.observed_point(image, feature).is_none() && !holds(
                        &used,
                        feature,
                    ) {
                        insert_ascending(&mut used, feature);
                        if let Some(point_id) = reconstruction.observations[other][other_feature] {
                            found.push(ExistingObservation { feature, point_id });
                        }
                    }
                }
            }
        }
    }
    found
}

/// The model after the first `k` suggested observations that fit were added.
pub open spec fn existing_added(
    s: Edited,
    image: usize,
    found: Seq<ExistingObservation>,
    errors: Seq<Real32>,
    max_error: Real32,
    k: nat,
) -> Edited
    decreases k,
{
    if k == 0 {
        s
    } else {
        let rest = existing_added(s, image, found, errors, max_error, (k - 1) as nat);
        let obs = TrackObservation { image, feature: found[k - 1].feature };
        if errors[k - 1].at_most(max_error) && can_add_observation(
            rest.r,
            found[k - 1].point_id,
            obs,
        ) {
            observation_added(rest, found[k - 1].point_id, obs)
        } else {
            rest
        }
    }
}

/// Adds the suggested observations that fit. `errors` gives their errors.
pub fn add_existing_observations(
    image: usize,
    frames: &[ImageFrame],
    pairs: &[PairGeometry],
    reconstruction: &mut Reconstruction,
    observation_manager: &mut ObservationManager,
    found: &Vec<ExistingObservation>,
    errors: &[Real32],
    config: &MapperConfig,
)
    requires
        links_fit(pairs@),
        errors@.len() == found@.len(),
    ensures
        final(observation_manager).edited(final(reconstruction)@) == existing_added(
            old(observation_manager).edited(old(reconstruction)@),
            image,
            found@,
            errors@,
            config.max_reprojection_error_px,
            found@.len(),
        ),
        old(observation_manager).reflects(frames@, pairs@, old(reconstruction)@)
            ==> final(observation_manager).reflects(frames@, pairs@, final(reconstruction)@),
{
    let ghost start = observation_manager.edited(reconstruction@);
    for k in 0..found.len()
        invariant
            links_fit(pairs@),
            errors@.len() == found@.len(),
            observation_manager.edited(reconstruction@) == existing_added(
                start,
                image,
                found@,
                errors@,
                config.max_reprojection_error_px,
                k as nat,
            ),
            old(observation_manager).reflects(frames@, pairs@, old(reconstruction)@)
                ==> observation_manager.reflects(frames@, pairs@, reconstruction@),
    {
        if errors[k].le(&config.max_reprojection_error_px) {
            observation_manager.add_observation(
                frames,
                pairs,
                reconstruction,
                found[k].point_id,
                TrackObservation { image, feature: found[k].feature },
            );
        }
    }
}

/// The features of an image in the first `k` observations of a track.
pub open spec fn track_features(
    track: Seq<TrackObservation>,
    point: usize,
    image: int,
    k: nat,
) -> Seq<(usize, usize)>
    decreases k,
{
    if k == 0 {
        Seq::empty()
    } else {
        let rest = track_features(track, point, image, (k - 1) as nat);
        if track[k - 1].image == image {
            rest.push((point, track[k - 1].feature))
        } else {
            rest
        }
    }
}

/// The points among the first `k` that an image observes, with the features.
pub open spec fn image_observations(points: Seq<Point3DView>, image: int, k: nat) -> Seq<
    (usize, usize),
>
    decreases k,
{
    if k == 0 {
        Seq::empty()
    } else {
        image_observations(points, image, (k - 1) as nat) + track_features(
            points[k - 1].track,
            (k - 1) as usize,
            image,
            points[k - 1].track.len(),
        )
    }
}

/// The points that each image observes by their tracks, with the features.
pub fn observations_by_image(reconstruction: &Reconstruction) -> (by_image: Vec<Vec<(usize, usize)>>)
    ensures
        by_image@.len() == reconstruction@.poses.len(),
        forall|i: int|
            0 <= i < by_image@.len() ==> (#[trigger] by_image@[i])@ == image_observations(
                reconstruction@.points,
                i,
                reconstruction@.points.len(),
            ),
{
    let ghost r = reconstruction@;
    let n: usize = reconstruction.poses.len();
    let mut by_image: Vec<Vec<(usize, usize)>> = Vec::new();
    for i in 0..n
        invariant
            by_image@.len() == i,
            forall|j: int| 0 <= j < i ==> (#[trigger] by_image@[j])@ == image_observations(
                r.points,
                j,
                0,
            ),
    {
        by_image.push(Vec::new());
    }
    for p in 0..reconstruction.points.len()
        invariant
            r == reconstruction@,
            n == by_image@.len(),
            forall|j: int|
                0 <= j < n ==> (#[trigger] by_image@[j])@ == image_observations(
                    r.points,
                    j,
                    p as nat,
                ),
    {
        let track = &reconstruction.points[p].track;
        let ghost start = by_image@;
        assert(r.points[p as int].track == track@);
        proof {
            assert forall|j: int| 0 <= j < n implies (#[trigger] by_image@[j])@
                == image_observations(r.points, j, p as nat) + track_features(
                track@,
                p,
                j,
                0,
            ) by {
                assert(by_image@[j]@ + track_features(track@, p, j, 0) =~= by_image@[j]@);
            }
        }
        for k in 0..track.len()
            invariant
                n == by_image@.len(),
                forall|j: int|
                    0 <= j < n ==> (#[trigger] by_image@[j])@ == image_observations(
                        r.points,
                        j,
                        p as nat,
                    ) + track_features(track@, p, j, k as nat),
        {
            let obs = track[k];
            let ghost before = by_image@;
            if obs.image < by_image.len() {
                by_image[obs.image].push((p, obs.feature));
            }
            proof {
                assert forall|j: int| 0 <= j < n implies (#[trigger] by_image@[j])@
                    == image_observations(r.points, j, p as nat) + track_features(
                    track@,
                    p,
                    j,
                    (k + 1) as nat,
                ) by {
                    if j == obs.image {
                        assert(by_image@[j]@ =~= before[j]@.push((p, obs.feature)));
                        assert(by_image@[j]@ =~= image_observations(r.points, j, p as nat)
                            + track_features(track@, p, j, (k + 1) as nat));
                    } else {
                        assert(by_image@[j] == before[j]);
                    }
                }
            }
        }
    }
    by_image
}

} // verus!
