//! The course of a mapping attempt, said of actions, poses and trials themselves.

use crate::generalized_frame::{poses_set, GeneralizedFrameInlier};
use crate::indices::{count_where, indices_where, lemma_count_bound, lemma_indices_where};
use crate::local_bundle::RollbackReason;
use crate::mapping_attempt::{
    attempt_start, attempt_step, failures_counted, frame_moved, image_placed, image_posed,
    inliers_added, maps_structure, AttemptAction, AttemptEvent, AttemptState, FramePoses,
    RegistrationChoice,
};
use crate::observation_manager::{can_add_observation, observation_added, Edited};
use crate::registration_units::trials_raised;
use crate::session::InitialPairFailure;
use crate::types::{CameraModel, PairGeometry, Pose, ReconstructionView, TrackObservation};
use vstd::prelude::*;

verus! {

/// Structure is built from a pair just if the pair does not only tie poses
/// together.
pub proof fn law_mapping_pairs(pairs: Seq<PairGeometry>, i: usize)
    requires
        pairs.len() <= usize::MAX,
    ensures
        indices_where(pairs.len(), maps_structure(pairs)).contains(i) <==> i < pairs.len()
            && !pairs[i as int].pose_graph_only,
{
    lemma_indices_where(pairs.len(), maps_structure(pairs));
    if i < pairs.len() && maps_structure(pairs)(i as int) {
        assert(indices_where(pairs.len(), maps_structure(pairs)).contains(i));
    }
}

/// Poses are set for the images that are named and for no other. The last pose
/// that is named for an image counts.
pub proof fn law_poses_are_set(
    poses: Seq<Option<Pose>>,
    new_poses: Seq<(usize, Pose)>,
    k: nat,
    image: int,
)
    requires
        k <= new_poses.len(),
        0 <= image < poses.len(),
    ensures
        poses_set(poses, new_poses, k).len() == poses.len(),
        (forall|j: int| 0 <= j < k ==> (#[trigger] new_poses[j]).0 != image) ==> poses_set(
            poses,
            new_poses,
            k,
        )[image] == poses[image],
        forall|j: int|
            0 <= j < k && (#[trigger] new_poses[j]).0 == image && (forall|i: int|
                j < i < k ==> (#[trigger] new_poses[i]).0 != image) ==> poses_set(
                poses,
                new_poses,
                k,
            )[image] == Some(new_poses[j].1),
    decreases k,
{
    if k > 0 {
        law_poses_are_set(poses, new_poses, (k - 1) as nat, image);
    }
}

/// A placed image has the pose that was found for it, and so have the images of
/// its frame. No other image moves, and points and observations stay.
pub proof fn law_placed_image(
    r: ReconstructionView,
    choice: RegistrationChoice,
    priors: Seq<CameraModel>,
    image: int,
)
    requires
        choice.image < r.poses.len(),
        0 <= image < r.poses.len(),
    ensures
        ({
            let s = image_placed(r, choice, priors);
            let named = choice.frame_image_poses@;
            &&& s.poses.len() == r.poses.len()
            &&& (forall|j: int| 0 <= j < named.len() ==> (#[trigger] named[j]).0 != image) ==> {
                &&& image == choice.image ==> s.poses[image] == Some(choice.pose)
                &&& image != choice.image ==> s.poses[image] == r.poses[image]
            }
            &&& forall|j: int|
                0 <= j < named.len() && (#[trigger] named[j]).0 == image && (forall|i: int|
                    j < i < named.len() ==> (#[trigger] named[i]).0 != image) ==> s.poses[image]
                    == Some(named[j].1)
            &&& s.points == r.points
            &&& s.observations == r.observations
            &&& s.point_ids == r.point_ids
            &&& s.frames == r.frames
            &&& choice.image < r.image_camera_indices.len()
                && r.image_camera_indices[choice.image as int] < r.cameras.len()
                && !choice.camera.bogus ==> s.camera_of(choice.image as int) == choice.camera
        }),
{
    let posed = image_posed(r, choice, priors);
    law_poses_are_set(
        posed.poses,
        choice.frame_image_poses@,
        choice.frame_image_poses@.len(),
        image,
    );
}

/// A moved frame has the new pose, its images have theirs, and nothing else
/// changes.
pub proof fn law_moved_frame(r: ReconstructionView, poses: FramePoses, image: int, frame: int)
    requires
        0 <= image < r.poses.len(),
        0 <= frame < r.frames.len(),
    ensures
        ({
            let s = frame_moved(r, poses);
            let named = poses.image_poses@;
            &&& s.frames.len() == r.frames.len()
            &&& frame == poses.frame ==> s.frames[frame].rig_from_world == poses.rig_from_world
                && s.frames[frame].rig_id == r.frames[frame].rig_id
            &&& frame != poses.frame ==> s.frames[frame] == r.frames[frame]
            &&& (forall|j: int| 0 <= j < named.len() ==> (#[trigger] named[j]).0 != image)
                ==> s.poses[image] == r.poses[image]
            &&& forall|j: int|
                0 <= j < named.len() && (#[trigger] named[j]).0 == image && (forall|i: int|
                    j < i < named.len() ==> (#[trigger] named[i]).0 != image) ==> s.poses[image]
                    == Some(named[j].1)
            &&& s.points == r.points
            &&& s.observations == r.observations
        }),
{
    law_poses_are_set(r.poses, poses.image_poses@, poses.image_poses@.len(), image);
}

/// Whether one of the first `k` inliers names a feature of an image and a point.
pub open spec fn is_inlier(
    inliers: Seq<GeneralizedFrameInlier>,
    k: int,
    image: int,
    feature: int,
    point: usize,
) -> bool {
    exists|j: int|
        0 <= j < k && (#[trigger] inliers[j]).image == image && inliers[j].feature == feature
            && inliers[j].point_id == point
}

/// Adding inliers fills free slots only, each with the point of an inlier that
/// names it. Points keep their positions and their observations.
pub proof fn law_inliers_added(
    s: Edited,
    inliers: Seq<GeneralizedFrameInlier>,
    k: nat,
    image: int,
    feature: int,
    p: int,
)
    requires
        k <= inliers.len(),
    ensures
        ({
            let t = inliers_added(s, inliers, k);
            &&& s.r.observed(image, feature) is Some ==> t.r.observed(image, feature)
                == s.r.observed(image, feature)
            &&& t.r.observed(image, feature) is Some && s.r.observed(image, feature) is None
                ==> is_inlier(inliers, k as int, image, feature, t.r.observed(image, feature)->0)
            &&& t.r.points.len() == s.r.points.len()
            &&& 0 <= p < s.r.points.len() ==> {
                &&& t.r.points[p].xyz == s.r.points[p].xyz
                &&& t.r.points[p].track.len() >= s.r.points[p].track.len()
                &&& t.r.points[p].track.take(s.r.points[p].track.len() as int)
                    == s.r.points[p].track
                &&& t.r.points[p] != s.r.points[p] ==> t.modified.contains(p as usize)
            }
            &&& s.modified.subset_of(t.modified)
            &&& t.r.poses == s.r.poses
        }),
    decreases k,
{
    let t = inliers_added(s, inliers, k);
    if k > 0 {
        law_inliers_added(s, inliers, (k - 1) as nat, image, feature, p);
        let rest = inliers_added(s, inliers, (k - 1) as nat);
        let inlier = inliers[k - 1];
        let obs = TrackObservation { image: inlier.image, feature: inlier.feature };
        if rest.r.observed(image, feature) is Some && s.r.observed(image, feature) is None {
            let point = rest.r.observed(image, feature)->0;
            let j = choose|j: int|
                0 <= j < k - 1 && (#[trigger] inliers[j]).image == image && inliers[j].feature
                    == feature && inliers[j].point_id == point;
            assert(inliers[j].image == image);
            assert(is_inlier(inliers, k as int, image, feature, point));
        }
        if can_add_observation(rest.r, inlier.point_id, obs) {
            assert(t == observation_added(rest, inlier.point_id, obs));
            if image == obs.image && feature == obs.feature {
                assert(inliers[k - 1].image == image);
            } else {
                assert(t.r.observed(image, feature) == rest.r.observed(image, feature));
            }
            if 0 <= p < s.r.points.len() {
                assert(t.r.points[p].track.take(s.r.points[p].track.len() as int)
                    =~= s.r.points[p].track);
            }
        }
    } else if 0 <= p < s.r.points.len() {
        assert(s.r.points[p].track.take(s.r.points[p].track.len() as int) =~= s.r.points[p].track);
    }
}

/// Selects the failed images of a unit.
pub open spec fn fails_unit(
    r: ReconstructionView,
    failed: Seq<usize>,
    m: int,
) -> spec_fn(int) -> bool {
    |i: int| r.same_unit(failed[i] as int, m)
}

/// Every failed image counts one trial for each image of its unit.
pub proof fn law_failures_counted(
    r: ReconstructionView,
    trials: Seq<usize>,
    failed: Seq<usize>,
    k: nat,
    m: int,
)
    requires
        k <= failed.len(),
        0 <= m < trials.len(),
        trials[m] + k <= usize::MAX,
    ensures
        failures_counted(r, trials, failed, k).len() == trials.len(),
        failures_counted(r, trials, failed, k)[m] == trials[m] + count_where(
            k,
            fails_unit(r, failed, m),
        ),
    decreases k,
{
    if k > 0 {
        law_failures_counted(r, trials, failed, (k - 1) as nat, m);
        lemma_count_bound((k - 1) as nat, fails_unit(r, failed, m));
        let rest = failures_counted(r, trials, failed, (k - 1) as nat);
        assert(trials_raised(r, failed[k - 1], rest).len() == rest.len());
    }
}

/// An attempt starts with refining the model it continues, or with the choice of a
/// pair. A pair that is chosen is built, checked, refined, checked again and
/// reported; without one, or if a check fails, the attempt fails for that reason.
pub proof fn law_attempt_begins(s: AttemptState, left: usize, right: usize, good: bool)
    ensures
        attempt_start(None).action == AttemptAction::ChooseInitialPair,
        attempt_start(Some(left)).action == (AttemptAction::RefineInitialModel {
            gauge_image: left,
        }),
        s.action == AttemptAction::ChooseInitialPair ==> {
            &&& attempt_step(s, AttemptEvent::InitialPair(Some((left, right)))).action == (
            AttemptAction::BuildInitialPair { left, right })
            &&& attempt_step(s, AttemptEvent::InitialPair(Some((left, right)))).initial_pair
                == Some((left, right))
            &&& attempt_step(s, AttemptEvent::InitialPair(None)).action == AttemptAction::Fail(
                InitialPairFailure::NoInitialPair,
            )
        },
        s.action == (AttemptAction::BuildInitialPair { left, right }) ==> {
            &&& attempt_step(s, AttemptEvent::Checked(true)).action == (
            AttemptAction::RefineInitialModel { gauge_image: left })
            &&& attempt_step(s, AttemptEvent::Checked(false)).action == AttemptAction::Fail(
                InitialPairFailure::BadInitialPair,
            )
        },
        s.action is RefineInitialModel ==> {
            &&& attempt_step(s, AttemptEvent::Checked(false)).action == AttemptAction::Fail(
                InitialPairFailure::BadInitialPair,
            )
            &&& s.initial_pair == Some((left, right)) ==> attempt_step(
                s,
                AttemptEvent::Checked(true),
            ).action == (AttemptAction::ReportInitialPair { left, right })
            &&& s.initial_pair is None ==> attempt_step(s, AttemptEvent::Checked(true)).action
                == AttemptAction::ChooseNextImage
        },
        s.action is ReportInitialPair ==> attempt_step(s, AttemptEvent::Carried).action
            == AttemptAction::ChooseNextImage,
{
}

/// A chosen image is registered. If that holds it is settled and reported, else it
/// is taken back; then the next one is chosen. Without one the attempt finishes.
pub proof fn law_attempt_goes_on(s: AttemptState, image: usize, reason: RollbackReason)
    ensures
        s.action is ChooseNextImage ==> {
            &&& attempt_step(s, AttemptEvent::NextImage(Some(image))).action == (
            AttemptAction::RegisterImage { image })
            &&& attempt_step(s, AttemptEvent::NextImage(None)).action == AttemptAction::Finish
        },
        s.action == (AttemptAction::RegisterImage { image }) ==> {
            &&& attempt_step(s, AttemptEvent::Registered(None)).action == (
            AttemptAction::SettleImage { image })
            &&& attempt_step(s, AttemptEvent::Registered(Some(reason))).action == (
            AttemptAction::Rollback { image, reason })
        },
        s.action is Rollback ==> attempt_step(s, AttemptEvent::Carried).action
            == AttemptAction::ChooseNextImage,
        s.action == (AttemptAction::SettleImage { image }) ==> attempt_step(
            s,
            AttemptEvent::Carried,
        ).action == (AttemptAction::ReportImage { image }),
        s.action is ReportImage ==> attempt_step(s, AttemptEvent::Carried).action
            == AttemptAction::ChooseNextImage,
        s.action is Finish ==> attempt_step(s, AttemptEvent::Carried).action
            == AttemptAction::Done,
{
}

/// Whether an event answers an action.
pub open spec fn answers(action: AttemptAction, event: AttemptEvent) -> bool {
    match event {
        AttemptEvent::InitialPair(_) => action is ChooseInitialPair,
        AttemptEvent::Checked(_) => action is BuildInitialPair || action is RefineInitialModel,
        AttemptEvent::NextImage(_) => action is ChooseNextImage,
        AttemptEvent::Registered(_) => action is RegisterImage,
        AttemptEvent::Carried => action is ReportInitialPair || action is Rollback
            || action is SettleImage || action is ReportImage || action is Finish,
    }
}

/// An event that does not answer the action changes nothing. One that does always
/// leads to another action. The pair and the gauge image change only with the
/// choice of the pair.
pub proof fn law_attempt_answers(s: AttemptState, event: AttemptEvent)
    ensures
        !answers(s.action, event) ==> attempt_step(s, event) == s,
        answers(s.action, event) ==> attempt_step(s, event).action != s.action,
        !(s.action is ChooseInitialPair) ==> attempt_step(s, event).initial_pair == s.initial_pair
            && attempt_step(s, event).gauge_image == s.gauge_image,
{
}

} // verus!
