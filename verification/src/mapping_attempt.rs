//! One attempt to build a model: seeding, growing image by image, finishing.

use crate::camera_selection::{
    apply_image_camera, reset_bogus_frame_cameras_from_priors, with_cameras_reset,
    with_image_camera,
};
use crate::config::MapperConfig;
use crate::frame_filtering::{filter_registered_frames, frames_filtered, Filtering};
use crate::generalized_frame::{poses_set, GeneralizedFrameInlier};
use crate::links::links_fit;
use crate::local_bundle::RollbackReason;
use crate::observation_manager::{
    can_add_observation, observation_added, points_fit, with_pose, Edited, ObservationManager,
};
use crate::pipeline::IncrementalPipelineCallback;
use crate::registration_stats::{counters_have_room, unit_registered, RegistrationStats};
use crate::registration_units::{
    increment_registration_unit_trials, registration_unit_key, reset_registration_unit_trials,
    trials_raised, trials_reset, UnitSet,
};
use crate::session::InitialPairFailure;
use crate::types::{
    CameraModel, Frame, ImageFrame, PairGeometry, Pose, Reconstruction, ReconstructionView,
    Rigid3, TrackObservation,
};
use vstd::prelude::*;

verus! {

/// Selects the pairs that structure is built from.
pub open spec fn maps_structure(pairs: Seq<PairGeometry>) -> spec_fn(int) -> bool {
    |i: int| !pairs[i].pose_graph_only
}

/// The pairs that structure is built from; the others only tie poses together.
pub fn mapping_pair_indices(pairs: &[PairGeometry]) -> (indices: Vec<usize>)
    ensures
        indices@ == crate::indices::indices_where(pairs@.len(), maps_structure(pairs@)),
{
    let mut indices: Vec<usize> = Vec::new();
    for i in 0..pairs.len()
        invariant
            indices@ == crate::indices::indices_where(i as nat, maps_structure(pairs@)),
    {
        if !pairs[i].pose_graph_only {
            indices.push(i);
        }
    }
    indices
}

/// Whether an image is the first registered one.
pub open spec fn is_first_registered(r: ReconstructionView, image: int) -> bool {
    r.registered(image) && forall|j: int| 0 <= j < image ==> !(#[trigger] r.registered(j))
}

/// The image that fixes the model in space when an existing model is continued:
/// the first registered one.
pub fn first_registered_image(reconstruction: &Reconstruction) -> (image: Option<usize>)
    ensures
        match image {
            Some(i) => is_first_registered(reconstruction@, i as int),
            None => forall|j: int| !(#[trigger] reconstruction@.registered(j)),
        },
{
    for i in 0..reconstruction.poses.len()
        invariant
            forall|j: int| 0 <= j < i ==> !(#[trigger] reconstruction@.registered(j)),
    {
        if reconstruction.is_registered(i) {
            return Some(i);
        }
    }
    None
}

/// Whether an image awaits registration.
pub fn any_unregistered(reconstruction: &Reconstruction) -> (b: bool)
    ensures
        b <==> exists|i: int|
            0 <= i < reconstruction@.poses.len() && !(#[trigger] reconstruction@.registered(i)),
{
    for i in 0..reconstruction.poses.len()
        invariant
            forall|j: int| 0 <= j < i ==> #[trigger] reconstruction@.registered(j),
    {
        if !reconstruction.is_registered(i) {
            assert(!reconstruction@.registered(i as int));
            return true;
        }
    }
    false
}

/// Registers the two images of an initial pair.
pub fn register_initial_pair(
    frames: &[ImageFrame],
    pairs: &[PairGeometry],
    reconstruction: &mut Reconstruction,
    observation_manager: &mut ObservationManager,
    left: (usize, Pose),
    right: (usize, Pose),
)
    requires
        links_fit(pairs@),
        left.0 < old(reconstruction)@.poses.len(),
        right.0 < old(reconstruction)@.poses.len(),
    ensures
        final(reconstruction)@ == with_pose(
            with_pose(old(reconstruction)@, left.0, Some(left.1)),
            right.0,
            Some(right.1),
        ),
        final(observation_manager).reflects(frames@, pairs@, final(reconstruction)@),
        final(observation_manager).modified() == old(observation_manager).modified(),
{
    observation_manager.register_image(frames, pairs, reconstruction, left.0, left.1);
    observation_manager.register_image(frames, pairs, reconstruction, right.0, right.1);
}

/// A pose for an image that can be registered.
#[derive(Debug)]
pub struct RegistrationChoice {
    pub image: usize,
    pub pose: Pose,
    pub camera: CameraModel,
    pub frame_image_poses: Vec<(usize, Pose)>,
}

/// The model once an image has its camera and its pose.
pub open spec fn image_posed(
    r: ReconstructionView,
    choice: RegistrationChoice,
    priors: Seq<CameraModel>,
) -> ReconstructionView {
    let calibrated = with_cameras_reset(
        with_image_camera(r, choice.image, choice.camera),
        choice.image,
        priors,
    );
    with_pose(calibrated, choice.image, Some(choice.pose))
}

/// The model with an image registered: its camera taken over, implausible
/// cameras of its frame reset, its pose set, and the poses found for its frame.
pub open spec fn image_placed(
    r: ReconstructionView,
    choice: RegistrationChoice,
    priors: Seq<CameraModel>,
) -> ReconstructionView {
    let posed = image_posed(r, choice, priors);
    ReconstructionView {
        poses: poses_set(
            posed.poses,
            choice.frame_image_poses@,
            choice.frame_image_poses@.len(),
        ),
        ..posed
    }
}

fn set_poses(reconstruction: &mut Reconstruction, new_poses: &Vec<(usize, Pose)>)
    ensures
        final(reconstruction)@ == (ReconstructionView {
            poses: poses_set(old(reconstruction)@.poses, new_poses@, new_poses@.len()),
            ..old(reconstruction)@
        }),
{
    let ghost r = reconstruction@;
    for k in 0..new_poses.len()
        invariant
            reconstruction@ == (ReconstructionView {
                poses: poses_set(r.poses, new_poses@, k as nat),
                ..r
            }),
    {
        let (image, pose): (usize, Pose) = new_poses[k];
        if image < reconstruction.poses.len() {
            reconstruction.poses[image] = Some(pose);
        }
    }
}

/// Places an image in the model.
pub fn place_image(
    frames: &[ImageFrame],
    pairs: &[PairGeometry],
    reconstruction: &mut Reconstruction,
    observation_manager: &mut ObservationManager,
    choice: &RegistrationChoice,
    camera_priors: &[CameraModel],
)
    requires
        links_fit(pairs@),
        choice.image < old(reconstruction)@.poses.len(),
    ensures
        final(reconstruction)@ == image_placed(old(reconstruction)@, *choice, camera_priors@),
        final(observation_manager).modified() == old(observation_manager).modified(),
        final(observation_manager).reflects(
            frames@,
            pairs@,
            image_posed(old(reconstruction)@, *choice, camera_priors@),
        ),
{
    apply_image_camera(reconstruction, choice.image, choice.camera);
    reset_bogus_frame_cameras_from_priors(reconstruction, choice.image, camera_priors);
    observation_manager.register_image(frames, pairs, reconstruction, choice.image, choice.pose);
    set_poses(reconstruction, &choice.frame_image_poses);
}

/// The pose of a frame with the poses of its images.
#[derive(Debug)]
pub struct FramePoses {
    pub frame: usize,
    pub rig_from_world: Rigid3,
    pub image_poses: Vec<(usize, Pose)>,
}

/// The model with a frame moved.
pub open spec fn frame_moved(r: ReconstructionView, poses: FramePoses) -> ReconstructionView {
    ReconstructionView {
        frames: if poses.frame < r.frames.len() {
            r.frames.update(
                poses.frame as int,
                Frame { rig_from_world: poses.rig_from_world, ..r.frames[poses.frame as int] },
            )
        } else {
            r.frames
        },
        poses: poses_set(r.poses, poses.image_poses@, poses.image_poses@.len()),
        ..r
    }
}

/// Moves a frame and its images.
pub fn move_frame(reconstruction: &mut Reconstruction, poses: &FramePoses)
    ensures
        final(reconstruction)@ == frame_moved(old(reconstruction)@, *poses),
{
    if poses.frame < reconstruction.frames.len() {
        reconstruction.frames[poses.frame].rig_from_world = poses.rig_from_world;
    }
    set_poses(reconstruction, &poses.image_poses);
    assert(reconstruction@.frames =~= frame_moved(old(reconstruction)@, *poses).frames);
}

/// The model with the observations of the first `k` inliers added, as far as
/// they can be.
pub open spec fn inliers_added(
    s: Edited,
    inliers: Seq<GeneralizedFrameInlier>,
    k: nat,
) -> Edited
    decreases k,
{
    if k == 0 {
        s
    } else {
        let rest = inliers_added(s, inliers, (k - 1) as nat);
        let inlier = inliers[k - 1];
        let obs = TrackObservation { image: inlier.image, feature: inlier.feature };
        if can_add_observation(rest.r, inlier.point_id, obs) {
            observation_added(rest, inlier.point_id, obs)
        } else {
            rest
        }
    }
}

/// Adds the observations that a frame was registered with.
pub fn add_generalized_inliers(
    frames: &[ImageFrame],
    pairs: &[PairGeometry],
    reconstruction: &mut Reconstruction,
    observation_manager: &mut ObservationManager,
    inliers: &Vec<GeneralizedFrameInlier>,
)
    requires
        links_fit(pairs@),
    ensures
        final(observation_manager).edited(final(reconstruction)@) == inliers_added(
            old(observation_manager).edited(old(reconstruction)@),
            inliers@,
            inliers@.len(),
        ),
        old(observation_manager).reflects(frames@, pairs@, old(reconstruction)@)
            ==> final(observation_manager).reflects(frames@, pairs@, final(reconstruction)@),
{
    let ghost start = observation_manager.edited(reconstruction@);
    for k in 0..inliers.len()
        invariant
            links_fit(pairs@),
            observation_manager.edited(reconstruction@) == inliers_added(
                start,
                inliers@,
                k as nat,
            ),
            old(observation_manager).reflects(frames@, pairs@, old(reconstruction)@)
                ==> observation_manager.reflects(frames@, pairs@, reconstruction@),
    {
        let inlier = inliers[k];
        observation_manager.add_observation(
            frames,
            pairs,
            reconstruction,
            inlier.point_id,
            TrackObservation { image: inlier.image, feature: inlier.feature },
        );
    }
}

/// The trials after each of the first `k` images failed once more.
pub open spec fn failures_counted(
    r: ReconstructionView,
    trials: Seq<usize>,
    failed: Seq<usize>,
    k: nat,
) -> Seq<usize>
    decreases k,
{
    if k == 0 {
        trials
    } else {
        trials_raised(r, failed[k - 1], failures_counted(r, trials, failed, (k - 1) as nat))
    }
}

/// Counts a trial for every image whose registration failed.
pub fn count_failed_registrations(
    reconstruction: &Reconstruction,
    failed: &Vec<usize>,
    reg_trials: &mut Vec<usize>,
)
    requires
        forall|m: int|
            0 <= m < old(reg_trials)@.len() ==> #[trigger] old(reg_trials)@[m] + failed@.len()
                <= usize::MAX,
    ensures
        final(reg_trials)@ == failures_counted(
            reconstruction@,
            old(reg_trials)@,
            failed@,
            failed@.len(),
        ),
{
    let ghost before = reg_trials@;
    for k in 0..failed.len()
        invariant
            forall|m: int|
                0 <= m < reg_trials@.len() ==> #[trigger] reg_trials@[m] + (failed@.len() - k)
                    <= usize::MAX,
            reg_trials@ == failures_counted(reconstruction@, before, failed@, k as nat),
    {
        increment_registration_unit_trials(reconstruction, failed[k], reg_trials);
    }
}

/// Undoes a registration: the model is again what it was, the statistics are
/// those of that model, and a trial is counted for the unit of the image.
pub fn roll_back_registration(
    frames: &[ImageFrame],
    pairs: &[PairGeometry],
    reconstruction: &mut Reconstruction,
    before: Reconstruction,
    observation_manager: &mut ObservationManager,
    reg_trials: &mut Vec<usize>,
    image: usize,
)
    requires
        links_fit(pairs@),
        forall|m: int|
            0 <= m < old(reg_trials)@.len() && before@.same_unit(image as int, m)
                ==> #[trigger] old(reg_trials)@[m] < usize::MAX,
    ensures
        *final(reconstruction) == before,
        final(observation_manager).reflects(frames@, pairs@, before@),
        final(observation_manager).modified() == old(observation_manager).modified(),
        final(reg_trials)@ == trials_raised(before@, image, old(reg_trials)@),
{
    *reconstruction = before;
    observation_manager.rebuild(frames, pairs, reconstruction);
    increment_registration_unit_trials(reconstruction, image, reg_trials);
}

/// Settles a registration that is kept: it is counted, its trials start over,
/// its unit is no longer filtered out, and units that lost their support go.
/// Gives the number of units that went.
pub fn settle_registration(
    frames: &[ImageFrame],
    pairs: &[PairGeometry],
    reconstruction: &mut Reconstruction,
    config: &MapperConfig,
    registration_stats: &mut RegistrationStats,
    filtered_units: &mut UnitSet,
    reg_trials: &mut Vec<usize>,
    observation_manager: &mut ObservationManager,
    image: usize,
) -> (filtered: usize)
    requires
        links_fit(pairs@),
        points_fit(old(reconstruction)@),
        counters_have_room(
            old(registration_stats)@,
            old(reconstruction)@.unit_of(image).len() + 1,
        ),
    ensures
        final(reg_trials)@ == trials_reset(old(reconstruction)@, image, old(reg_trials)@),
        (Filtering {
            model: final(observation_manager).edited(final(reconstruction)@),
            stats: final(registration_stats)@,
            removed: final(filtered_units)@,
            count: filtered as nat,
        }) == frames_filtered(
            (Filtering {
                model: old(observation_manager).edited(old(reconstruction)@),
                stats: unit_registered(
                    old(registration_stats)@,
                    old(reconstruction)@,
                    image,
                ),
                removed: old(filtered_units)@.remove(old(reconstruction)@.unit_key(image)),
                count: 0,
            }),
            *config,
        ),
        old(observation_manager).reflects(frames@, pairs@, old(reconstruction)@)
            ==> final(observation_manager).reflects(frames@, pairs@, final(reconstruction)@),
{
    registration_stats.register_frame_for_image_event(reconstruction, image);
    reset_registration_unit_trials(reconstruction, image, reg_trials);
    filtered_units.remove(&registration_unit_key(reconstruction, image));
    filter_registered_frames(
        frames,
        pairs,
        reconstruction,
        config,
        registration_stats,
        filtered_units,
        observation_manager,
    )
}

/// What an attempt does next.
#[derive(Debug, Clone, Copy, PartialEq, Eq, Structural)]
pub enum AttemptAction {
    /// Choose an initial pair.
    ChooseInitialPair,
    /// Register the initial pair, triangulate from it and check the result.
    BuildInitialPair { left: usize, right: usize },
    /// Refine the whole model for the first time and check the result.
    RefineInitialModel { gauge_image: usize },
    /// Report the initial pair.
    ReportInitialPair { left: usize, right: usize },
    /// Choose the next image to register.
    ChooseNextImage,
    /// Register an image, triangulate from it and refine around it.
    RegisterImage { image: usize },
    /// Take a registration back.
    Rollback { image: usize, reason: RollbackReason },
    /// Settle a registration and refine the whole model if it is due.
    SettleImage { image: usize },
    /// Report a registration.
    ReportImage { image: usize },
    /// Refine the whole model for the last time if it is due.
    Finish,
    /// Hand the model over.
    Done,
    /// Give up.
    Fail(InitialPairFailure),
}

impl AttemptAction {
    /// What is reported to callers along with an action.
    pub fn callback(&self) -> (callback: Option<IncrementalPipelineCallback>)
        ensures
            callback == (match self {
                AttemptAction::ReportInitialPair { .. } => Some(
                    IncrementalPipelineCallback::InitialImagePairReg,
                ),
                AttemptAction::ReportImage { .. } => Some(
                    IncrementalPipelineCallback::NextImageReg,
                ),
                _ => None,
            }),
    {
        match self {
            AttemptAction::ReportInitialPair { .. } => Some(
                IncrementalPipelineCallback::InitialImagePairReg,
            ),
            AttemptAction::ReportImage { .. } => Some(IncrementalPipelineCallback::NextImageReg),
            _ => None,
        }
    }
}

/// What came of an action.
#[derive(Debug, Clone, Copy, PartialEq, Eq)]
pub enum AttemptEvent {
    /// The pair that was chosen, if any.
    InitialPair(Option<(usize, usize)>),
    /// Whether the model is good enough to go on.
    Checked(bool),
    /// The image that was chosen, if any.
    NextImage(Option<usize>),
    /// Whether the registration holds, and if not, why.
    Registered(Option<RollbackReason>),
    /// The action was carried out.
    Carried,
}

/// The state of an attempt: what it does, and the pair it started from.
#[derive(Debug, Clone, Copy, PartialEq, Eq)]
pub struct AttemptState {
    pub action: AttemptAction,
    pub initial_pair: Option<(usize, usize)>,
    pub gauge_image: usize,
}

/// How an attempt starts: from the images that are registered already, or from
/// a pair.
pub open spec fn attempt_start(continued: Option<usize>) -> AttemptState {
    match continued {
        Some(image) => AttemptState {
            action: AttemptAction::RefineInitialModel { gauge_image: image },
            initial_pair: None,
            gauge_image: image,
        },
        None => AttemptState {
            action: AttemptAction::ChooseInitialPair,
            initial_pair: None,
            gauge_image: 0,
        },
    }
}

/// How an attempt goes on. Events that do not belong to the action leave it as
/// it is.
pub open spec fn attempt_step(s: AttemptState, event: AttemptEvent) -> AttemptState {
    match (s.action, event) {
        (AttemptAction::ChooseInitialPair, AttemptEvent::InitialPair(pair)) => match pair {
            Some((left, right)) => AttemptState {
                action: AttemptAction::BuildInitialPair { left, right },
                initial_pair: pair,
                gauge_image: left,
            },
            None => AttemptState {
                action: AttemptAction::Fail(InitialPairFailure::NoInitialPair),
                ..s
            },
        },
        (AttemptAction::BuildInitialPair { left, .. }, AttemptEvent::Checked(good)) => AttemptState {
            action: if good {
                AttemptAction::RefineInitialModel { gauge_image: left }
            } else {
                AttemptAction::Fail(InitialPairFailure::BadInitialPair)
            },
            ..s
        },
        (AttemptAction::RefineInitialModel { .. }, AttemptEvent::Checked(good)) => AttemptState {
            action: if !good {
                AttemptAction::Fail(InitialPairFailure::BadInitialPair)
            } else {
                match s.initial_pair {
                    Some((left, right)) => AttemptAction::ReportInitialPair { left, right },
                    None => AttemptAction::ChooseNextImage,
                }
            },
            ..s
        },
        (AttemptAction::ReportInitialPair { .. }, AttemptEvent::Carried) => AttemptState {
            action: AttemptAction::ChooseNextImage,
            ..s
        },
        (AttemptAction::ChooseNextImage, AttemptEvent::NextImage(choice)) => AttemptState {
            action: match choice {
                Some(image) => AttemptAction::RegisterImage { image },
                None => AttemptAction::Finish,
            },
            ..s
        },
        (AttemptAction::RegisterImage { image }, AttemptEvent::Registered(reason)) => AttemptState {
            action: match reason {
                Some(reason) => AttemptAction::Rollback { image, reason },
                None => AttemptAction::SettleImage { image },
            },
            ..s
        },
        (AttemptAction::Rollback { .. }, AttemptEvent::Carried) => AttemptState {
            action: AttemptAction::ChooseNextImage,
            ..s
        },
        (AttemptAction::SettleImage { image }, AttemptEvent::Carried) => AttemptState {
            action: AttemptAction::ReportImage { image },
            ..s
        },
        (AttemptAction::ReportImage { .. }, AttemptEvent::Carried) => AttemptState {
            action: AttemptAction::ChooseNextImage,
            ..s
        },
        (AttemptAction::Finish, AttemptEvent::Carried) => AttemptState {
            action: AttemptAction::Done,
            ..s
        },
        _ => s,
    }
}

impl AttemptState {
    pub fn start(continued: Option<usize>) -> (state: AttemptState)
        ensures
            state == attempt_start(continued),
    {
        match continued {
            Some(image) => AttemptState {
                action: AttemptAction::RefineInitialModel { gauge_image: image },
                initial_pair: None,
                gauge_image: image,
            },
            None => AttemptState {
                action: AttemptAction::ChooseInitialPair,
                initial_pair: None,
                gauge_image: 0,
            },
        }
    }

    pub fn advance(&mut self, event: AttemptEvent)
        ensures
            *final(self) == attempt_step(*old(self), event),
    {
        match (self.action, event) {
            (AttemptAction::ChooseInitialPair, AttemptEvent::InitialPair(pair)) => match pair {
                Some((left, right)) => {
                    self.action = AttemptAction::BuildInitialPair { left, right };
                    self.initial_pair = pair;
                    self.gauge_image = left;
                },
                None => {
                    self.action = AttemptAction::Fail(InitialPairFailure::NoInitialPair);
                },
            },
            (AttemptAction::BuildInitialPair { left, right: _ }, AttemptEvent::Checked(good)) => {
                self.action = if good {
                    AttemptAction::RefineInitialModel { gauge_image: left }
                } else {
                    AttemptAction::Fail(InitialPairFailure::BadInitialPair)
                };
            },
            (AttemptAction::RefineInitialModel { gauge_image: _ }, AttemptEvent::Checked(good)) => {
                self.action = if !good {
                    AttemptAction::Fail(InitialPairFailure::BadInitialPair)
                } else {
                    match self.initial_pair {
                        Some((left, right)) => AttemptAction::ReportInitialPair { left, right },
                        None => AttemptAction::ChooseNextImage,
                    }
                };
            },
            (AttemptAction::ReportInitialPair { left: _, right: _ }, AttemptEvent::Carried) => {
                self.action = AttemptAction::ChooseNextImage;
            },
            (AttemptAction::ChooseNextImage, AttemptEvent::NextImage(choice)) => {
                self.action = match choice {
                    Some(image) => AttemptAction::RegisterImage { image },
                    None => AttemptAction::Finish,
                };
            },
            (AttemptAction::RegisterImage { image }, AttemptEvent::Registered(reason)) => {
                self.action = match reason {
                    Some(reason) => AttemptAction::Rollback { image, reason },
                    None => AttemptAction::SettleImage { image },
                };
            },
            (AttemptAction::Rollback { image: _, reason: _ }, AttemptEvent::Carried) => {
                self.action = AttemptAction::ChooseNextImage;
            },
            (AttemptAction::SettleImage { image }, AttemptEvent::Carried) => {
                self.action = AttemptAction::ReportImage { image };
            },
            (AttemptAction::ReportImage { image: _ }, AttemptEvent::Carried) => {
                self.action = AttemptAction::ChooseNextImage;
            },
            (AttemptAction::Finish, AttemptEvent::Carried) => {
                self.action = AttemptAction::Done;
            },
            _ => {},
        }
    }
}

/// Whether an attempt is over.
pub open spec fn attempt_over(s: AttemptState) -> bool {
    s.action is Done || s.action is Fail
}

/// The state after the first `k` events.
pub open spec fn attempt_after(s: AttemptState, events: Seq<AttemptEvent>, k: nat) -> AttemptState
    decreases k,
{
    if k == 0 {
        s
    } else {
        attempt_step(attempt_after(s, events, (k - 1) as nat), events[k - 1])
    }
}

/// What holds of every state that an attempt can reach: before the first image
/// is chosen nothing fails but the initial pair, and after it nothing fails at
/// all; the gauge image is that of the pair.
pub open spec fn attempt_sound(s: AttemptState) -> bool {
    &&& s.initial_pair matches Some(pair) ==> s.gauge_image == pair.0
    &&& s.action matches AttemptAction::BuildInitialPair { left, right } ==> s.initial_pair
        == Some((left, right))
    &&& s.action matches AttemptAction::ReportInitialPair { left, right } ==> s.initial_pair
        == Some((left, right))
    &&& s.action matches AttemptAction::RefineInitialModel { gauge_image } ==> gauge_image
        == s.gauge_image
    &&& s.action is ChooseInitialPair ==> s.initial_pair is None
}

/// Every state of an attempt is sound, an attempt that is over stays over, and
/// one that has come to choosing images ends with a model.
pub proof fn law_attempt(
    continued: Option<usize>,
    events: Seq<AttemptEvent>,
    k: nat,
)
    requires
        k < events.len(),
    ensures
        ({
            let s = attempt_after(attempt_start(continued), events, k);
            let t = attempt_after(attempt_start(continued), events, k + 1);
            &&& attempt_sound(s)
            &&& attempt_sound(t)
            &&& attempt_over(s) ==> t == s
            &&& (t.action is Fail && !(s.action is Fail)) ==> s.action is ChooseInitialPair
                || s.action is BuildInitialPair || s.action is RefineInitialModel
            &&& t.action is Done && !(s.action is Done) ==> s.action is Finish
        }),
{
    lemma_attempt_sound(continued, events, k);
    lemma_attempt_sound(continued, events, k + 1);
}

proof fn lemma_attempt_sound(continued: Option<usize>, events: Seq<AttemptEvent>, k: nat)
    requires
        k <= events.len(),
    ensures
        attempt_sound(attempt_after(attempt_start(continued), events, k)),
    decreases k,
{
    if k > 0 {
        lemma_attempt_sound(continued, events, (k - 1) as nat);
    }
}

} // verus!
