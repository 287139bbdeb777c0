//! Registration of all images of a frame at once.

use crate::absolute_pose::{clear_structure, features_of_match, free_table, marked, match_features, supports};
use crate::ascending::holds;
use crate::config::MapperConfig;
use crate::initial_pair::{in_non_trivial_rig, non_trivial_registration_rig};
use crate::links::has_feature;
use crate::observation_manager::{ImageStat, ObservationManager};
use crate::registration_stats::{lookup, RegistrationStats, StatsView};
use crate::sorting::{ranks_all, sort_distinct, strictly_sorted, Ranked};
use crate::structureless::{count_distinct, find_position, position_of};
use crate::track_edits::{push_to_track, set_slot, with_slot, with_track};
use crate::types::{
    points_view, ImageFrame, PairGeometry, Point3D, Point3DView, Pose, Reconstruction,
    ReconstructionView, Rig, Rigid3, SensorId, SensorType, TrackObservation,
};
use vstd::prelude::*;

verus! {

/// Whether the focal length of a camera is known: it was given, or an image
/// with this camera is registered.
pub open spec fn good_focal_length(
    r: ReconstructionView,
    image: usize,
    prior_flags: Seq<bool>,
    stats: StatsView,
) -> bool {
    let camera = r.camera_index_of(image as int);
    let id = if camera < r.camera_ids.len() {
        r.camera_ids[camera as int]
    } else {
        1
    };
    (camera < prior_flags.len() ==> prior_flags[camera as int]) || lookup(
        stats.images_per_camera,
        id,
    ) > 0
}

pub fn frame_image_camera_has_good_focal_length(
    image: usize,
    reconstruction: &Reconstruction,
    camera_has_prior_focal_length: &[bool],
    registration_stats: &RegistrationStats,
) -> (b: bool)
    ensures
        b == good_focal_length(
            reconstruction@,
            image,
            camera_has_prior_focal_length@,
            registration_stats@,
        ),
{
    let camera: usize = reconstruction.camera_index_for_image(image);
    if camera >= camera_has_prior_focal_length.len() || camera_has_prior_focal_length[camera] {
        return true;
    }
    let id: u32 = if camera < reconstruction.camera_ids.len() {
        reconstruction.camera_ids[camera]
    } else {
        1
    };
    registration_stats.registered_images_with_camera_id(id) > 0
}

/// The points visible to the first `k` of some images, counted per image.
pub open spec fn visible_points(stats: Seq<ImageStat>, images: Seq<usize>, k: nat) -> nat
    decreases k,
{
    if k == 0 {
        0
    } else {
        visible_points(stats, images, (k - 1) as nat) + (if images[k - 1] < stats.len() {
            stats[images[k - 1] as int].num_visible_points3d as nat
        } else {
            0
        })
    }
}

/// Whether the frame of an image can be registered as a whole: it belongs to a
/// rig of several sensors, has several images, all of them with plausible
/// cameras of known focal length, and together they see enough points.
pub open spec fn frame_registration_applies(
    r: ReconstructionView,
    image: usize,
    min_points: usize,
    stats: Seq<ImageStat>,
    prior_flags: Seq<bool>,
    registrations: StatsView,
) -> bool {
    &&& in_non_trivial_rig(r, image)
    &&& r.frame_of(image as int) matches Some(frame) && {
        let images = r.images_of_frame(frame);
        &&& images.len() >= 2
        &&& forall|i: int|
            0 <= i < images.len() ==> !(r.camera_of((#[trigger] images[i]) as int).bogus)
                && good_focal_length(r, images[i], prior_flags, registrations)
        &&& visible_points(stats, images, images.len()) >= min_points
    }
}

pub fn generalized_frame_registration_applicable(
    image: usize,
    reconstruction: &Reconstruction,
    config: &MapperConfig,
    observation_manager: &ObservationManager,
    camera_has_prior_focal_length: &[bool],
    registration_stats: &RegistrationStats,
) -> (b: bool)
    ensures
        b == frame_registration_applies(
            reconstruction@,
            image,
            config.abs_pose_min_num_inliers,
            observation_manager.image_stats(),
            camera_has_prior_focal_length@,
            registration_stats@,
        ),
{
    let ghost r = reconstruction@;
    let ghost stats = observation_manager.image_stats();
    let ghost flags = camera_has_prior_focal_length@;
    if !non_trivial_registration_rig(reconstruction, image) {
        return false;
    }
    let frame: usize = match reconstruction.frame_index_for_image(image) {
        Some(frame) => frame,
        None => {
            return false;
        },
    };
    let images: Vec<usize> = reconstruction.image_indices_for_frame_index(frame);
    if images.len() < 2 {
        return false;
    }
    for i in 0..images.len()
        invariant
            r == reconstruction@,
            flags == camera_has_prior_focal_length@,
            r.frame_of(image as int) == Some(frame),
            images@ == r.images_of_frame(frame),
            forall|j: int|
                0 <= j < i ==> !(r.camera_of((#[trigger] images@[j]) as int).bogus)
                    && good_focal_length(r, images@[j], flags, registration_stats@),
    {
        if reconstruction.camera_for_image(images[i]).bogus
            || !frame_image_camera_has_good_focal_length(
            images[i],
            reconstruction,
            camera_has_prior_focal_length,
            registration_stats,
        ) {
            assert(r.camera_of(images@[i as int] as int).bogus || !good_focal_length(
                r,
                images@[i as int],
                flags,
                registration_stats@,
            ));
            return false;
        }
    }
    let wanted: usize = config.abs_pose_min_num_inliers;
    let mut missing: usize = wanted;
    for i in 0..images.len()
        invariant
            r == reconstruction@,
            stats == observation_manager.image_stats(),
            missing <= wanted,
            missing > 0 ==> visible_points(stats, images@, i as nat) == wanted - missing,
            missing == 0 ==> visible_points(stats, images@, i as nat) >= wanted,
    {
        let visible: usize = observation_manager.num_visible_points3d(images[i]);
        missing = if visible >= missing {
            0
        } else {
            missing - visible
        };
    }
    missing == 0
}

/// A feature of an image in a frame, and the point it presumably observes.
#[derive(Debug, Clone, Copy, PartialEq, Eq, Structural)]
pub struct GeneralizedFrameInlier {
    pub image: usize,
    pub feature: usize,
    pub point_id: usize,
}

impl Ranked for GeneralizedFrameInlier {
    /// Ascending by image, feature and point.
    open spec fn before(self, other: GeneralizedFrameInlier) -> bool {
        if self.image != other.image {
            self.image < other.image
        } else if self.feature != other.feature {
            self.feature < other.feature
        } else {
            self.point_id < other.point_id
        }
    }

    proof fn asymmetric(a: GeneralizedFrameInlier, b: GeneralizedFrameInlier) {
    }

    proof fn negatively_transitive(
        a: GeneralizedFrameInlier,
        b: GeneralizedFrameInlier,
        c: GeneralizedFrameInlier,
    ) {
    }

    fn precedes(&self, other: &GeneralizedFrameInlier) -> (b: bool) {
        if self.image != other.image {
            self.image < other.image
        } else if self.feature != other.feature {
            self.feature < other.feature
        } else {
            self.point_id < other.point_id
        }
    }
}

/// Whether data of a frame is an image with an identifier.
pub open spec fn is_image_data(data: crate::types::DataId, image_id: u32) -> bool {
    data.sensor_id.sensor_type == SensorType::Camera && data.data_id == image_id as u64
}

/// The sensor of the first data from position `from` on that is the image.
pub open spec fn image_sensor(
    data: Seq<crate::types::DataId>,
    image_id: u32,
    from: int,
) -> Option<SensorId>
    decreases data.len() - from,
{
    if from < 0 || from >= data.len() {
        None
    } else if is_image_data(data[from], image_id) {
        Some(data[from].sensor_id)
    } else {
        image_sensor(data, image_id, from + 1)
    }
}

/// The sensor that took an image of a frame.
pub open spec fn frame_sensor(r: ReconstructionView, frame: usize, image: usize) -> Option<
    SensorId,
> {
    if frame < r.frames.len() {
        image_sensor(r.frames[frame as int].data_ids@, r.image_id_of(image as int), 0)
    } else {
        None
    }
}

pub fn frame_sensor_id_for_image(
    reconstruction: &Reconstruction,
    frame_idx: usize,
    image: usize,
) -> (sensor: Option<SensorId>)
    ensures
        sensor == frame_sensor(reconstruction@, frame_idx, image),
{
    if frame_idx >= reconstruction.frames.len() {
        return None;
    }
    let image_id: u32 = reconstruction.image_id(image);
    let data = &reconstruction.frames[frame_idx].data_ids;
    let n: usize = data.len();
    let mut k: usize = 0;
    while k < n
        invariant
            n == data@.len(),
            k <= n,
            frame_idx < reconstruction@.frames.len(),
            data@ == reconstruction@.frames[frame_idx as int].data_ids@,
            image_id == reconstruction@.image_id_of(image as int),
            image_sensor(data@, image_id, 0) == image_sensor(data@, image_id, k as int),
        decreases n - k,
    {
        if data[k].sensor_id.sensor_type == SensorType::Camera && data[k].data_id
            == image_id as u64 {
            return Some(data[k].sensor_id);
        }
        k = k + 1;
    }
    None
}

/// The pose of the first sensor from position `from` on with an identifier.
pub open spec fn listed_sensor_pose(
    sensors: Seq<crate::types::RigSensor>,
    sensor: SensorId,
    from: int,
) -> Option<Rigid3>
    decreases sensors.len() - from,
{
    if from < 0 || from >= sensors.len() {
        None
    } else if sensors[from].sensor_id == sensor {
        sensors[from].sensor_from_rig
    } else {
        listed_sensor_pose(sensors, sensor, from + 1)
    }
}

/// The pose of a sensor in the first rig from position `from` on with an
/// identifier. A sensor without one sits at the origin of its rig.
pub open spec fn sensor_pose(rigs: Seq<Rig>, rig_id: u32, sensor: SensorId, from: int) -> Option<
    Rigid3,
>
    decreases rigs.len() - from,
{
    if from < 0 || from >= rigs.len() {
        None
    } else if rigs[from].rig_id == rig_id {
        listed_sensor_pose(rigs[from].sensors@, sensor, 0)
    } else {
        sensor_pose(rigs, rig_id, sensor, from + 1)
    }
}

pub fn sensor_from_rig(reconstruction: &Reconstruction, rig_id: u32, sensor: SensorId) -> (pose:
    Option<Rigid3>)
    ensures
        pose == sensor_pose(reconstruction@.rigs, rig_id, sensor, 0),
{
    let rigs = &reconstruction.rigs;
    let n: usize = rigs.len();
    let mut k: usize = 0;
    while k < n
        invariant
            n == rigs@.len(),
            k <= n,
            rigs@ == reconstruction@.rigs,
            sensor_pose(rigs@, rig_id, sensor, 0) == sensor_pose(rigs@, rig_id, sensor, k as int),
        decreases n - k,
    {
        if rigs[k].rig_id == rig_id {
            let sensors = &rigs[k].sensors;
            let m: usize = sensors.len();
            let mut i: usize = 0;
            while i < m
                invariant
                    m == sensors@.len(),
                    i <= m,
                    rigs@ == reconstruction@.rigs,
                    sensor_pose(rigs@, rig_id, sensor, 0) == listed_sensor_pose(
                        sensors@,
                        sensor,
                        0,
                    ),
                    listed_sensor_pose(sensors@, sensor, 0) == listed_sensor_pose(
                        sensors@,
                        sensor,
                        i as int,
                    ),
                decreases m - i,
            {
                if sensors[i].sensor_id == sensor {
                    return sensors[i].sensor_from_rig;
                }
                i = i + 1;
            }
            return None;
        }
        k = k + 1;
    }
    None
}

/// An image of a frame with the pose of its sensor.
#[derive(Debug, Clone, Copy)]
pub struct FrameImage {
    pub image: usize,
    pub sensor_from_rig: Option<Rigid3>,
}

/// The images of a frame whose sensors are known, among its first `k`.
pub open spec fn posed_images(
    r: ReconstructionView,
    frame: usize,
    images: Seq<usize>,
    k: nat,
) -> Seq<FrameImage>
    decreases k,
{
    if k == 0 {
        Seq::empty()
    } else {
        let rest = posed_images(r, frame, images, (k - 1) as nat);
        match frame_sensor(r, frame, images[k - 1]) {
            Some(sensor) => rest.push(
                FrameImage {
                    image: images[k - 1],
                    sensor_from_rig: sensor_pose(
                        r.rigs,
                        r.frames[frame as int].rig_id,
                        sensor,
                        0,
                    ),
                },
            ),
            None => rest,
        }
    }
}

/// The images that follow the pose of a frame.
pub fn frame_images(reconstruction: &Reconstruction, frame_idx: usize) -> (images: Vec<FrameImage>)
    ensures
        images@ == posed_images(
            reconstruction@,
            frame_idx,
            reconstruction@.images_of_frame(frame_idx),
            reconstruction@.images_of_frame(frame_idx).len(),
        ),
{
    let ghost r = reconstruction@;
    let listed: Vec<usize> = reconstruction.image_indices_for_frame_index(frame_idx);
    let mut images: Vec<FrameImage> = Vec::new();
    for k in 0..listed.len()
        invariant
            r == reconstruction@,
            images@ == posed_images(r, frame_idx, listed@, k as nat),
    {
        if let Some(sensor) = frame_sensor_id_for_image(reconstruction, frame_idx, listed[k]) {
            let pose: Option<Rigid3> = sensor_from_rig(
                reconstruction,
                reconstruction.frames[frame_idx].rig_id,
                sensor,
            );
            images.push(FrameImage { image: listed[k], sensor_from_rig: pose });
        }
    }
    images
}

/// The image of a frame in a pair with an image outside of it: the image, the
/// other one, and whether the image is the left one.
pub open spec fn frame_side(images: Seq<usize>, pair: PairGeometry) -> Option<
    (usize, usize, bool),
> {
    if images.contains(pair.left) && !images.contains(pair.right) {
        Some((pair.left, pair.right, true))
    } else if !images.contains(pair.left) && images.contains(pair.right) {
        Some((pair.right, pair.left, false))
    } else {
        None
    }
}

/// Looks at one match: a feature matched to an observed point is found once.
pub open spec fn frame_match(
    found: Seq<GeneralizedFrameInlier>,
    frames: Seq<ImageFrame>,
    r: ReconstructionView,
    image: usize,
    feature: usize,
    other: usize,
    other_feature: usize,
) -> Seq<GeneralizedFrameInlier> {
    match r.observed(other as int, other_feature as int) {
        Some(point_id) => {
            let inlier = GeneralizedFrameInlier { image, feature, point_id };
            if has_feature(frames, image as int, feature as int) && point_id < r.points.len()
                && !found.contains(inlier) {
                found.push(inlier)
            } else {
                found
            }
        },
        None => found,
    }
}

/// Looks at the first `k` inlier matches of a pair.
pub open spec fn frame_matches(
    found: Seq<GeneralizedFrameInlier>,
    frames: Seq<ImageFrame>,
    r: ReconstructionView,
    pair: PairGeometry,
    side: (usize, usize, bool),
    k: nat,
) -> Seq<GeneralizedFrameInlier>
    decreases k,
{
    if k == 0 {
        found
    } else {
        let (feature, other_feature) = match_features(pair.inlier_matches@[k - 1], side.2);
        frame_match(
            frame_matches(found, frames, r, pair, side, (k - 1) as nat),
            frames,
            r,
            side.0,
            feature,
            side.1,
            other_feature,
        )
    }
}

/// The correspondences that the first `k` pairs give the images of a frame.
pub open spec fn frame_correspondences(
    frames: Seq<ImageFrame>,
    pairs: Seq<PairGeometry>,
    r: ReconstructionView,
    images: Seq<usize>,
    k: nat,
) -> Seq<GeneralizedFrameInlier>
    decreases k,
{
    if k == 0 {
        Seq::empty()
    } else {
        let rest = frame_correspondences(frames, pairs, r, images, (k - 1) as nat);
        let pair = pairs[k - 1];
        match frame_side(images, pair) {
            Some(side) => if supports(r, side.1) {
                frame_matches(rest, frames, r, pair, side, pair.inlier_matches@.len())
            } else {
                rest
            },
            None => rest,
        }
    }
}

fn holds_inlier(list: &Vec<GeneralizedFrameInlier>, inlier: GeneralizedFrameInlier) -> (b: bool)
    ensures
        b == list@.contains(inlier),
{
    for k in 0..list.len()
        invariant
            forall|j: int| 0 <= j < k ==> list@[j] != inlier,
    {
        if list[k] == inlier {
            assert(list@[k as int] == inlier);
            return true;
        }
    }
    false
}

/// The correspondences of a frame. `camera_idxs` gives, for each of them, the
/// position of its image among `images`.
#[derive(Debug)]
pub struct GeneralizedFrameProblem {
    pub images: Vec<FrameImage>,
    pub camera_idxs: Vec<usize>,
    pub correspondences: Vec<GeneralizedFrameInlier>,
}

/// Whether all images of a frame have sensors.
pub open spec fn sensors_known(r: ReconstructionView, frame: usize, images: Seq<usize>) -> bool {
    forall|i: int|
        0 <= i < images.len() ==> frame_sensor(r, frame, #[trigger] images[i]) is Some
}

proof fn lemma_posed_images(r: ReconstructionView, frame: usize, images: Seq<usize>, k: nat)
    requires
        k <= images.len(),
    ensures
        posed_images(r, frame, images, k).len() <= k,
        posed_images(r, frame, images, k).len() == k <==> forall|i: int|
            0 <= i < k ==> frame_sensor(r, frame, #[trigger] images[i]) is Some,
    decreases k,
{
    if k > 0 {
        lemma_posed_images(r, frame, images, (k - 1) as nat);
        if frame_sensor(r, frame, images[k - 1]) is Some {
            if forall|i: int|
                0 <= i < k - 1 ==> frame_sensor(r, frame, #[trigger] images[i]) is Some {
                assert forall|i: int| 0 <= i < k implies frame_sensor(
                    r,
                    frame,
                    #[trigger] images[i],
                ) is Some by {}
            }
        }
    }
}

/// Collects the correspondences of a frame. There is no problem to solve if the
/// frame is unknown, has no images or one of its images has no sensor.
pub fn collect_generalized_frame_absolute_pose_problem(
    frame_idx: usize,
    frames: &[ImageFrame],
    pairs: &[PairGeometry],
    reconstruction: &Reconstruction,
) -> (problem: Option<GeneralizedFrameProblem>)
    ensures
        ({
            let r = reconstruction@;
            let images = r.images_of_frame(frame_idx);
            &&& problem is Some <==> frame_idx < r.frames.len() && images.len() > 0
                && sensors_known(r, frame_idx, images)
            &&& problem matches Some(p) ==> {
                &&& p.images@ == posed_images(r, frame_idx, images, images.len())
                &&& p.correspondences@ == frame_correspondences(
                    frames@,
                    pairs@,
                    r,
                    images,
                    pairs@.len(),
                )
                &&& p.camera_idxs@ == Seq::new(
                    p.correspondences@.len(),
                    |i: int| position_of(images, p.correspondences@[i].image) as usize,
                )
            }
        }),
{
    let ghost r = reconstruction@;
    if frame_idx >= reconstruction.frames.len() {
        return None;
    }
    let members: Vec<usize> = reconstruction.image_indices_for_frame_index(frame_idx);
    let images: Vec<FrameImage> = frame_images(reconstruction, frame_idx);
    proof {
        lemma_posed_images(r, frame_idx, members@, members@.len());
    }
    if members.len() == 0 || images.len() != members.len() {
        return None;
    }
    let mut correspondences: Vec<GeneralizedFrameInlier> = Vec::new();
    for p in 0..pairs.len()
        invariant
            r == reconstruction@,
            correspondences@ == frame_correspondences(frames@, pairs@, r, members@, p as nat),
    {
        let pair = &pairs[p];
        let left: bool = holds(&members, pair.left);
        let right: bool = holds(&members, pair.right);
        if left != right {
            let (image, other): (usize, usize) = if left {
                (pair.left, pair.right)
            } else {
                (pair.right, pair.left)
            };
            if reconstruction.is_registered(other) && !reconstruction.camera_for_image(
                other,
            ).bogus {
                let ghost start = correspondences@;
                for k in 0..pair.inlier_matches.len()
                    invariant
                        r == reconstruction@,
                        correspondences@ == frame_matches(
                            start,
                            frames@,
                            r,
                            *pair,
                            (image, other, left),
                            k as nat,
                        ),
                {
                    let (feature, other_feature): (usize, usize) = features_of_match(
                        &pair.inlier_matches[k],
                        left,
                    );
                    if let Some(point_id) = reconstruction.observed_point(other, other_feature) {
                        let inlier = GeneralizedFrameInlier { image, feature, point_id };
                        if image < frames.len() && feature < frames[image].keypoints.len()
                            && point_id < reconstruction.points.len() && !holds_inlier(
                            &correspondences,
                            inlier,
                        ) {
                            correspondences.push(inlier);
                        }
                    }
                }
            }
        }
    }
    let mut camera_idxs: Vec<usize> = Vec::new();
    for i in 0..correspondences.len()
        invariant
            camera_idxs@ == Seq::new(
                i as nat,
                |j: int| position_of(members@, correspondences@[j].image) as usize,
            ),
    {
        let position: usize = find_position(&members, correspondences[i].image);
        camera_idxs.push(position);
        assert(camera_idxs@ =~= Seq::new(
            (i + 1) as nat,
            |j: int| position_of(members@, correspondences@[j].image) as usize,
        ));
    }
    Some(GeneralizedFrameProblem { images, camera_idxs, correspondences })
}

/// No correspondence of a frame occurs twice, and each joins an existing
/// feature of the frame to an existing point.
pub proof fn law_frame_correspondences_distinct(
    frames: Seq<ImageFrame>,
    pairs: Seq<PairGeometry>,
    r: ReconstructionView,
    images: Seq<usize>,
    k: nat,
)
    requires
        k <= pairs.len(),
    ensures
        ({
            let found = frame_correspondences(frames, pairs, r, images, k);
            &&& found.no_duplicates()
            &&& forall|i: int|
                0 <= i < found.len() ==> images.contains((#[trigger] found[i]).image)
                    && has_feature(frames, found[i].image as int, found[i].feature as int)
                    && found[i].point_id < r.points.len()
        }),
    decreases k,
{
    if k > 0 {
        law_frame_correspondences_distinct(frames, pairs, r, images, (k - 1) as nat);
        let rest = frame_correspondences(frames, pairs, r, images, (k - 1) as nat);
        let pair = pairs[k - 1];
        if let Some(side) = frame_side(images, pair) {
            if supports(r, side.1) {
                lemma_frame_matches_distinct(
                    rest,
                    frames,
                    r,
                    images,
                    pair,
                    side,
                    pair.inlier_matches@.len(),
                );
            }
        }
    }
}

proof fn lemma_frame_matches_distinct(
    found: Seq<GeneralizedFrameInlier>,
    frames: Seq<ImageFrame>,
    r: ReconstructionView,
    images: Seq<usize>,
    pair: PairGeometry,
    side: (usize, usize, bool),
    k: nat,
)
    requires
        images.contains(side.0),
        found.no_duplicates(),
        forall|i: int|
            0 <= i < found.len() ==> images.contains((#[trigger] found[i]).image) && has_feature(
                frames,
                found[i].image as int,
                found[i].feature as int,
            ) && found[i].point_id < r.points.len(),
    ensures
        ({
            let all = frame_matches(found, frames, r, pair, side, k);
            &&& all.no_duplicates()
            &&& forall|i: int|
                0 <= i < all.len() ==> images.contains((#[trigger] all[i]).image) && has_feature(
                    frames,
                    all[i].image as int,
                    all[i].feature as int,
                ) && all[i].point_id < r.points.len()
        }),
    decreases k,
{
    if k > 0 {
        lemma_frame_matches_distinct(found, frames, r, images, pair, side, (k - 1) as nat);
    }
}

/// The points of a list of correspondences.
pub open spec fn points_of(inliers: Seq<GeneralizedFrameInlier>) -> Seq<usize> {
    Seq::new(inliers.len(), |i: int| inliers[i].point_id)
}

pub fn unique_generalized_frame_point_count(inliers: &Vec<GeneralizedFrameInlier>) -> (n: usize)
    ensures
        n == points_of(inliers@).to_set().len(),
{
    let mut points: Vec<usize> = Vec::new();
    for i in 0..inliers.len()
        invariant
            points@ == points_of(inliers@).take(i as int),
    {
        points.push(inliers[i].point_id);
        assert(points@ =~= points_of(inliers@).take(i + 1));
    }
    assert(points@ =~= points_of(inliers@));
    count_distinct(&points)
}

/// Whether a correspondence is among the marked ones.
pub open spec fn is_marked(
    list: Seq<GeneralizedFrameInlier>,
    mask: Seq<bool>,
    inlier: GeneralizedFrameInlier,
) -> bool {
    exists|i: int| 0 <= i < list.len() && #[trigger] marked(mask)(i) && list[i] == inlier
}

/// Whether a frame has enough correspondences to look for its pose.
pub fn enough_frame_correspondences(
    problem: &GeneralizedFrameProblem,
    config: &MapperConfig,
) -> (b: bool)
    ensures
        b <==> problem.correspondences@.len() >= config.abs_pose_min_num_inliers,
{
    problem.correspondences.len() >= config.abs_pose_min_num_inliers
}

/// The correspondences to refine the pose of a frame with: the marked ones, in
/// order. The pose is given up if the solver counts too few points behind it, if
/// the mask does not fit, or if too few points are marked.
pub fn initial_generalized_frame_inliers(
    correspondences: &Vec<GeneralizedFrameInlier>,
    num_unique_inliers: usize,
    inlier_mask: &[bool],
    config: &MapperConfig,
) -> (inliers: Option<Vec<GeneralizedFrameInlier>>)
    ensures
        inliers matches Some(list) ==> {
            &&& strictly_sorted(list@)
            &&& forall|x: GeneralizedFrameInlier| #[trigger]
                list@.contains(x) <==> is_marked(correspondences@, inlier_mask@, x)
        },
        inliers is Some <==> num_unique_inliers >= config.abs_pose_min_num_inliers
            && inlier_mask@.len() == correspondences@.len() && Set::new(
            |p: usize|
                exists|i: int|
                    0 <= i < correspondences@.len() && #[trigger] marked(inlier_mask@)(i)
                        && correspondences@[i].point_id == p,
        ).len() >= config.abs_pose_min_num_inliers,
{
    if num_unique_inliers < config.abs_pose_min_num_inliers || inlier_mask.len()
        != correspondences.len() {
        return None;
    }
    let mut chosen: Vec<GeneralizedFrameInlier> = Vec::new();
    for k in 0..correspondences.len()
        invariant
            inlier_mask@.len() == correspondences@.len(),
            forall|x: GeneralizedFrameInlier| #[trigger]
                chosen@.contains(x) <==> exists|i: int|
                    0 <= i < k && #[trigger] marked(inlier_mask@)(i) && correspondences@[i] == x,
    {
        let ghost before = chosen@;
        let inlier = correspondences[k];
        if inlier_mask[k] {
            chosen.push(inlier);
        }
        proof {
            let mask = inlier_mask@;
            let list = correspondences@;
            assert forall|x: GeneralizedFrameInlier| #[trigger] chosen@.contains(x) <==> exists|
                i: int,
            |
                0 <= i < k + 1 && #[trigger] marked(mask)(i) && list[i] == x by {
                if chosen@.contains(x) {
                    let j = choose|j: int| 0 <= j < chosen@.len() && chosen@[j] == x;
                    if j < before.len() {
                        assert(before[j] == x);
                        assert(before.contains(x));
                    } else {
                        assert(marked(mask)(k as int));
                    }
                }
                if exists|i: int| 0 <= i < k + 1 && #[trigger] marked(mask)(i) && list[i] == x {
                    let i = choose|i: int|
                        0 <= i < k + 1 && #[trigger] marked(mask)(i) && list[i] == x;
                    if i < k {
                        assert(before.contains(x));
                        let j = choose|j: int| 0 <= j < before.len() && before[j] == x;
                        assert(chosen@[j] == x);
                    } else {
                        assert(chosen@[before.len() as int] == x);
                    }
                }
            }
        }
    }
    assert(ranks_all::<GeneralizedFrameInlier>());
    let list: Vec<GeneralizedFrameInlier> = sort_distinct(chosen);
    let count: usize = unique_generalized_frame_point_count(&list);
    proof {
        let mask = inlier_mask@;
        let all = correspondences@;
        let points = Set::new(
            |p: usize|
                exists|i: int|
                    0 <= i < all.len() && #[trigger] marked(mask)(i) && all[i].point_id == p,
        );
        assert forall|p: usize| points_of(list@).to_set().contains(p) <==> points.contains(p) by {
            let listed = points_of(list@);
            if listed.contains(p) {
                let j = choose|j: int| 0 <= j < listed.len() && listed[j] == p;
                assert(list@.contains(list@[j]));
                assert(chosen@.contains(list@[j]));
            }
            if points.contains(p) {
                let i = choose|i: int|
                    0 <= i < all.len() && #[trigger] marked(mask)(i) && all[i].point_id == p;
                assert(chosen@.contains(all[i]));
                assert(list@.contains(all[i]));
                let j = choose|j: int| 0 <= j < list@.len() && list@[j] == all[i];
                assert(listed[j] == p);
                assert(listed.contains(p));
            }
        }
        assert(points_of(list@).to_set() =~= points);
    }
    if count < config.abs_pose_min_num_inliers {
        None
    } else {
        Some(list)
    }
}

/// Whether a refined pose of a frame is accepted: enough correspondences, of
/// enough different points, support it.
pub fn accept_generalized_frame_pose(
    inliers: &Vec<GeneralizedFrameInlier>,
    config: &MapperConfig,
) -> (b: bool)
    ensures
        b <==> points_of(inliers@).to_set().len() >= config.abs_pose_min_num_inliers
            && inliers@.len() >= config.abs_pose_min_num_inliers,
{
    unique_generalized_frame_point_count(inliers) >= config.abs_pose_min_num_inliers
        && inliers.len() >= config.abs_pose_min_num_inliers
}

/// The first pose of an image from position `from` on.
pub open spec fn pose_of_image(poses: Seq<(usize, Pose)>, image: usize, from: int) -> Option<Pose>
    decreases poses.len() - from,
{
    if from < 0 || from >= poses.len() {
        None
    } else if poses[from].0 == image {
        Some(poses[from].1)
    } else {
        pose_of_image(poses, image, from + 1)
    }
}

/// The pose of an image among those of its frame.
pub fn frame_image_pose(poses: &Vec<(usize, Pose)>, image: usize) -> (pose: Option<Pose>)
    ensures
        pose == pose_of_image(poses@, image, 0),
{
    let n: usize = poses.len();
    let mut k: usize = 0;
    while k < n
        invariant
            n == poses@.len(),
            k <= n,
            pose_of_image(poses@, image, 0) == pose_of_image(poses@, image, k as int),
        decreases n - k,
    {
        if poses[k].0 == image {
            return Some(poses[k].1);
        }
        k = k + 1;
    }
    None
}

/// A reconstruction being filled, with the points it was filled from.
#[verifier::ext_equal]
pub struct FrameScratch {
    pub r: ReconstructionView,
    pub sources: Seq<usize>,
}

/// Takes over a point, without its track.
pub open spec fn source_added(
    s: FrameScratch,
    origin: ReconstructionView,
    point: usize,
) -> FrameScratch {
    if s.sources.contains(point) {
        s
    } else {
        FrameScratch {
            r: ReconstructionView {
                points: s.r.points.push(
                    Point3DView { track: Seq::empty(), ..origin.points[point as int] },
                ),
                point_ids: s.r.point_ids.push(origin.point_id_of(point as int)),
                ..s.r
            },
            sources: s.sources.push(point),
        }
    }
}

/// Takes over a correspondence: its point if it exists, and its observation if
/// the feature exists and is free.
pub open spec fn correspondence_added(
    s: FrameScratch,
    origin: ReconstructionView,
    c: GeneralizedFrameInlier,
) -> FrameScratch {
    if c.point_id >= origin.points.len() {
        s
    } else {
        let t = source_added(s, origin, c.point_id);
        let obs = TrackObservation { image: c.image, feature: c.feature };
        let index = position_of(t.sources, c.point_id);
        if !t.r.has_slot(obs) || t.r.observed(c.image as int, c.feature as int) is Some {
            t
        } else {
            FrameScratch {
                r: with_track(
                    with_slot(t.r, c.image as int, c.feature as int, Some(index as usize)),
                    index as int,
                    t.r.points[index as int].track.push(obs),
                ),
                ..t
            }
        }
    }
}

/// Takes over the marked ones of the first `k` correspondences.
pub open spec fn correspondences_added(
    s: FrameScratch,
    origin: ReconstructionView,
    list: Seq<GeneralizedFrameInlier>,
    mask: Seq<bool>,
    k: nat,
) -> FrameScratch
    decreases k,
{
    if k == 0 {
        s
    } else {
        let rest = correspondences_added(s, origin, list, mask, (k - 1) as nat);
        if marked(mask)(k - 1) {
            correspondence_added(rest, origin, list[k - 1])
        } else {
            rest
        }
    }
}

/// The poses with those of some images replaced; unknown images are skipped.
pub open spec fn poses_set(
    poses: Seq<Option<Pose>>,
    new_poses: Seq<(usize, Pose)>,
    k: nat,
) -> Seq<Option<Pose>>
    decreases k,
{
    if k == 0 {
        poses
    } else {
        let rest = poses_set(poses, new_poses, (k - 1) as nat);
        let (image, pose) = new_poses[k - 1];
        if image < rest.len() {
            rest.update(image as int, Some(pose))
        } else {
            rest
        }
    }
}

/// An empty reconstruction with a frame at a pose.
pub open spec fn frame_posed(
    r: ReconstructionView,
    frame: usize,
    rig_from_world: Rigid3,
    new_poses: Seq<(usize, Pose)>,
) -> ReconstructionView {
    ReconstructionView {
        frames: if frame < r.frames.len() {
            r.frames.update(
                frame as int,
                crate::types::Frame { rig_from_world, ..r.frames[frame as int] },
            )
        } else {
            r.frames
        },
        poses: poses_set(r.poses, new_poses, new_poses.len()),
        observations: free_table(r.keypoints),
        point_ids: Seq::empty(),
        points: Seq::empty(),
        ..r
    }
}

fn add_source(
    scratch: &mut Reconstruction,
    sources: &mut Vec<usize>,
    origin: &Reconstruction,
    point: usize,
) -> (index: usize)
    requires
        old(scratch)@.points.len() == old(sources)@.len(),
        point < origin@.points.len(),
    ensures
        ({
            let s = FrameScratch { r: old(scratch)@, sources: old(sources)@ };
            let t = source_added(s, origin@, point);
            &&& final(scratch)@ == t.r
            &&& final(sources)@ == t.sources
            &&& index == position_of(t.sources, point)
            &&& index < final(sources)@.len()
        }),
        final(scratch)@.points.len() == final(sources)@.len(),
{
    let found: usize = find_position(sources, point);
    if found < sources.len() {
        assert(sources@[found as int] == point);
        return found;
    }
    let ghost before = scratch.points@;
    let source = &origin.points[point];
    let made = Point3D {
        xyz: source.xyz,
        color: source.color,
        error: source.error,
        track: Vec::new(),
    };
    let id: u64 = origin.point3d_id(point);
    scratch.points.push(made);
    scratch.point_ids.push(id);
    sources.push(point);
    proof {
        assert(points_view(scratch.points@) =~= points_view(before).push(made@));
        assert(origin@.points[point as int] == origin.points@[point as int]@);
        let s = FrameScratch { r: old(scratch)@, sources: old(sources)@ };
        assert(made@ =~= (Point3DView { track: Seq::empty(), ..origin@.points[point as int] }));
        assert(scratch@ =~= source_added(s, origin@, point).r);
        lemma_position_of_push(old(sources)@, point);
    }
    found
}

proof fn lemma_position_of_push(list: Seq<usize>, x: usize)
    requires
        !list.contains(x),
    ensures
        position_of(list.push(x), x) == list.len(),
    decreases list.len(),
{
    if list.len() > 0 {
        assert(list.contains(list[0]));
        let rest = list.skip(1);
        assert(!rest.contains(x)) by {
            if rest.contains(x) {
                let j = choose|j: int| 0 <= j < rest.len() && rest[j] == x;
                assert(list[j + 1] == x);
            }
        }
        lemma_position_of_push(rest, x);
        assert(list.push(x).skip(1) =~= rest.push(x));
    } else {
        assert(list.push(x)[0] == x);
    }
}

/// Turns a copy of a reconstruction into one that holds only a frame at a pose
/// and its marked correspondences. `false` if no point came along.
pub fn generalized_frame_refinement_reconstruction(
    scratch: &mut Reconstruction,
    frame_idx: usize,
    reconstruction: &Reconstruction,
    correspondences: &Vec<GeneralizedFrameInlier>,
    rig_from_world: Rigid3,
    frame_image_poses: &Vec<(usize, Pose)>,
    inlier_mask: &[bool],
) -> (usable: bool)
    requires
        old(scratch)@ == reconstruction@,
    ensures
        ({
            let start = FrameScratch {
                r: frame_posed(
                    reconstruction@,
                    frame_idx,
                    rig_from_world,
                    frame_image_poses@,
                ),
                sources: Seq::empty(),
            };
            let end = correspondences_added(
                start,
                reconstruction@,
                correspondences@,
                inlier_mask@,
                correspondences@.len(),
            );
            &&& final(scratch)@ == end.r
            &&& usable == (end.r.points.len() > 0)
        }),
{
    let ghost origin = reconstruction@;
    clear_structure(scratch);
    let ghost base = scratch@;
    for k in 0..frame_image_poses.len()
        invariant
            scratch@ == (ReconstructionView {
                poses: poses_set(base.poses, frame_image_poses@, k as nat),
                ..base
            }),
    {
        let (image, pose): (usize, Pose) = frame_image_poses[k];
        if image < scratch.poses.len() {
            scratch.poses[image] = Some(pose);
        }
    }
    let ghost posed = scratch@;
    if frame_idx < scratch.frames.len() {
        scratch.frames[frame_idx].rig_from_world = rig_from_world;
    }
    let ghost start = FrameScratch {
        r: frame_posed(origin, frame_idx, rig_from_world, frame_image_poses@),
        sources: Seq::empty(),
    };
    proof {
        assert(scratch@.frames =~= start.r.frames);
        assert(scratch@ =~= start.r);
    }
    let mut sources: Vec<usize> = Vec::new();
    for k in 0..correspondences.len()
        invariant
            origin == reconstruction@,
            ({
                let s = correspondences_added(
                    start,
                    origin,
                    correspondences@,
                    inlier_mask@,
                    k as nat,
                );
                scratch@ == s.r && sources@ == s.sources
            }),
            scratch@.points.len() == sources@.len(),
    {
        let c = correspondences[k];
        if k < inlier_mask.len() && inlier_mask[k] {
            if c.point_id < reconstruction.points.len() {
                let index: usize = add_source(scratch, &mut sources, reconstruction, c.point_id);
                if c.image < scratch.observations.len() && c.feature
                    < scratch.observations[c.image].len()
                    && scratch.observations[c.image][c.feature].is_none() {
                    set_slot(scratch, c.image, c.feature, Some(index));
                    push_to_track(
                        scratch,
                        index,
                        TrackObservation { image: c.image, feature: c.feature },
                    );
                }
            }
        }
    }
    scratch.points.len() > 0
}

} // verus!
