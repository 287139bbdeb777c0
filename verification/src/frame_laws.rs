//! Registration of whole frames, said of sensors, matches and points themselves.

use crate::absolute_pose::{marked, match_features, supports};
use crate::generalized_frame::{
    correspondence_added, correspondences_added, frame_correspondences, frame_match, frame_matches,
    frame_posed, frame_registration_applies, frame_sensor, frame_side, good_focal_length,
    image_sensor, listed_sensor_pose, pose_of_image, posed_images, sensor_pose, source_added,
    visible_points, FrameImage, FrameScratch, GeneralizedFrameInlier,
};
use crate::initial_pair::in_non_trivial_rig;
use crate::observation_manager::ImageStat;
use crate::pose_laws::is_settled_camera;
use crate::registration_stats::StatsView;
use crate::seed_laws::focal_known;
use crate::support_laws::law_first_position;
use crate::types::{
    DataId, ImageFrame, PairGeometry, Pose, ReconstructionView, Rig, RigSensor, Rigid3, SensorId,
    SensorType,
};
use vstd::prelude::*;

verus! {

/// The focal length of an image is good just if it is known or a registered image
/// has settled its camera.
pub proof fn law_good_focal_lengths(
    r: ReconstructionView,
    image: usize,
    flags: Seq<bool>,
    stats: StatsView,
)
    ensures
        good_focal_length(r, image, flags, stats) <==> focal_known(r, flags, image)
            || is_settled_camera(stats, r.camera_id_of(image as int)),
{
}

/// A frame is registered as a whole only if it has several images, all with
/// plausible cameras of good focal length, that see enough points together.
pub proof fn law_frame_registration(
    r: ReconstructionView,
    image: usize,
    min_points: usize,
    stats: Seq<ImageStat>,
    flags: Seq<bool>,
    registrations: StatsView,
)
    ensures
        r.frame_of(image as int) is None ==> !frame_registration_applies(
            r,
            image,
            min_points,
            stats,
            flags,
            registrations,
        ),
        frame_registration_applies(r, image, min_points, stats, flags, registrations) ==> {
            let images = r.images_of_frame(r.frame_of(image as int)->0);
            &&& images.len() > 1
            &&& forall|i: int|
                0 <= i < images.len() ==> !r.camera_of(#[trigger] images[i] as int).bogus
            &&& forall|i: int|
                0 <= i < images.len() ==> focal_known(r, flags, #[trigger] images[i])
                    || is_settled_camera(registrations, r.camera_id_of(images[i] as int))
            &&& visible_points(stats, images, images.len()) >= min_points
        },
        r.frame_of(image as int) is Some && in_non_trivial_rig(r, image) && {
            let images = r.images_of_frame(r.frame_of(image as int)->0);
            &&& images.len() > 1
            &&& forall|i: int|
                0 <= i < images.len() ==> !r.camera_of(#[trigger] images[i] as int).bogus
            &&& forall|i: int|
                0 <= i < images.len() ==> focal_known(r, flags, #[trigger] images[i])
            &&& visible_points(stats, images, images.len()) >= min_points
        } ==> frame_registration_applies(r, image, min_points, stats, flags, registrations),
{
}

/// Visible points add up one image after the other.
pub proof fn law_visible_points_add_up(stats: Seq<ImageStat>, images: Seq<usize>, image: usize)
    ensures
        visible_points(stats, images.push(image), images.len() + 1) == visible_points(
            stats,
            images,
            images.len(),
        ) + (if image < stats.len() {
            stats[image as int].num_visible_points3d as nat
        } else {
            0
        }),
        visible_points(stats, Seq::empty(), 0) == 0,
{
    lemma_visible_congruent(stats, images, images.push(image), images.len());
    assert(images.push(image)[images.len() as int] == image);
}

proof fn lemma_visible_congruent(stats: Seq<ImageStat>, a: Seq<usize>, b: Seq<usize>, k: nat)
    requires
        k <= a.len(),
        k <= b.len(),
        forall|i: int| 0 <= i < k ==> a[i] == b[i],
    ensures
        visible_points(stats, a, k) == visible_points(stats, b, k),
    decreases k,
{
    if k > 0 {
        lemma_visible_congruent(stats, a, b, (k - 1) as nat);
    }
}

/// The sensor of an image is that of the first data that a camera took under the
/// identifier of the image.
pub proof fn law_image_sensor(data: Seq<DataId>, image_id: u32, at: int)
    requires
        0 <= at < data.len(),
        data[at].sensor_id.sensor_type == SensorType::Camera,
        data[at].data_id == image_id as u64,
        forall|j: int|
            0 <= j < at ==> !((#[trigger] data[j]).sensor_id.sensor_type == SensorType::Camera
                && data[j].data_id == image_id as u64),
    ensures
        image_sensor(data, image_id, 0) == Some(data[at].sensor_id),
{
    lemma_image_sensor(data, image_id, at, 0);
}

proof fn lemma_image_sensor(data: Seq<DataId>, image_id: u32, at: int, from: int)
    requires
        0 <= from <= at < data.len(),
        data[at].sensor_id.sensor_type == SensorType::Camera,
        data[at].data_id == image_id as u64,
        forall|j: int|
            0 <= j < at ==> !((#[trigger] data[j]).sensor_id.sensor_type == SensorType::Camera
                && data[j].data_id == image_id as u64),
    ensures
        image_sensor(data, image_id, from) == Some(data[at].sensor_id),
    decreases at - from,
{
    if from < at {
        assert(!(data[from].sensor_id.sensor_type == SensorType::Camera && data[from].data_id
            == image_id as u64));
        lemma_image_sensor(data, image_id, at, from + 1);
    }
}

/// An image that no camera took data for has no sensor.
pub proof fn law_image_without_sensor(data: Seq<DataId>, image_id: u32, from: int)
    requires
        0 <= from,
        forall|j: int|
            from <= j < data.len() ==> !((#[trigger] data[j]).sensor_id.sensor_type
                == SensorType::Camera && data[j].data_id == image_id as u64),
    ensures
        image_sensor(data, image_id, from) is None,
    decreases data.len() - from,
{
    if from < data.len() {
        assert(!(data[from].sensor_id.sensor_type == SensorType::Camera && data[from].data_id
            == image_id as u64));
        law_image_without_sensor(data, image_id, from + 1);
    }
}

/// A sensor has the pose that the first entry of the first rig of the identifier
/// gives it.
pub proof fn law_sensor_pose(rigs: Seq<Rig>, rig_id: u32, sensor: SensorId, rig: int, at: int)
    requires
        0 <= rig < rigs.len(),
        rigs[rig].rig_id == rig_id,
        forall|j: int| 0 <= j < rig ==> (#[trigger] rigs[j]).rig_id != rig_id,
        0 <= at < rigs[rig].sensors@.len(),
        rigs[rig].sensors@[at].sensor_id == sensor,
        forall|j: int| 0 <= j < at ==> (#[trigger] rigs[rig].sensors@[j]).sensor_id != sensor,
    ensures
        sensor_pose(rigs, rig_id, sensor, 0) == rigs[rig].sensors@[at].sensor_from_rig,
{
    lemma_listed_pose(rigs[rig].sensors@, sensor, at, 0);
    lemma_rig_pose(rigs, rig_id, sensor, rig, 0);
}

proof fn lemma_listed_pose(sensors: Seq<RigSensor>, sensor: SensorId, at: int, from: int)
    requires
        0 <= from <= at < sensors.len(),
        sensors[at].sensor_id == sensor,
        forall|j: int| 0 <= j < at ==> (#[trigger] sensors[j]).sensor_id != sensor,
    ensures
        listed_sensor_pose(sensors, sensor, from) == sensors[at].sensor_from_rig,
    decreases at - from,
{
    if from < at {
        lemma_listed_pose(sensors, sensor, at, from + 1);
    }
}

proof fn lemma_rig_pose(rigs: Seq<Rig>, rig_id: u32, sensor: SensorId, rig: int, from: int)
    requires
        0 <= from <= rig < rigs.len(),
        rigs[rig].rig_id == rig_id,
        forall|j: int| 0 <= j < rig ==> (#[trigger] rigs[j]).rig_id != rig_id,
    ensures
        sensor_pose(rigs, rig_id, sensor, from) == listed_sensor_pose(
            rigs[rig].sensors@,
            sensor,
            0,
        ),
    decreases rig - from,
{
    if from < rig {
        lemma_rig_pose(rigs, rig_id, sensor, rig, from + 1);
    }
}

/// The images of a frame that follow its pose are those with a sensor, in order,
/// each with the pose of its sensor in the rig of the frame.
pub proof fn law_posed_images(
    r: ReconstructionView,
    frame: usize,
    images: Seq<usize>,
    k: nat,
    x: FrameImage,
)
    requires
        k <= images.len(),
    ensures
        posed_images(r, frame, images, k).len() <= k,
        posed_images(r, frame, images, k).contains(x) <==> exists|i: int|
            0 <= i < k && #[trigger] images[i] == x.image && frame_sensor(r, frame, x.image) is Some
                && x.sensor_from_rig == sensor_pose(
                r.rigs,
                r.frames[frame as int].rig_id,
                frame_sensor(r, frame, x.image)->0,
                0,
            ),
    decreases k,
{
    if k > 0 {
        law_posed_images(r, frame, images, (k - 1) as nat, x);
        let rest = posed_images(r, frame, images, (k - 1) as nat);
        let all = posed_images(r, frame, images, k);
        if rest.contains(x) {
            let y = choose|y: int| 0 <= y < rest.len() && rest[y] == x;
            assert(all[y] == x);
        }
        if all.contains(x) {
            let y = choose|y: int| 0 <= y < all.len() && all[y] == x;
            if y < rest.len() {
                assert(rest[y] == x);
                let i = choose|i: int|
                    0 <= i < k - 1 && #[trigger] images[i] == x.image && frame_sensor(
                        r,
                        frame,
                        x.image,
                    ) is Some && x.sensor_from_rig == sensor_pose(
                        r.rigs,
                        r.frames[frame as int].rig_id,
                        frame_sensor(r, frame, x.image)->0,
                        0,
                    );
                assert(images[i] == x.image);
            } else {
                assert(images[k - 1] == x.image);
            }
        }
        if images[k - 1] == x.image && frame_sensor(r, frame, x.image) is Some
            && x.sensor_from_rig == sensor_pose(
            r.rigs,
            r.frames[frame as int].rig_id,
            frame_sensor(r, frame, x.image)->0,
            0,
        ) {
            assert(all[rest.len() as int] == x);
        }
    }
}

/// Whether match `i` of a pair joins a feature of the frame, which exists, with a
/// feature of a registered image outside the frame that observes the point.
pub open spec fn gives(
    frames: Seq<ImageFrame>,
    r: ReconstructionView,
    images: Seq<usize>,
    pair: PairGeometry,
    i: int,
    x: GeneralizedFrameInlier,
) -> bool {
    let m = pair.inlier_matches@[i];
    let left = images.contains(pair.left);
    let other = if left {
        pair.right
    } else {
        pair.left
    };
    let other_feature = if left {
        m.train_idx as usize
    } else {
        m.query_idx as usize
    };
    &&& 0 <= i < pair.inlier_matches@.len()
    &&& left != images.contains(pair.right)
    &&& x.image == (if left {
        pair.left
    } else {
        pair.right
    })
    &&& x.feature == (if left {
        m.query_idx as usize
    } else {
        m.train_idx as usize
    })
    &&& r.registered(other as int)
    &&& !r.camera_of(other as int).bogus
    &&& r.observed(other as int, other_feature as int) == Some(x.point_id)
    &&& x.point_id < r.points.len()
    &&& x.image < frames.len()
    &&& x.feature < frames[x.image as int].keypoints@.len()
}

proof fn lemma_frame_matches(
    found: Seq<GeneralizedFrameInlier>,
    frames: Seq<ImageFrame>,
    r: ReconstructionView,
    images: Seq<usize>,
    pair: PairGeometry,
    side: (usize, usize, bool),
    k: nat,
    x: GeneralizedFrameInlier,
)
    requires
        k <= pair.inlier_matches@.len(),
        frame_side(images, pair) == Some(side),
        supports(r, side.1),
    ensures
        frame_matches(found, frames, r, pair, side, k).contains(x) <==> found.contains(x) || exists|
            i: int,
        |
            0 <= i < k && #[trigger] gives(frames, r, images, pair, i, x),
    decreases k,
{
    if k > 0 {
        lemma_frame_matches(found, frames, r, images, pair, side, (k - 1) as nat, x);
        let rest = frame_matches(found, frames, r, pair, side, (k - 1) as nat);
        let all = frame_matches(found, frames, r, pair, side, k);
        let (feature, other_feature) = match_features(pair.inlier_matches@[k - 1], side.2);
        assert(all == frame_match(rest, frames, r, side.0, feature, side.1, other_feature));
        if rest.contains(x) {
            let y = choose|y: int| 0 <= y < rest.len() && rest[y] == x;
            assert(all[y] == x);
        }
        if gives(frames, r, images, pair, k - 1, x) && !rest.contains(x) {
            assert(all[rest.len() as int] == x);
        }
        if all.contains(x) && !rest.contains(x) {
            let y = choose|y: int| 0 <= y < all.len() && all[y] == x;
            if y < rest.len() {
                assert(rest[y] == x);
            }
            assert(gives(frames, r, images, pair, k - 1, x));
        }
        if exists|i: int| 0 <= i < k && #[trigger] gives(frames, r, images, pair, i, x) {
            let i = choose|i: int| 0 <= i < k && #[trigger] gives(frames, r, images, pair, i, x);
            if i < k - 1 {
                assert(gives(frames, r, images, pair, i, x));
            }
        }
    }
}

/// The correspondences of a frame are those that a match of a pair gives.
pub proof fn law_frame_correspondences(
    frames: Seq<ImageFrame>,
    pairs: Seq<PairGeometry>,
    r: ReconstructionView,
    images: Seq<usize>,
    k: nat,
    x: GeneralizedFrameInlier,
)
    requires
        k <= pairs.len(),
    ensures
        frame_correspondences(frames, pairs, r, images, k).contains(x) <==> exists|j: int, i: int|
            0 <= j < k && #[trigger] gives(frames, r, images, pairs[j], i, x),
    decreases k,
{
    if k > 0 {
        law_frame_correspondences(frames, pairs, r, images, (k - 1) as nat, x);
        let rest = frame_correspondences(frames, pairs, r, images, (k - 1) as nat);
        let pair = pairs[k - 1];
        let n = pair.inlier_matches@.len();
        if frame_side(images, pair) is Some && supports(r, (frame_side(images, pair)->0).1) {
            let side = frame_side(images, pair)->0;
            lemma_frame_matches(rest, frames, r, images, pair, side, n, x);
            if exists|i: int| 0 <= i < n && #[trigger] gives(frames, r, images, pair, i, x) {
                let i = choose|i: int|
                    0 <= i < n && #[trigger] gives(frames, r, images, pair, i, x);
                assert(gives(frames, r, images, pairs[k - 1], i, x));
            }
        } else {
            assert forall|i: int| !#[trigger] gives(frames, r, images, pairs[k - 1], i, x) by {}
        }
        if exists|j: int, i: int|
            0 <= j < k && #[trigger] gives(frames, r, images, pairs[j], i, x) {
            let (j, i) = choose|j: int, i: int|
                0 <= j < k && #[trigger] gives(frames, r, images, pairs[j], i, x);
            assert(gives(frames, r, images, pairs[j], i, x));
        }
        if exists|j: int, i: int|
            0 <= j < k - 1 && #[trigger] gives(frames, r, images, pairs[j], i, x) {
            let (j, i) = choose|j: int, i: int|
                0 <= j < k - 1 && #[trigger] gives(frames, r, images, pairs[j], i, x);
            assert(gives(frames, r, images, pairs[j], i, x));
        }
    }
}

/// The pose of an image is the first that is named for it.
pub proof fn law_pose_of_image(poses: Seq<(usize, Pose)>, image: usize, from: int)
    requires
        0 <= from <= poses.len(),
    ensures
        pose_of_image(poses, image, from) is None <==> forall|j: int|
            from <= j < poses.len() ==> (#[trigger] poses[j]).0 != image,
        forall|i: int|
            from <= i < poses.len() && (#[trigger] poses[i]).0 == image && (forall|j: int|
                from <= j < i ==> (#[trigger] poses[j]).0 != image) ==> pose_of_image(
                poses,
                image,
                from,
            ) == Some(poses[i].1),
    decreases poses.len() - from,
{
    if from < poses.len() {
        if poses[from].0 != image {
            law_pose_of_image(poses, image, from + 1);
        } else {
            assert(poses[from].0 == image);
        }
    }
}

/// A frame is refined alone: it has the new pose, nothing is observed and there
/// are no points.
pub proof fn law_frame_alone(
    r: ReconstructionView,
    frame: usize,
    rig_from_world: Rigid3,
    new_poses: Seq<(usize, Pose)>,
    image: int,
    feature: int,
)
    requires
        frame < r.frames.len(),
    ensures
        ({
            let s = frame_posed(r, frame, rig_from_world, new_poses);
            &&& s.frames[frame as int].rig_from_world == rig_from_world
            &&& s.frames[frame as int].rig_id == r.frames[frame as int].rig_id
            &&& forall|f: int|
                0 <= f < r.frames.len() && f != frame ==> #[trigger] s.frames[f] == r.frames[f]
            &&& s.points.len() == 0 && s.point_ids.len() == 0
            &&& s.observed(image, feature) is None
            &&& s.observations.len() == r.keypoints.len()
        }),
{
}

/// Whether the points of a scratch model are those of the points it was filled
/// from, each once and at its place.
pub open spec fn holds_sources(s: FrameScratch, origin: ReconstructionView) -> bool {
    &&& s.r.points.len() == s.sources.len()
    &&& s.sources.no_duplicates()
    &&& forall|i: int|
        0 <= i < s.sources.len() ==> {
            &&& (#[trigger] s.sources[i]) < origin.points.len()
            &&& s.r.points[i].xyz == origin.points[s.sources[i] as int].xyz
        }
}

/// A scratch model is filled with the points of the marked correspondences and no
/// others.
pub proof fn law_scratch_sources(
    s: FrameScratch,
    origin: ReconstructionView,
    list: Seq<GeneralizedFrameInlier>,
    mask: Seq<bool>,
    k: nat,
    point: usize,
)
    requires
        k <= list.len(),
        holds_sources(s, origin),
        s.sources.len() == 0,
    ensures
        holds_sources(correspondences_added(s, origin, list, mask, k), origin),
        correspondences_added(s, origin, list, mask, k).sources.contains(point) <==> exists|i: int|
            0 <= i < k && i < mask.len() && mask[i] && (#[trigger] list[i]).point_id == point
                && point < origin.points.len(),
    decreases k,
{
    if k > 0 {
        law_scratch_sources(s, origin, list, mask, (k - 1) as nat, point);
        let rest = correspondences_added(s, origin, list, mask, (k - 1) as nat);
        let all = correspondences_added(s, origin, list, mask, k);
        let c = list[k - 1];
        if marked(mask)(k - 1) {
            assert(all == correspondence_added(rest, origin, c));
            if c.point_id < origin.points.len() {
                let t = source_added(rest, origin, c.point_id);
                law_first_position(t.sources, c.point_id);
                assert(t.sources.contains(c.point_id)) by {
                    if !rest.sources.contains(c.point_id) {
                        assert(t.sources[rest.sources.len() as int] == c.point_id);
                    }
                }
                assert(all.sources == t.sources);
                assert forall|i: int, j: int| 0 <= i < j < t.sources.len() implies t.sources[i]
                    != t.sources[j] by {
                    if j == rest.sources.len() {
                        assert(rest.sources.contains(rest.sources[i]));
                    }
                }
                assert forall|i: int| 0 <= i < all.sources.len() implies {
                    &&& (#[trigger] all.sources[i]) < origin.points.len()
                    &&& all.r.points[i].xyz == origin.points[all.sources[i] as int].xyz
                } by {
                    if i < rest.sources.len() {
                        assert(rest.sources[i] == all.sources[i]);
                    }
                }
                if rest.sources.contains(point) {
                    let i = choose|i: int| 0 <= i < rest.sources.len() && rest.sources[i] == point;
                    assert(t.sources[i] == point);
                }
                if t.sources.contains(point) && !rest.sources.contains(point) {
                    let i = choose|i: int| 0 <= i < t.sources.len() && t.sources[i] == point;
                    if i < rest.sources.len() {
                        assert(rest.sources[i] == point);
                    }
                    assert(list[k - 1].point_id == point);
                }
            }
        }
        if exists|i: int|
            0 <= i < k - 1 && i < mask.len() && mask[i] && (#[trigger] list[i]).point_id == point
                && point < origin.points.len() {
            let i = choose|i: int|
                0 <= i < k - 1 && i < mask.len() && mask[i] && (#[trigger] list[i]).point_id
                    == point && point < origin.points.len();
            assert(list[i].point_id == point);
        }
        if exists|i: int|
            0 <= i < k && i < mask.len() && mask[i] && (#[trigger] list[i]).point_id == point
                && point < origin.points.len() {
            let i = choose|i: int|
                0 <= i < k && i < mask.len() && mask[i] && (#[trigger] list[i]).point_id == point
                    && point < origin.points.len();
            if i < k - 1 {
                assert(list[i].point_id == point);
            }
        }
    }
}

/// A marked correspondence of an existing point whose feature has a free slot is
/// observed in the scratch model: the slot names the place of the point, and the
/// observation ends its track.
pub proof fn law_scratch_observation(
    s: FrameScratch,
    origin: ReconstructionView,
    c: GeneralizedFrameInlier,
)
    requires
        holds_sources(s, origin),
        s.sources.len() < usize::MAX,
        c.point_id < origin.points.len(),
        c.image < s.r.observations.len(),
        c.feature < s.r.observations[c.image as int].len(),
        s.r.observed(c.image as int, c.feature as int) is None,
    ensures
        ({
            let t = correspondence_added(s, origin, c);
            let place = t.r.observed(c.image as int, c.feature as int);
            &&& place is Some
            &&& place->0 < t.sources.len()
            &&& t.sources[place->0 as int] == c.point_id
            &&& t.r.points[place->0 as int].track.len() > 0
            &&& t.r.points[place->0 as int].track.last().image == c.image
            &&& t.r.points[place->0 as int].track.last().feature == c.feature
        }),
{
    let t = source_added(s, origin, c.point_id);
    law_first_position(t.sources, c.point_id);
    if !s.sources.contains(c.point_id) {
        assert(t.sources[s.sources.len() as int] == c.point_id);
    }
    assert(t.sources.contains(c.point_id));
}

} // verus!
