//! The data the mapper works on: images, verified pairs and the reconstruction.

use crate::indices::indices_where;
use crate::scalar::{Real32, Real64};
use vstd::prelude::*;

verus! {

/// A world-to-camera rigid motion: unit quaternion (w, x, y, z) and translation.
#[derive(Clone, Copy, Debug, PartialEq, Eq, Structural)]
pub struct Pose {
    pub qw: Real32,
    pub qx: Real32,
    pub qy: Real32,
    pub qz: Real32,
    pub tx: Real32,
    pub ty: Real32,
    pub tz: Real32,
}

/// A double precision rigid motion of a frame or of a rig sensor.
#[derive(Clone, Copy, Debug)]
pub struct Rigid3 {
    pub qvec: [Real64; 4],
    pub tvec: [Real64; 3],
}

#[derive(Clone, Copy, Debug, PartialEq, Eq, Structural)]
pub enum SensorType {
    Invalid,
    Camera,
    Imu,
    Other(i32),
}

#[derive(Clone, Copy, Debug, PartialEq, Eq, Structural)]
pub struct SensorId {
    pub sensor_type: SensorType,
    pub sensor_id: u32,
}

#[derive(Clone, Copy, Debug)]
pub struct RigSensor {
    pub sensor_id: SensorId,
    pub sensor_from_rig: Option<Rigid3>,
}

#[derive(Clone, Debug)]
pub struct Rig {
    pub rig_id: u32,
    pub ref_sensor_id: Option<SensorId>,
    pub sensors: Vec<RigSensor>,
}

#[derive(Clone, Copy, Debug, PartialEq, Eq, Structural)]
pub struct DataId {
    pub sensor_id: SensorId,
    pub data_id: u64,
}

#[derive(Clone, Debug)]
pub struct Frame {
    pub frame_id: u32,
    pub rig_id: u32,
    pub rig_from_world: Rigid3,
    pub data_ids: Vec<DataId>,
}

/// Calibration of a camera.
///
/// `bogus` records whether the parameters violate the limits on focal length
/// ratio and extra parameters that the run was configured with.
#[derive(Clone, Copy, Debug)]
pub struct CameraModel {
    pub model_id: i32,
    pub width: u32,
    pub height: u32,
    pub params: [Real64; 12],
    pub num_params: usize,
    pub bogus: bool,
}

/// An image feature.
///
/// `cell_x` and `cell_y` locate it on the finest visibility grid, which splits
/// the image into 32 columns and 32 rows.
#[derive(Clone, Copy, Debug, PartialEq, Eq, Structural)]
pub struct Keypoint {
    pub x: Real32,
    pub y: Real32,
    pub cell_x: u8,
    pub cell_y: u8,
}

/// An input image with its features.
#[derive(Clone, Debug)]
pub struct ImageFrame {
    pub id: usize,
    pub name: String,
    pub width: u32,
    pub height: u32,
    pub keypoints: Vec<Keypoint>,
    pub strong_feature_indices: Vec<usize>,
    pub colors: Vec<[u8; 3]>,
}

#[derive(Clone, Copy, Debug, PartialEq, Eq, Structural)]
pub struct Match {
    pub query_idx: u32,
    pub train_idx: u32,
    pub distance: Real32,
}

/// Relative geometry of an ordered image pair.
///
/// `forward_motion` is the share of the translation along the optical axis,
/// infinite for a vanishing or non-finite translation.
#[derive(Clone, Copy, Debug)]
pub struct RelativeGeometry {
    pub pose: Pose,
    pub h_matrix: Option<[Real64; 9]>,
    pub qvec: Option<[Real64; 4]>,
    pub tvec: Option<[Real64; 3]>,
    pub forward_motion: Real32,
}

/// A geometrically verified image pair.
///
/// `forward` maps from the left to the right image, `backward` from the right
/// to the left one.
#[derive(Clone, Debug)]
pub struct PairGeometry {
    pub left: usize,
    pub right: usize,
    pub two_view_config: i32,
    pub f_matrix: Option<[Real64; 9]>,
    pub e_matrix: Option<[Real64; 9]>,
    pub forward: RelativeGeometry,
    pub backward: RelativeGeometry,
    pub matches: Vec<Match>,
    pub inlier_matches: Vec<Match>,
    pub inliers: usize,
    pub triangulated: usize,
    pub mean_reprojection_error_px: Real32,
    pub rotation_deg: Real32,
    pub median_triangulation_angle_deg: Real32,
    pub pose_graph_only: bool,
}

#[derive(Clone, Copy, Debug, PartialEq, Eq, Structural)]
pub struct TrackObservation {
    pub image: usize,
    pub feature: usize,
}

#[derive(Clone, Debug)]
pub struct Point3D {
    pub xyz: [Real32; 3],
    pub color: [u8; 3],
    pub error: Real32,
    pub track: Vec<TrackObservation>,
}

#[verifier::ext_equal]
pub struct Point3DView {
    pub xyz: [Real32; 3],
    pub color: [u8; 3],
    pub error: Real32,
    pub track: Seq<TrackObservation>,
}

impl View for Point3D {
    type V = Point3DView;

    open spec fn view(&self) -> Point3DView {
        Point3DView { xyz: self.xyz, color: self.color, error: self.error, track: self.track@ }
    }
}

/// A sparse model under construction.
#[derive(Clone, Debug)]
pub struct Reconstruction {
    pub camera: CameraModel,
    pub cameras: Vec<CameraModel>,
    pub camera_ids: Vec<u32>,
    pub rigs: Vec<Rig>,
    pub frames: Vec<Frame>,
    pub image_names: Vec<String>,
    pub image_ids: Vec<u32>,
    pub image_camera_indices: Vec<usize>,
    pub image_frame_indices: Vec<Option<usize>>,
    pub poses: Vec<Option<Pose>>,
    pub observations: Vec<Vec<Option<usize>>>,
    pub keypoints: Vec<Vec<Keypoint>>,
    pub point_ids: Vec<u64>,
    pub points: Vec<Point3D>,
}

/// What a reconstruction holds.
#[verifier::ext_equal]
pub struct ReconstructionView {
    pub camera: CameraModel,
    pub cameras: Seq<CameraModel>,
    pub camera_ids: Seq<u32>,
    pub rigs: Seq<Rig>,
    pub frames: Seq<Frame>,
    pub image_names: Seq<String>,
    pub image_ids: Seq<u32>,
    pub image_camera_indices: Seq<usize>,
    pub image_frame_indices: Seq<Option<usize>>,
    pub poses: Seq<Option<Pose>>,
    pub observations: Seq<Seq<Option<usize>>>,
    pub keypoints: Seq<Vec<Keypoint>>,
    pub point_ids: Seq<u64>,
    pub points: Seq<Point3DView>,
}

/// The contents of a table of rows.
pub open spec fn table_view<T>(rows: Seq<Vec<T>>) -> Seq<Seq<T>> {
    Seq::new(rows.len(), |i: int| rows[i]@)
}

pub open spec fn points_view(points: Seq<Point3D>) -> Seq<Point3DView> {
    Seq::new(points.len(), |i: int| points[i]@)
}

impl View for Reconstruction {
    type V = ReconstructionView;

    open spec fn view(&self) -> ReconstructionView {
        ReconstructionView {
            camera: self.camera,
            cameras: self.cameras@,
            camera_ids: self.camera_ids@,
            rigs: self.rigs@,
            frames: self.frames@,
            image_names: self.image_names@,
            image_ids: self.image_ids@,
            image_camera_indices: self.image_camera_indices@,
            image_frame_indices: self.image_frame_indices@,
            poses: self.poses@,
            observations: table_view(self.observations@),
            keypoints: self.keypoints@,
            point_ids: self.point_ids@,
            points: points_view(self.points@),
        }
    }
}

/// Selects the images whose frame is `frame_idx`.
pub open spec fn in_frame(
    image_frame_indices: Seq<Option<usize>>,
    frame_idx: usize,
) -> spec_fn(int) -> bool {
    |i: int| image_frame_indices[i] == Some(frame_idx)
}

/// Selects the registered images.
pub open spec fn has_pose(poses: Seq<Option<Pose>>) -> spec_fn(int) -> bool {
    |i: int| poses[i] is Some
}

impl ReconstructionView {
    pub open spec fn registered(self, image: int) -> bool {
        0 <= image < self.poses.len() && self.poses[image] is Some
    }

    /// The point observed by a feature, if the feature exists and has one.
    pub open spec fn observed(self, image: int, feature: int) -> Option<usize> {
        if 0 <= image < self.observations.len() && 0 <= feature < self.observations[image].len() {
            self.observations[image][feature]
        } else {
            None
        }
    }

    /// Whether the observation table has a slot for the feature.
    pub open spec fn has_slot(self, obs: TrackObservation) -> bool {
        obs.image < self.observations.len() && obs.feature < self.observations[
            obs.image as int
        ].len()
    }

    pub open spec fn frame_of(self, image: int) -> Option<usize> {
        if 0 <= image < self.image_frame_indices.len() {
            self.image_frame_indices[image]
        } else {
            None
        }
    }

    pub open spec fn images_of_frame(self, frame_idx: usize) -> Seq<usize> {
        indices_where(
            self.image_frame_indices.len(),
            in_frame(self.image_frame_indices, frame_idx),
        )
    }

    /// The images that are registered together with `image`.
    pub open spec fn unit_of(self, image: usize) -> Seq<usize> {
        match self.frame_of(image as int) {
            Some(frame_idx) => self.images_of_frame(frame_idx),
            None => seq![image],
        }
    }

    pub open spec fn image_id_of(self, image: int) -> u32 {
        if 0 <= image < self.image_ids.len() {
            self.image_ids[image]
        } else if image < u32::MAX {
            (image + 1) as u32
        } else {
            u32::MAX
        }
    }

    pub open spec fn camera_index_of(self, image: int) -> usize {
        if 0 <= image < self.image_camera_indices.len() {
            self.image_camera_indices[image]
        } else {
            0
        }
    }

    pub open spec fn camera_of(self, image: int) -> CameraModel {
        let index = self.camera_index_of(image);
        if index < self.cameras.len() {
            self.cameras[index as int]
        } else {
            self.camera
        }
    }

    pub open spec fn camera_id_of(self, image: int) -> u32 {
        let index = self.camera_index_of(image);
        if index < self.camera_ids.len() {
            self.camera_ids[index as int]
        } else {
            1
        }
    }

    pub open spec fn point_id_of(self, point: int) -> u64 {
        if 0 <= point < self.point_ids.len() {
            self.point_ids[point]
        } else if point < u64::MAX {
            (point + 1) as u64
        } else {
            u64::MAX
        }
    }
}

impl Reconstruction {
    pub fn is_registered(&self, image: usize) -> (b: bool)
        ensures
            b == self@.registered(image as int),
    {
        image < self.poses.len() && self.poses[image].is_some()
    }

    /// The point a feature observes.
    pub fn observed_point(&self, image: usize, feature: usize) -> (point: Option<usize>)
        ensures
            point == self@.observed(image as int, feature as int),
    {
        if image < self.observations.len() && feature < self.observations[image].len() {
            self.observations[image][feature]
        } else {
            None
        }
    }

    pub fn frame_index_for_image(&self, image: usize) -> (frame: Option<usize>)
        ensures
            frame == self@.frame_of(image as int),
    {
        if image < self.image_frame_indices.len() {
            self.image_frame_indices[image]
        } else {
            None
        }
    }

    pub fn image_indices_for_frame_index(&self, frame_idx: usize) -> (images: Vec<usize>)
        ensures
            images@ == self@.images_of_frame(frame_idx),
    {
        let mut images: Vec<usize> = Vec::new();
        for image in 0..self.image_frame_indices.len()
            invariant
                images@ == indices_where(
                    image as nat,
                    in_frame(self.image_frame_indices@, frame_idx),
                ),
        {
            if let Some(index) = self.image_frame_indices[image] {
                if index == frame_idx {
                    images.push(image);
                }
            }
        }
        images
    }

    /// The images that are registered together with `image`.
    pub fn image_indices_for_registration_unit(&self, image: usize) -> (images: Vec<usize>)
        ensures
            images@ == self@.unit_of(image),
    {
        match self.frame_index_for_image(image) {
            Some(frame_idx) => self.image_indices_for_frame_index(frame_idx),
            None => {
                let mut images: Vec<usize> = Vec::new();
                images.push(image);
                assert(images@ =~= seq![image]);
                images
            },
        }
    }

    /// The identifier of an image; images without one count from 1.
    pub fn image_id(&self, image: usize) -> (id: u32)
        ensures
            id == self@.image_id_of(image as int),
    {
        if image < self.image_ids.len() {
            self.image_ids[image]
        } else if image < u32::MAX as usize {
            image as u32 + 1
        } else {
            u32::MAX
        }
    }

    pub fn camera_index_for_image(&self, image: usize) -> (index: usize)
        ensures
            index == self@.camera_index_of(image as int),
    {
        if image < self.image_camera_indices.len() {
            self.image_camera_indices[image]
        } else {
            0
        }
    }

    pub fn camera_for_image(&self, image: usize) -> (camera: CameraModel)
        ensures
            camera == self@.camera_of(image as int),
    {
        let index: usize = self.camera_index_for_image(image);
        if index < self.cameras.len() {
            self.cameras[index]
        } else {
            self.camera
        }
    }

    pub fn camera_id_for_image(&self, image: usize) -> (id: u32)
        ensures
            id == self@.camera_id_of(image as int),
    {
        let index: usize = self.camera_index_for_image(image);
        if index < self.camera_ids.len() {
            self.camera_ids[index]
        } else {
            1
        }
    }

    /// The identifier of a point; points without one count from 1.
    pub fn point3d_id(&self, point: usize) -> (id: u64)
        ensures
            id == self@.point_id_of(point as int),
    {
        if point < self.point_ids.len() {
            self.point_ids[point]
        } else if (point as u64) < u64::MAX {
            point as u64 + 1
        } else {
            u64::MAX
        }
    }
}

} // verus!
