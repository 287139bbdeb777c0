//! The calibration of images, said of cameras and priors themselves.

use crate::ascending::lists;
use crate::camera_selection::{
    bogus_cameras, registration_camera, with_cameras_reset, with_image_camera,
};
use crate::pose_laws::is_settled_camera;
use crate::registration_stats::StatsView;
use crate::types::{CameraModel, ReconstructionView};
use vstd::prelude::*;

verus! {

/// An image is registered with its camera, except that a plausible prior counts
/// if no registered image uses the camera or the camera became implausible.
pub proof fn law_registration_camera(
    r: ReconstructionView,
    stats: StatsView,
    priors: Seq<CameraModel>,
    image: usize,
)
    requires
        image < r.image_camera_indices.len(),
    ensures
        ({
            let index = r.image_camera_indices[image as int] as int;
            let camera = r.camera_of(image as int);
            let used = is_settled_camera(stats, r.camera_id_of(image as int));
            let chosen = registration_camera(r, stats, priors, image);
            &&& index >= priors.len() || priors[index].bogus ==> chosen == camera
            &&& used && !camera.bogus ==> chosen == camera
            &&& index < priors.len() && !priors[index].bogus && !used ==> chosen == priors[index]
            &&& index < priors.len() && !priors[index].bogus && camera.bogus ==> chosen
                == priors[index]
        }),
{
}

/// An image without a camera of its own keeps the common one.
pub proof fn law_common_camera(
    r: ReconstructionView,
    stats: StatsView,
    priors: Seq<CameraModel>,
    image: usize,
)
    requires
        image >= r.image_camera_indices.len(),
    ensures
        registration_camera(r, stats, priors, image) == r.camera_of(image as int),
{
}

/// The listed cameras are those of registered images with implausible parameters.
pub proof fn law_implausible_cameras(r: ReconstructionView, cameras: Seq<usize>, c: usize)
    requires
        lists(cameras, bogus_cameras(r)),
    ensures
        cameras.contains(c) <==> exists|i: int| #[trigger]
            r.registered(i) && r.camera_of(i).bogus && r.camera_index_of(i) == c,
        forall|x: int, y: int| 0 <= x < y < cameras.len() ==> cameras[x] < cameras[y],
{
}

/// Applying a calibration changes the camera of the image and no other. The common
/// camera goes with the first one.
pub proof fn law_applied_camera(r: ReconstructionView, image: usize, camera: CameraModel)
    requires
        image < r.image_camera_indices.len(),
        r.image_camera_indices[image as int] < r.cameras.len(),
    ensures
        ({
            let s = with_image_camera(r, image, camera);
            let index = r.image_camera_indices[image as int] as int;
            &&& s.cameras.len() == r.cameras.len()
            &&& s.cameras[index] == camera
            &&& forall|c: int|
                0 <= c < r.cameras.len() && c != index ==> #[trigger] s.cameras[c] == r.cameras[c]
            &&& index == 0 ==> s.camera == camera
            &&& index != 0 ==> s.camera == r.camera
            &&& s == (ReconstructionView { cameras: s.cameras, camera: s.camera, ..r })
        }),
{
}

/// Applied to an image without a camera of its own, a calibration becomes the
/// common one and that of the first camera.
pub proof fn law_applied_common_camera(r: ReconstructionView, image: usize, camera: CameraModel)
    requires
        image >= r.image_camera_indices.len() || r.image_camera_indices[image as int]
            >= r.cameras.len(),
    ensures
        ({
            let s = with_image_camera(r, image, camera);
            &&& s.camera == camera
            &&& s.cameras.len() == r.cameras.len()
            &&& r.cameras.len() > 0 ==> s.cameras[0] == camera
            &&& forall|c: int| 0 < c < r.cameras.len() ==> #[trigger] s.cameras[c] == r.cameras[c]
            &&& s == (ReconstructionView { cameras: s.cameras, camera: s.camera, ..r })
        }),
{
}

/// Resetting the cameras of a unit gives a camera its prior just if an image of
/// the unit uses it, it is implausible, and the prior is not.
pub proof fn law_cameras_reset(
    r: ReconstructionView,
    image: usize,
    priors: Seq<CameraModel>,
    c: int,
)
    requires
        0 <= c < r.cameras.len(),
    ensures
        ({
            let s = with_cameras_reset(r, image, priors);
            let used = exists|m: int|
                0 <= m < r.image_camera_indices.len() && #[trigger] r.same_unit(image as int, m)
                    && r.image_camera_indices[m] == c;
            &&& s.cameras.len() == r.cameras.len()
            &&& !used || !r.cameras[c].bogus ==> s.cameras[c] == r.cameras[c]
            &&& c >= priors.len() || priors[c].bogus ==> s.cameras[c] == r.cameras[c]
            &&& used && r.cameras[c].bogus && c < priors.len() && !priors[c].bogus
                ==> s.cameras[c] == priors[c] && (c == 0 ==> s.camera == priors[0])
            &&& c == 0 && s.cameras[c] == r.cameras[c] && (!used || !r.cameras[c].bogus || c
                >= priors.len() || priors[c].bogus) ==> s.camera == r.camera
            &&& s == (ReconstructionView { cameras: s.cameras, camera: s.camera, ..r })
        }),
{
}

} // verus!
