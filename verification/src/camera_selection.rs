//! Which calibration an image is registered with, and which cameras are
//! implausible.

use crate::ascending::{ascending, insert_ascending, lists};
use crate::registration_stats::{lookup, RegistrationStats, StatsView};
use crate::registration_units::{lemma_take_contains, lemma_unit_members};
use crate::types::{CameraModel, Reconstruction, ReconstructionView};
use vstd::prelude::*;

verus! {

/// The prior calibration of a camera, if it is plausible.
pub open spec fn healthy_prior(priors: Seq<CameraModel>, camera: int) -> Option<CameraModel> {
    if 0 <= camera < priors.len() && !priors[camera].bogus {
        Some(priors[camera])
    } else {
        None
    }
}

pub fn healthy_camera_prior(camera_idx: usize, camera_priors: &[CameraModel]) -> (prior: Option<
    CameraModel,
>)
    ensures
        prior == healthy_prior(camera_priors@, camera_idx as int),
{
    if camera_idx < camera_priors.len() && !camera_priors[camera_idx].bogus {
        Some(camera_priors[camera_idx])
    } else {
        None
    }
}

/// The calibration to register an image with. A camera that no registered
/// image uses starts from its prior, and so does one that became implausible.
pub open spec fn registration_camera(
    r: ReconstructionView,
    stats: StatsView,
    priors: Seq<CameraModel>,
    image: usize,
) -> CameraModel {
    let camera = r.camera_of(image as int);
    if image >= r.image_camera_indices.len() {
        camera
    } else {
        let unused = lookup(stats.images_per_camera, r.camera_id_of(image as int)) == 0;
        match healthy_prior(priors, r.camera_index_of(image as int) as int) {
            Some(prior) => if unused || camera.bogus {
                prior
            } else {
                camera
            },
            None => camera,
        }
    }
}

pub fn registration_camera_for_image(
    image: usize,
    reconstruction: &Reconstruction,
    camera_priors: &[CameraModel],
    registration_stats: &RegistrationStats,
) -> (camera: CameraModel)
    ensures
        camera == registration_camera(
            reconstruction@,
            registration_stats@,
            camera_priors@,
            image,
        ),
{
    let camera = reconstruction.camera_for_image(image);
    if image >= reconstruction.image_camera_indices.len() {
        return camera;
    }
    let camera_idx: usize = reconstruction.image_camera_indices[image];
    let camera_id: u32 = reconstruction.camera_id_for_image(image);
    if registration_stats.registered_images_with_camera_id(camera_id) == 0 {
        if let Some(prior) = healthy_camera_prior(camera_idx, camera_priors) {
            return prior;
        }
    }
    if !camera.bogus {
        return camera;
    }
    match healthy_camera_prior(camera_idx, camera_priors) {
        Some(prior) => prior,
        None => camera,
    }
}

/// The cameras of registered images with implausible parameters.
pub open spec fn bogus_cameras(r: ReconstructionView) -> Set<usize> {
    Set::new(
        |c: usize|
            exists|i: int| #[trigger]
                r.registered(i) && r.camera_of(i).bogus && r.camera_index_of(i) == c,
    )
}

pub fn bogus_registered_camera_indices(reconstruction: &Reconstruction) -> (cameras: Vec<usize>)
    ensures
        lists(cameras@, bogus_cameras(reconstruction@)),
{
    let ghost r = reconstruction@;
    let mut cameras: Vec<usize> = Vec::new();
    for image in 0..reconstruction.poses.len()
        invariant
            r == reconstruction@,
            ascending(cameras@),
            forall|c: usize| #[trigger] cameras@.contains(c) <==> bogus_below(r, image as int, c),
    {
        let ghost before = cameras@;
        if reconstruction.poses[image].is_some() && reconstruction.camera_for_image(image).bogus {
            let index: usize = reconstruction.camera_index_for_image(image);
            insert_ascending(&mut cameras, index);
        }
        proof {
            assert forall|c: usize| #[trigger] cameras@.contains(c) <==> bogus_below(
                r,
                image + 1,
                c,
            ) by {
                assert(before.contains(c) <==> bogus_below(r, image as int, c));
                if bogus_below(r, image as int, c) {
                    let i = choose|i: int|
                        0 <= i < image && #[trigger] r.registered(i) && r.camera_of(i).bogus
                            && r.camera_index_of(i) == c;
                    assert(0 <= i < image + 1 && r.registered(i));
                }
                if r.registered(image as int) && r.camera_of(image as int).bogus
                    && r.camera_index_of(image as int) == c {
                    assert(bogus_below(r, image + 1, c));
                }
            }
        }
    }
    proof {
        let n = r.poses.len() as int;
        assert forall|c: usize| #[trigger] cameras@.contains(c) <==> bogus_cameras(r).contains(c) by {
            if bogus_cameras(r).contains(c) {
                let i = choose|i: int| #[trigger]
                    r.registered(i) && r.camera_of(i).bogus && r.camera_index_of(i) == c;
                assert(0 <= i < n && r.registered(i));
            }
        }
    }
    cameras
}

spec fn bogus_below(r: ReconstructionView, n: int, c: usize) -> bool {
    exists|i: int|
        0 <= i < n && #[trigger] r.registered(i) && r.camera_of(i).bogus && r.camera_index_of(i)
            == c
}

/// The reconstruction with the calibration of an image's camera replaced.
/// Camera 0 is also the camera of images without one.
pub open spec fn with_image_camera(
    r: ReconstructionView,
    image: usize,
    camera: CameraModel,
) -> ReconstructionView {
    if image < r.image_camera_indices.len() && r.image_camera_indices[image as int]
        < r.cameras.len() {
        let index = r.image_camera_indices[image as int] as int;
        ReconstructionView {
            cameras: r.cameras.update(index, camera),
            camera: if index == 0 {
                camera
            } else {
                r.camera
            },
            ..r
        }
    } else {
        ReconstructionView {
            camera,
            cameras: if r.cameras.len() > 0 {
                r.cameras.update(0, camera)
            } else {
                r.cameras
            },
            ..r
        }
    }
}

pub fn apply_image_camera(reconstruction: &mut Reconstruction, image: usize, camera: CameraModel)
    ensures
        final(reconstruction)@ == with_image_camera(old(reconstruction)@, image, camera),
{
    if image < reconstruction.image_camera_indices.len() {
        let index: usize = reconstruction.image_camera_indices[image];
        if index < reconstruction.cameras.len() {
            reconstruction.cameras[index] = camera;
            if index == 0 {
                reconstruction.camera = camera;
            }
            return;
        }
    }
    reconstruction.camera = camera;
    if reconstruction.cameras.len() > 0 {
        reconstruction.cameras[0] = camera;
    }
}

/// What an image is registered with afterwards is the calibration applied.
pub proof fn law_applied_camera_is_used(r: ReconstructionView, image: usize, camera: CameraModel)
    requires
        image < r.image_camera_indices.len(),
        r.image_camera_indices[image as int] < r.cameras.len(),
    ensures
        with_image_camera(r, image, camera).camera_of(image as int) == camera,
        forall|other: int|
            r.camera_index_of(other) != r.camera_index_of(image as int) && r.camera_index_of(other)
                < r.cameras.len() ==> #[trigger] with_image_camera(r, image, camera).camera_of(
                other,
            ) == r.camera_of(other),
{
}

/// Whether an image of a unit names a camera.
pub open spec fn unit_uses_camera(r: ReconstructionView, image: usize, c: int) -> bool {
    exists|m: int|
        0 <= m < r.image_camera_indices.len() && #[trigger] r.same_unit(image as int, m)
            && r.image_camera_indices[m] == c
}

/// The cameras after the implausible ones of a unit took over their priors.
pub open spec fn cameras_reset(
    r: ReconstructionView,
    image: usize,
    priors: Seq<CameraModel>,
) -> Seq<CameraModel> {
    Seq::new(
        r.cameras.len(),
        |c: int|
            match healthy_prior(priors, c) {
                Some(prior) => if unit_uses_camera(r, image, c) && r.cameras[c].bogus {
                    prior
                } else {
                    r.cameras[c]
                },
                None => r.cameras[c],
            },
    )
}

pub open spec fn with_cameras_reset(
    r: ReconstructionView,
    image: usize,
    priors: Seq<CameraModel>,
) -> ReconstructionView {
    let cameras = cameras_reset(r, image, priors);
    ReconstructionView {
        cameras,
        camera: if r.cameras.len() > 0 && unit_uses_camera(r, image, 0) && r.cameras[0].bogus
            && healthy_prior(priors, 0) is Some {
            cameras[0]
        } else {
            r.camera
        },
        ..r
    }
}

/// Gives the implausible cameras of a unit their priors back, where those are
/// plausible.
pub fn reset_bogus_frame_cameras_from_priors(
    reconstruction: &mut Reconstruction,
    image: usize,
    camera_priors: &[CameraModel],
)
    ensures
        final(reconstruction)@ == with_cameras_reset(
            old(reconstruction)@,
            image,
            camera_priors@,
        ),
{
    let ghost r = reconstruction@;
    let limit: usize = reconstruction.image_frame_indices.len();
    let num_listed: usize = reconstruction.image_camera_indices.len();
    let unit: Vec<usize> = reconstruction.image_indices_for_registration_unit(image);
    proof {
        lemma_unit_members(r, image);
    }
    let mut used: Vec<usize> = Vec::new();
    for k in 0..unit.len()
        invariant
            r == reconstruction@,
            num_listed == r.image_camera_indices.len(),
            unit@ == r.unit_of(image),
            ascending(used@),
            forall|c: usize| #[trigger]
                used@.contains(c) <==> exists|j: int|
                    0 <= j < k && #[trigger] unit@[j] < num_listed && r.image_camera_indices[unit@[j] as int]
                        == c,
    {
        let ghost before = used@;
        let m: usize = unit[k];
        if m < reconstruction.image_camera_indices.len() {
            insert_ascending(&mut used, reconstruction.image_camera_indices[m]);
        }
        proof {
            assert forall|c: usize| #[trigger]
                used@.contains(c) <==> exists|j: int|
                    0 <= j < k + 1 && #[trigger] unit@[j] < num_listed
                        && r.image_camera_indices[unit@[j] as int] == c by {
                if before.contains(c) {
                    let j = choose|j: int|
                        0 <= j < k && #[trigger] unit@[j] < num_listed
                            && r.image_camera_indices[unit@[j] as int] == c;
                    assert(0 <= j < k + 1 && unit@[j] < num_listed);
                }
                if m < num_listed && r.image_camera_indices[m as int] == c {
                    assert(unit@[k as int] < num_listed);
                }
            }
        }
    }
    proof {
        assert forall|c: usize| #[trigger] used@.contains(c) <==> unit_uses_camera(
            r,
            image,
            c as int,
        ) by {
            if used@.contains(c) {
                let j = choose|j: int|
                    0 <= j < unit@.len() && #[trigger] unit@[j] < num_listed
                        && r.image_camera_indices[unit@[j] as int] == c;
                assert(r.unit_of(image).contains(unit@[j]));
                assert(r.same_unit(image as int, unit@[j] as int));
            }
            if unit_uses_camera(r, image, c as int) {
                let m = choose|m: int|
                    0 <= m < r.image_camera_indices.len() && #[trigger] r.same_unit(image as int, m)
                        && r.image_camera_indices[m] == c;
                assert(r.unit_of(image).contains(m as usize));
                let j = choose|j: int| 0 <= j < unit@.len() && unit@[j] == m as usize;
                assert(unit@[j] < num_listed);
            }
        }
    }
    let num_cameras: usize = reconstruction.cameras.len();
    let ghost goal = cameras_reset(r, image, camera_priors@);
    for k in 0..used.len()
        invariant
            r == old(reconstruction)@,
            num_cameras == r.cameras.len(),
            goal == cameras_reset(r, image, camera_priors@),
            ascending(used@),
            forall|c: usize| #[trigger]
                used@.contains(c) <==> unit_uses_camera(r, image, c as int),
            reconstruction@ == (ReconstructionView {
                cameras: reconstruction@.cameras,
                camera: reconstruction@.camera,
                ..r
            }),
            reconstruction@.cameras.len() == num_cameras,
            forall|c: int|
                0 <= c < num_cameras ==> #[trigger] reconstruction@.cameras[c] == (
                if used@.take(k as int).contains(c as usize) {
                    goal[c]
                } else {
                    r.cameras[c]
                }),
            reconstruction@.camera == (if used@.take(k as int).contains(0) && r.cameras.len() > 0
                && r.cameras[0].bogus && healthy_prior(camera_priors@, 0) is Some {
                goal[0]
            } else {
                r.camera
            }),
    {
        let c: usize = used[k];
        proof {
            lemma_take_contains(used@, k as int);
            assert(used@.contains(used@[k as int]));
            if used@.take(k as int).contains(c) {
                let j = choose|j: int| 0 <= j < k && used@.take(k as int)[j] == c;
                assert(used@[j] < used@[k as int]);
            }
        }
        if c < reconstruction.cameras.len() && reconstruction.cameras[c].bogus {
            if let Some(prior) = healthy_camera_prior(c, camera_priors) {
                reconstruction.cameras[c] = prior;
                if c == 0 {
                    reconstruction.camera = prior;
                }
            }
        }
    }
    proof {
        assert(used@.take(used@.len() as int) =~= used@);
        assert(reconstruction@.cameras =~= goal) by {
            assert forall|c: int| 0 <= c < num_cameras implies reconstruction@.cameras[c]
                == goal[c] by {
                assert(used@.contains(c as usize) <==> unit_uses_camera(r, image, c));
            }
        }
        assert(used@.contains(0) <==> unit_uses_camera(r, image, 0));
    }
}

} // verus!
