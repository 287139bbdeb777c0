//! What a refinement changes and leaves alone, said of rigs, cameras and images.

use crate::ascending::lists;
use crate::bundle_options::{
    camera_is_partial, follows_config, has_listed_id, has_rig, local_constant_cameras,
    local_constant_images, local_constant_sensor, local_frames_of, loss_named, moves_with, restored,
    rig_held, rig_is_partial, scale_or, sensor_of_listed, stops_at, uses_camera, BundleLoss,
    BundlePlan, BundleState,
};
use crate::config::{spells, MapperConfig};
use crate::indices::{count_where, indices_where, lemma_indices_where, lemma_where_congruent};
use crate::registration_stats::StatsView;
use crate::registration_units::expanded;
use crate::scalar::Real64;
use crate::text::trimmed;
use crate::types::{ReconstructionView, Rig, SensorId};
use vstd::prelude::*;

verus! {

/// A camera is held just if its identifier is listed.
pub proof fn law_held_cameras(camera_ids: Seq<u32>, ids: Seq<u32>, c: usize)
    requires
        camera_ids.len() <= usize::MAX,
    ensures
        indices_where(camera_ids.len(), has_listed_id(camera_ids, ids)).contains(c) <==> c
            < camera_ids.len() && ids.contains(camera_ids[c as int]),
{
    let q = has_listed_id(camera_ids, ids);
    lemma_indices_where(camera_ids.len(), q);
    if c < camera_ids.len() && q(c as int) {
        assert(indices_where(camera_ids.len(), q).contains(c));
    }
}

/// A sensor is held with its rig if the rig is listed and names another sensor as
/// its reference. The reference of a rig, and sensors of other rigs, are not.
pub proof fn law_held_sensors(rigs: Seq<Rig>, ids: Seq<u32>, i: int, j: int, s: SensorId)
    requires
        0 <= i < rigs.len(),
        0 <= j < rigs[i].sensors@.len(),
    ensures
        ids.contains(rigs[i].rig_id) && rigs[i].sensors@[j].sensor_id == s
            && rigs[i].ref_sensor_id != Some(s) ==> sensor_of_listed(
            rigs,
            rigs.len() as int,
            ids,
            s,
        ),
        (forall|k: int|
            0 <= k < rigs.len() && ids.contains((#[trigger] rigs[k]).rig_id)
                ==> rigs[k].ref_sensor_id == Some(s)) ==> !sensor_of_listed(
            rigs,
            rigs.len() as int,
            ids,
            s,
        ),
        (forall|k: int|
            0 <= k < rigs.len() ==> !ids.contains((#[trigger] rigs[k]).rig_id))
            ==> !sensor_of_listed(rigs, rigs.len() as int, ids, s),
{
    if ids.contains(rigs[i].rig_id) && rigs[i].sensors@[j].sensor_id == s
        && rigs[i].ref_sensor_id != Some(s) {
        assert(moves_with(rigs[i], s));
    }
}

/// Selects the frames of a rig that have a listed image.
pub open spec fn is_local_frame(
    r: ReconstructionView,
    images: Seq<usize>,
    rig_id: u32,
) -> spec_fn(int) -> bool {
    |f: int|
        r.frames[f].rig_id == rig_id && exists|k: int|
            0 <= k < images.len() && r.frame_of((#[trigger] images[k]) as int) == Some(f as usize)
}

/// A rig is partial just if some of its frames have a listed image, and fewer than
/// are registered.
pub proof fn law_partial_rigs(
    r: ReconstructionView,
    stats: StatsView,
    images: Seq<usize>,
    rig_id: u32,
)
    ensures
        ({
            let local = count_where(r.frames.len(), is_local_frame(r, images, rig_id));
            rig_is_partial(r, stats, images, rig_id) <==> local > 0
                && stats.frames_per_rig.contains_key(rig_id) && local
                < stats.frames_per_rig[rig_id]
        }),
{
    let q = local_frames_of(r, images, rig_id);
    assert forall|f: int| 0 <= f < r.frames.len() implies #[trigger] q(f) == is_local_frame(
        r,
        images,
        rig_id,
    )(f) by {}
    lemma_where_congruent(
        r.frames.len(),
        q,
        is_local_frame(r, images, rig_id),
    );
}

/// Selects the listed images of a camera.
pub open spec fn is_of_camera(
    r: ReconstructionView,
    images: Seq<usize>,
    camera: usize,
) -> spec_fn(int) -> bool {
    |k: int|
        images[k] < r.image_camera_indices.len() && r.image_camera_indices[images[k] as int]
            == camera
}

/// A local refinement holds a camera just if the configuration does, or if it is
/// the camera of some of the images but of more that are registered.
pub proof fn law_locally_held_cameras(
    r: ReconstructionView,
    stats: StatsView,
    config: MapperConfig,
    images: Seq<usize>,
    cameras: Seq<usize>,
    c: usize,
)
    requires
        lists(cameras, local_constant_cameras(r, stats, config, images)),
        c < r.camera_ids.len(),
    ensures
        ({
            let id = r.camera_ids[c as int];
            let local = count_where(images.len(), is_of_camera(r, images, c));
            let all = if stats.images_per_camera.contains_key(id) {
                stats.images_per_camera[id] as int
            } else {
                0
            };
            &&& config.ba_constant_camera_ids@.contains(id) ==> cameras.contains(c)
            &&& 0 < local < all ==> cameras.contains(c)
            &&& !config.ba_constant_camera_ids@.contains(id) && (local == 0 || local >= all)
                ==> !cameras.contains(c)
        }),
{
    assert forall|k: int| 0 <= k < images.len() implies #[trigger] uses_camera(r, images, c)(k)
        == is_of_camera(r, images, c)(k) by {}
    lemma_where_congruent(
        images.len(),
        uses_camera(r, images, c),
        is_of_camera(r, images, c),
    );
    assert(local_constant_cameras(r, stats, config, images).contains(c) <==> (
    config.ba_constant_camera_ids@.contains(r.camera_ids[c as int]) || camera_is_partial(
        r,
        stats,
        images,
        c,
    )));
}

/// A local refinement holds a sensor that is not the reference of its rig if the
/// configuration holds the rig or only a part of its frames is refined.
pub proof fn law_locally_held_sensors(
    r: ReconstructionView,
    stats: StatsView,
    config: MapperConfig,
    images: Seq<usize>,
    s: SensorId,
    i: int,
    j: int,
)
    requires
        0 <= i < r.rigs.len(),
        0 <= j < r.rigs[i].sensors@.len(),
        r.rigs[i].sensors@[j].sensor_id == s,
        r.rigs[i].ref_sensor_id != Some(s),
    ensures
        config.ba_constant_rig_ids@.contains(r.rigs[i].rig_id) ==> local_constant_sensor(
            r,
            stats,
            config,
            images,
            s,
        ),
        rig_is_partial(r, stats, images, r.rigs[i].rig_id) ==> local_constant_sensor(
            r,
            stats,
            config,
            images,
            s,
        ),
        (forall|k: int|
            0 <= k < r.rigs.len() ==> !config.ba_constant_rig_ids@.contains(
                (#[trigger] r.rigs[k]).rig_id,
            ) && !rig_is_partial(r, stats, images, r.rigs[k].rig_id)) ==> !local_constant_sensor(
            r,
            stats,
            config,
            images,
            s,
        ),
{
    assert(moves_with(r.rigs[i], s));
    let held = rig_held(r, stats, config, images, i);
    if held {
        assert(local_constant_sensor(r, stats, config, images, s));
    }
    if local_constant_sensor(r, stats, config, images, s) {
        let k = choose|k: int|
            0 <= k < r.rigs.len() && #[trigger] rig_held(
                r,
                stats,
                config,
                images,
                k,
            ) && moves_with(r.rigs[k], s);
        assert(r.rigs[k] == r.rigs[k]);
    }
}

/// A local refinement holds an image just if an image of its unit is to be held,
/// or is registered in a unit that was there before while such units are fixed.
pub proof fn law_locally_held_images(
    r: ReconstructionView,
    stats: StatsView,
    config: MapperConfig,
    images: Seq<usize>,
    held: Seq<usize>,
    m: usize,
)
    requires
        lists(held, local_constant_images(r, stats, config, images)),
    ensures
        images.contains(m) ==> held.contains(m),
        config.fix_existing_frames && r.registered(m as int) && stats.existing.contains(
            r.unit_key(m),
        ) ==> held.contains(m),
        !config.fix_existing_frames && (forall|k: int|
            0 <= k < images.len() ==> !r.same_unit((#[trigger] images[k]) as int, m as int))
            ==> !held.contains(m),
{
    let all = local_constant_images(r, stats, config, images);
    if images.contains(m) {
        let k = choose|k: int| 0 <= k < images.len() && images[k] == m;
        assert(r.same_unit(images[k] as int, m as int));
        assert(expanded(r, images).contains(m));
        assert(all.contains(m));
    }
    if config.fix_existing_frames && r.registered(m as int) && stats.existing.contains(
        r.unit_key(m),
    ) {
        assert(r.same_unit(m as int, m as int));
        assert(all.contains(m));
    }
    if held.contains(m) {
        assert(all.contains(m));
    }
}

/// A scale counts just if it is finite and above zero.
pub proof fn law_scales(scale: Real64, otherwise: Real64)
    ensures
        scale_or(None, otherwise) == otherwise,
        0 < scale.bits < 0x7ff0_0000_0000_0000 ==> scale_or(Some(scale), otherwise) == scale,
        scale.bits == 0 || scale.bits >= 0x7ff0_0000_0000_0000 ==> scale_or(
            Some(scale),
            otherwise,
        ) == otherwise,
{
}

/// A name gives the loss it spells. Without a scale the Huber loss takes its own
/// or four, the others take one.
pub proof fn law_losses(
    name: Seq<char>,
    scale: Option<Real64>,
    huber_scale: Option<Real64>,
    given: Real64,
    own: Real64,
)
    requires
        0 < given.bits < 0x7ff0_0000_0000_0000,
        0 < own.bits < 0x7ff0_0000_0000_0000,
    ensures
        ({
            let text = trimmed(name);
            let four = Real64 { bits: 0x4010_0000_0000_0000 };
            let one = Real64 { bits: 0x3ff0_0000_0000_0000 };
            &&& spells(text, "trivial"@) ==> loss_named(Some(name), scale, huber_scale)
                == BundleLoss::Trivial
            &&& spells(text, "huber"@) && !spells(text, "trivial"@) ==> {
                &&& loss_named(Some(name), Some(given), huber_scale) == BundleLoss::Huber(given)
                &&& loss_named(Some(name), None, Some(own)) == BundleLoss::Huber(own)
                &&& loss_named(Some(name), None, None) == BundleLoss::Huber(four)
            }
            &&& (spells(text, "softl1"@) || spells(text, "soft_l1"@)) && !spells(text, "trivial"@)
                && !spells(text, "huber"@) ==> {
                &&& loss_named(Some(name), Some(given), huber_scale) == BundleLoss::SoftL1(given)
                &&& loss_named(Some(name), None, huber_scale) == BundleLoss::SoftL1(one)
            }
            &&& loss_named(None, Some(given), huber_scale) == BundleLoss::Cauchy(given)
            &&& loss_named(None, None, huber_scale) == BundleLoss::Cauchy(one)
            &&& !spells(text, "trivial"@) && !spells(text, "huber"@) && !spells(text, "softl1"@)
                && !spells(text, "soft_l1"@) ==> {
                &&& loss_named(Some(name), Some(given), huber_scale) == BundleLoss::Cauchy(given)
                &&& loss_named(Some(name), None, huber_scale) == BundleLoss::Cauchy(one)
            }
        }),
{
}

/// A plan that follows the configuration refines what is configured and holds the
/// listed rigs that exist.
pub proof fn law_configured_plans(plan: BundlePlan, config: MapperConfig, rigs: Seq<Rig>, k: int)
    requires
        follows_config(plan, config, rigs),
        0 <= k < rigs.len(),
    ensures
        plan.refine_focal_length == config.ba_refine_focal_length,
        plan.refine_principal_point == config.ba_refine_principal_point,
        plan.refine_extra_params == config.ba_refine_extra_params,
        plan.constant_rigs@.contains(rigs[k].rig_id) <==> config.ba_constant_rig_ids@.contains(
            rigs[k].rig_id,
        ),
{
    assert(has_rig(rigs, rigs[k].rig_id));
}

/// A refinement stops at its gradient and at no change of the parameters, and the
/// linear solver after a hundred iterations.
pub proof fn law_stops(plan: BundlePlan, gradient_tolerance: u64)
    requires
        stops_at(plan, gradient_tolerance),
    ensures
        plan.gradient_tolerance.bits == gradient_tolerance,
        plan.parameter_tolerance.bits == 0,
        plan.max_linear_solver_iterations == 100,
{
}

/// A restored model has the cameras, poses and positions of the state. Tracks,
/// colors, errors and observations stay.
pub proof fn law_restored_model(r: ReconstructionView, state: BundleState, i: int)
    requires
        0 <= i < r.points.len(),
    ensures
        ({
            let s = restored(r, state);
            &&& s.camera == state.camera && s.cameras == state.cameras@ && s.poses == state.poses@
            &&& s.points.len() == r.points.len()
            &&& i < state.points@.len() ==> s.points[i].xyz == state.points@[i]
            &&& i >= state.points@.len() ==> s.points[i].xyz == r.points[i].xyz
            &&& s.points[i].track == r.points[i].track && s.points[i].error == r.points[i].error
                && s.points[i].color == r.points[i].color
            &&& s.observations == r.observations && s.point_ids == r.point_ids
        }),
{
}

} // verus!
