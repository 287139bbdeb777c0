//! How a pipeline goes on and ends, said of limits and counts themselves.

use crate::config::MapperConfig;
use crate::pipeline::{
    halved_angle, initialization_stage, keeps_model, model_limit,
    model_size_limit, reconstructed_enough, snapshot_due, trials_per_stage,
    InitializationRelaxationStage, PipelineRun, PipelineSnapshotState,
};
use crate::registration_units::registered_units;
use crate::scalar::Real32;
use crate::types::ReconstructionView;
use vstd::prelude::*;

verus! {

/// The first stage asks for what is configured. The second and the fourth ask for
/// half the inliers of the stage before, the third and the fifth for half its
/// angle; the other demand stays.
pub proof fn law_stages(inliers: usize, angle: Real32)
    ensures
        ({
            let strict = initialization_stage(inliers, angle, 0);
            let first = initialization_stage(inliers, angle, 1);
            let second = initialization_stage(inliers, angle, 2);
            let third = initialization_stage(inliers, angle, 3);
            let last = initialization_stage(inliers, angle, 4);
            &&& strict.init_min_num_inliers == inliers && strict.init_min_tri_angle_deg == angle
            &&& inliers >= 2 ==> first.init_min_num_inliers == inliers / 2
            &&& inliers < 2 ==> first.init_min_num_inliers == 1
            &&& first.init_min_tri_angle_deg == angle
            &&& second.init_min_num_inliers == first.init_min_num_inliers
            &&& second.init_min_tri_angle_deg == halved_angle(angle)
            &&& first.init_min_num_inliers >= 2 ==> third.init_min_num_inliers
                == first.init_min_num_inliers / 2
            &&& first.init_min_num_inliers < 2 ==> third.init_min_num_inliers == 1
            &&& third.init_min_tri_angle_deg == second.init_min_tri_angle_deg
            &&& last.init_min_num_inliers == third.init_min_num_inliers
            &&& last.init_min_tri_angle_deg == halved_angle(second.init_min_tri_angle_deg)
            &&& strict.stage == InitializationRelaxationStage::Strict
            &&& first.stage == InitializationRelaxationStage::MinInliersRelaxed(1)
            &&& second.stage == InitializationRelaxationStage::MinTriAngleRelaxed(1)
            &&& third.stage == InitializationRelaxationStage::MinInliersRelaxed(2)
            &&& last.stage == InitializationRelaxationStage::MinTriAngleRelaxed(2)
        }),
{
}

/// Half of a number that is normal and not among the smallest has an exponent one
/// lower and is otherwise the same. Small numbers count multiples of the smallest
/// one: twice the half is off by at most one of them, and by none if the number is
/// even. Infinities stay.
pub proof fn law_halving(angle: Real32)
    requires
        angle.bits < 0x8000_0000u32,
    ensures
        0x0100_0000 <= angle.bits < 0x7f80_0000 ==> halved_angle(angle).bits == angle.bits
            - 0x0080_0000,
        angle.bits < 0x0100_0000 && angle.bits % 2 == 0 ==> 2 * halved_angle(angle).bits
            == angle.bits,
        angle.bits < 0x0100_0000 && angle.bits % 2 == 1 ==> halved_angle(angle).bits % 2 == 0
            && -1 <= 2 * halved_angle(angle).bits - angle.bits <= 1,
        angle.bits == 0x7f80_0000 ==> halved_angle(angle) == angle,
{
}

/// A snapshot is taken just if snapshots are configured and as many frames as
/// configured, or more, were registered since the last one.
pub proof fn law_snapshots(
    state: PipelineSnapshotState,
    r: ReconstructionView,
    config: MapperConfig,
)
    ensures
        config.snapshot_frames_freq == 0 || config.snapshot_path is None ==> !snapshot_due(
            state,
            r,
            config,
        ),
        registered_units(r) < state.previous_registered_frames + config.snapshot_frames_freq
            ==> !snapshot_due(state, r, config),
        config.snapshot_frames_freq > 0 && config.snapshot_path is Some && registered_units(r)
            - state.previous_registered_frames >= config.snapshot_frames_freq ==> snapshot_due(
            state,
            r,
            config,
        ),
{
}

/// One model is wanted, or as many as configured where several are, but at least
/// one. A further model needs the configured number of images or half of all.
/// Each stage makes the configured number of attempts, but at least one.
pub proof fn law_limits(config: MapperConfig, num_frames: usize)
    ensures
        !config.multiple_models ==> model_limit(config) == 1,
        config.multiple_models && config.max_num_models > 0 ==> model_limit(config)
            == config.max_num_models,
        config.multiple_models && config.max_num_models == 0 ==> model_limit(config) == 1,
        model_size_limit(config, num_frames) <= config.min_model_size,
        2 * model_size_limit(config, num_frames) <= num_frames,
        model_size_limit(config, num_frames) == config.min_model_size || num_frames <= 2
            * model_size_limit(config, num_frames) + 1,
        config.init_num_trials > 0 ==> trials_per_stage(config) == config.init_num_trials,
        config.init_num_trials == 0 ==> trials_per_stage(config) == 1,
{
}

/// A pipeline stops just if it has all models or, where several are wanted, at
/// most one image is left.
pub proof fn law_pipeline_stops(
    config: MapperConfig,
    models: usize,
    total: nat,
    num_frames: usize,
)
    ensures
        !config.multiple_models ==> (reconstructed_enough(config, models, total, num_frames)
            <==> models >= 1),
        config.multiple_models && models > 0 && models >= config.max_num_models
            ==> reconstructed_enough(config, models, total, num_frames),
        config.multiple_models && num_frames <= total + 1 ==> reconstructed_enough(
            config,
            models,
            total,
            num_frames,
        ),
        config.multiple_models && models < config.max_num_models && total + 1 < num_frames
            ==> !reconstructed_enough(config, models, total, num_frames),
        config.multiple_models && models == 0 && total + 1 < num_frames ==> !reconstructed_enough(
            config,
            models,
            total,
            num_frames,
        ),
{
}

/// A model without images is not kept. The first one and the only one are kept
/// otherwise, and a further one just if it is large enough.
pub proof fn law_kept_models(
    config: MapperConfig,
    models: usize,
    registered: nat,
    num_frames: usize,
)
    ensures
        registered == 0 ==> !keeps_model(config, models, registered, num_frames),
        registered > 0 && models == 0 ==> keeps_model(config, models, registered, num_frames),
        registered > 0 && !config.multiple_models ==> keeps_model(
            config,
            models,
            registered,
            num_frames,
        ),
        registered > 0 && (registered >= config.min_model_size || 2 * registered >= num_frames)
            ==> keeps_model(config, models, registered, num_frames),
        config.multiple_models && models > 0 && registered < config.min_model_size && registered
            < num_frames / 2 ==> !keeps_model(config, models, registered, num_frames),
{
}

/// After a trial comes the next of the stage, or the first of the next stage if
/// the stage has had all of its trials. A success that is kept counts a model and
/// ends the run if one model is wanted or the model shares enough with others.
pub proof fn law_run_goes_on(
    run: PipelineRun,
    config: MapperConfig,
    keep: bool,
    shared: usize,
)
    requires
        run.stage < usize::MAX,
        run.models < usize::MAX,
    ensures
        ({
            let next = run.next_trial(config);
            let relaxed = run.next_stage();
            let after = run.after_success(config, keep, shared);
            let trials = if config.init_num_trials == 0 {
                1
            } else {
                config.init_num_trials as int
            };
            &&& run.trial + 1 < trials ==> next.stage == run.stage && next.trial == run.trial + 1
            &&& run.trial + 1 >= trials ==> next.stage == run.stage + 1 && next.trial == 0
            &&& next.models == run.models && next.finished == run.finished
            &&& relaxed.stage == run.stage + 1 && relaxed.trial == 0
            &&& relaxed.models == run.models && relaxed.finished == run.finished
            &&& after.stage == next.stage && after.trial == next.trial
            &&& keep ==> after.models == run.models + 1
            &&& !keep ==> after.models == run.models
            &&& !config.multiple_models ==> after.finished
            &&& config.multiple_models ==> (after.finished <==> shared
                >= config.max_model_overlap)
        }),
{
}

} // verus!
