//! The sequence of reconstruction attempts and what is reported about them.

use crate::config::MapperConfig;
use crate::global_ba::{registered_image_count, registered_images};
use crate::registration_units::{registered_frame_count, registered_units};
use crate::scalar::Real32;
use crate::session::{session_well_formed, IncrementalMapperSession, SessionView};
use crate::types::{Reconstruction, ReconstructionView};
use vstd::prelude::*;

verus! {

/// How far the demands on the initial pair are relaxed.
#[derive(Debug, Clone, Copy, PartialEq, Eq, Structural)]
pub enum InitializationRelaxationStage {
    Strict,
    MinInliersRelaxed(usize),
    MinTriAngleRelaxed(usize),
}

impl InitializationRelaxationStage {
    pub open spec fn text(self) -> Seq<char> {
        match self {
            InitializationRelaxationStage::Strict => "strict"@,
            InitializationRelaxationStage::MinInliersRelaxed(_) => "relaxed_min_inliers"@,
            InitializationRelaxationStage::MinTriAngleRelaxed(_) => "relaxed_min_tri_angle"@,
        }
    }

    pub fn name(&self) -> (name: &'static str)
        ensures
            name@ == self.text(),
    {
        match self {
            InitializationRelaxationStage::Strict => "strict",
            InitializationRelaxationStage::MinInliersRelaxed(_) => "relaxed_min_inliers",
            InitializationRelaxationStage::MinTriAngleRelaxed(_) => "relaxed_min_tri_angle",
        }
    }
}

/// A stage with the demands on the initial pair that hold in it.
#[derive(Debug, Clone, Copy, PartialEq, Eq, Structural)]
pub struct InitializationStage {
    pub stage: InitializationRelaxationStage,
    pub init_min_num_inliers: usize,
    pub init_min_tri_angle_deg: Real32,
}

/// Half of a number of inliers, but at least one.
pub open spec fn halved_inliers(n: usize) -> usize {
    if n / 2 >= 1 {
        n / 2
    } else {
        1
    }
}

pub open spec fn halved_angle(angle: Real32) -> Real32 {
    Real32 { bits: angle.halved() as u32 }
}

/// The number of stages.
pub const NUM_STAGES: usize = 5;

/// The stages: the demands as configured, then the inliers and the angle halved
/// in turn, twice.
pub open spec fn initialization_stage(
    inliers: usize,
    angle: Real32,
    stage: int,
) -> InitializationStage {
    let inliers1 = halved_inliers(inliers);
    let inliers2 = halved_inliers(inliers1);
    let angle1 = halved_angle(angle);
    if stage <= 0 {
        InitializationStage {
            stage: InitializationRelaxationStage::Strict,
            init_min_num_inliers: inliers,
            init_min_tri_angle_deg: angle,
        }
    } else if stage == 1 {
        InitializationStage {
            stage: InitializationRelaxationStage::MinInliersRelaxed(1),
            init_min_num_inliers: inliers1,
            init_min_tri_angle_deg: angle,
        }
    } else if stage == 2 {
        InitializationStage {
            stage: InitializationRelaxationStage::MinTriAngleRelaxed(1),
            init_min_num_inliers: inliers1,
            init_min_tri_angle_deg: angle1,
        }
    } else if stage == 3 {
        InitializationStage {
            stage: InitializationRelaxationStage::MinInliersRelaxed(2),
            init_min_num_inliers: inliers2,
            init_min_tri_angle_deg: angle1,
        }
    } else {
        InitializationStage {
            stage: InitializationRelaxationStage::MinTriAngleRelaxed(2),
            init_min_num_inliers: inliers2,
            init_min_tri_angle_deg: halved_angle(angle1),
        }
    }
}

fn halve_inliers(n: usize) -> (h: usize)
    ensures
        h == halved_inliers(n),
{
    if n / 2 >= 1 {
        n / 2
    } else {
        1
    }
}

/// The stages in the order in which they are tried.
pub fn initialization_stage_configs(config: &MapperConfig) -> (stages: Vec<InitializationStage>)
    ensures
        stages@ == Seq::new(
            NUM_STAGES as nat,
            |i: int|
                initialization_stage(
                    config.init_min_num_inliers,
                    config.init_min_tri_angle_deg,
                    i,
                ),
        ),
{
    let mut inliers: usize = config.init_min_num_inliers;
    let mut angle: Real32 = config.init_min_tri_angle_deg;
    let mut stages: Vec<InitializationStage> = Vec::new();
    stages.push(
        InitializationStage {
            stage: InitializationRelaxationStage::Strict,
            init_min_num_inliers: inliers,
            init_min_tri_angle_deg: angle,
        },
    );
    for relaxation in 0..2usize
        invariant
            stages@.len() == 2 * relaxation + 1,
            stages@ == Seq::new(
                (2 * relaxation + 1) as nat,
                |i: int|
                    initialization_stage(
                        config.init_min_num_inliers,
                        config.init_min_tri_angle_deg,
                        i,
                    ),
            ),
            inliers == stages@.last().init_min_num_inliers,
            angle == stages@.last().init_min_tri_angle_deg,
    {
        let ghost before = stages@;
        inliers = halve_inliers(inliers);
        stages.push(
            InitializationStage {
                stage: InitializationRelaxationStage::MinInliersRelaxed(relaxation + 1),
                init_min_num_inliers: inliers,
                init_min_tri_angle_deg: angle,
            },
        );
        angle = angle.half();
        stages.push(
            InitializationStage {
                stage: InitializationRelaxationStage::MinTriAngleRelaxed(relaxation + 1),
                init_min_num_inliers: inliers,
                init_min_tri_angle_deg: angle,
            },
        );
        proof {
            let goal = Seq::new(
                (2 * (relaxation + 1) + 1) as nat,
                |i: int|
                    initialization_stage(
                        config.init_min_num_inliers,
                        config.init_min_tri_angle_deg,
                        i,
                    ),
            );
            assert(stages@.len() == goal.len());
            assert forall|i: int| 0 <= i < goal.len() implies #[trigger] stages@[i] == goal[i] by {
                if i < before.len() {
                    assert(stages@[i] == before[i]);
                }
            }
            assert(stages@ =~= goal);
        }
    }
    stages
}

/// No stage asks for more than the one before it, if the first asks for an
/// inlier and an angle that is a number and not negative.
pub proof fn law_stages_relax(inliers: usize, angle: Real32, stage: int)
    requires
        inliers >= 1,
        angle.finite(),
        angle.bits < 0x8000_0000u32,
        0 <= stage < NUM_STAGES - 1,
    ensures
        ({
            let a = initialization_stage(inliers, angle, stage);
            let b = initialization_stage(inliers, angle, stage + 1);
            &&& 1 <= b.init_min_num_inliers <= a.init_min_num_inliers
            &&& b.init_min_tri_angle_deg.at_most(a.init_min_tri_angle_deg)
        }),
{
    let once = halved_angle(angle);
    assert(0 <= angle.halved() <= angle.bits);
    assert(once.bits <= angle.bits);
    assert(0 <= once.halved() <= once.bits);
}

/// When a pipeline reports back.
#[derive(Debug, Clone, Copy, PartialEq, Eq, Structural)]
pub enum IncrementalPipelineCallback {
    InitialImagePairReg,
    NextImageReg,
    LastImageReg,
}

impl IncrementalPipelineCallback {
    pub open spec fn text(self) -> Seq<char> {
        match self {
            IncrementalPipelineCallback::InitialImagePairReg => "initial_image_pair_reg"@,
            IncrementalPipelineCallback::NextImageReg => "next_image_reg"@,
            IncrementalPipelineCallback::LastImageReg => "last_image_reg"@,
        }
    }

    pub fn as_str(self) -> (text: &'static str)
        ensures
            text@ == self.text(),
    {
        match self {
            IncrementalPipelineCallback::InitialImagePairReg => "initial_image_pair_reg",
            IncrementalPipelineCallback::NextImageReg => "next_image_reg",
            IncrementalPipelineCallback::LastImageReg => "last_image_reg",
        }
    }
}

/// What a pipeline reports.
#[derive(Debug, Clone, Copy, PartialEq, Eq, Structural)]
pub struct PipelineCallbackEvent {
    pub callback: IncrementalPipelineCallback,
    pub model_index: usize,
    pub registered_images: usize,
    pub registered_frames: usize,
    pub points: usize,
}

pub fn pipeline_callback_event(
    callback: IncrementalPipelineCallback,
    model_index: usize,
    reconstruction: &Reconstruction,
) -> (event: PipelineCallbackEvent)
    ensures
        event.callback == callback,
        event.model_index == model_index,
        event.registered_images == registered_images(reconstruction@),
        event.registered_frames == registered_units(reconstruction@),
        event.points == reconstruction@.points.len(),
{
    PipelineCallbackEvent {
        callback,
        model_index,
        registered_images: registered_image_count(reconstruction),
        registered_frames: registered_frame_count(reconstruction),
        points: reconstruction.points.len(),
    }
}

/// When the last snapshot was taken, and how many there are.
#[derive(Debug, Clone, Copy, PartialEq, Eq, Structural)]
pub struct PipelineSnapshotState {
    pub previous_registered_frames: usize,
    pub next_index: usize,
}

/// Whether enough frames were registered since the last snapshot.
pub open spec fn snapshot_due(
    state: PipelineSnapshotState,
    r: ReconstructionView,
    config: MapperConfig,
) -> bool {
    &&& config.snapshot_frames_freq > 0
    &&& config.snapshot_path is Some
    &&& registered_units(r) >= state.previous_registered_frames + config.snapshot_frames_freq
}

impl PipelineSnapshotState {
    pub fn new(reconstruction: &Reconstruction) -> (state: PipelineSnapshotState)
        ensures
            state.previous_registered_frames == registered_units(reconstruction@),
            state.next_index == 0,
    {
        PipelineSnapshotState {
            previous_registered_frames: registered_frame_count(reconstruction),
            next_index: 0,
        }
    }

    /// Counts a snapshot if one is due and gives its number.
    pub fn take_snapshot(&mut self, reconstruction: &Reconstruction, config: &MapperConfig) -> (index:
        Option<usize>)
        requires
            old(self).next_index < usize::MAX,
        ensures
            index == (if snapshot_due(*old(self), reconstruction@, *config) {
                Some((old(self).next_index + 1) as usize)
            } else {
                None
            }),
            *final(self) == (match index {
                Some(i) => PipelineSnapshotState {
                    previous_registered_frames: registered_units(reconstruction@) as usize,
                    next_index: i,
                },
                None => *old(self),
            }),
    {
        if config.snapshot_frames_freq == 0 || config.snapshot_path.is_none() {
            return None;
        }
        let registered: usize = registered_frame_count(reconstruction);
        if registered < self.previous_registered_frames || registered
            - self.previous_registered_frames < config.snapshot_frames_freq {
            return None;
        }
        self.previous_registered_frames = registered;
        self.next_index = self.next_index + 1;
        Some(self.next_index)
    }
}

/// The most models a pipeline keeps.
pub open spec fn model_limit(config: MapperConfig) -> usize {
    if config.multiple_models {
        if config.max_num_models >= 1 {
            config.max_num_models
        } else {
            1
        }
    } else {
        1
    }
}

/// The least number of images of a further model.
pub open spec fn model_size_limit(config: MapperConfig, num_frames: usize) -> usize {
    if config.min_model_size <= num_frames / 2 {
        config.min_model_size
    } else {
        num_frames / 2
    }
}

/// The number of attempts per stage.
pub open spec fn trials_per_stage(config: MapperConfig) -> usize {
    if config.init_num_trials >= 1 {
        config.init_num_trials
    } else {
        1
    }
}

/// Whether nothing is left to reconstruct.
pub open spec fn reconstructed_enough(
    config: MapperConfig,
    models: usize,
    total: nat,
    num_frames: usize,
) -> bool {
    models >= model_limit(config) || (config.multiple_models && total + 1 >= num_frames)
}

/// Whether a model is kept: it has an image and, unless it is the first one or
/// only one is wanted, is large enough.
pub open spec fn keeps_model(
    config: MapperConfig,
    models: usize,
    registered: nat,
    num_frames: usize,
) -> bool {
    registered > 0 && (!config.multiple_models || models == 0 || registered >= model_size_limit(
        config,
        num_frames,
    ))
}

/// An attempt to make.
#[derive(Debug, Clone, Copy, PartialEq, Eq, Structural)]
pub struct PipelineAttempt {
    pub stage: usize,
    pub trial: usize,
    pub uses_seed: bool,
    pub model_index: usize,
}

/// The position of a pipeline in its sequence of attempts.
#[derive(Debug, Clone, Copy, PartialEq, Eq, Structural)]
pub struct PipelineRun {
    pub stage: usize,
    pub trial: usize,
    pub models: usize,
    pub finished: bool,
}

impl PipelineRun {
    /// Whether the position lies within the stages and the limit on models.
    pub open spec fn wf(self, config: MapperConfig) -> bool {
        &&& self.stage <= NUM_STAGES
        &&& self.trial < trials_per_stage(config)
        &&& self.stage == NUM_STAGES ==> self.trial == 0
        &&& self.models <= model_limit(config)
    }

    /// The attempts that can still follow.
    pub open spec fn attempts_left(self, config: MapperConfig) -> int {
        if self.finished {
            0
        } else {
            (NUM_STAGES - self.stage) * trials_per_stage(config) - self.trial
        }
    }

    /// The position after another trial of the same stage.
    pub open spec fn next_trial(self, config: MapperConfig) -> PipelineRun {
        if self.trial + 1 >= trials_per_stage(config) {
            self.next_stage()
        } else {
            PipelineRun { trial: (self.trial + 1) as usize, ..self }
        }
    }

    pub open spec fn next_stage(self) -> PipelineRun {
        PipelineRun { stage: (self.stage + 1) as usize, trial: 0, ..self }
    }

    pub open spec fn after_success(
        self,
        config: MapperConfig,
        keep: bool,
        shared: usize,
    ) -> PipelineRun {
        let next = self.next_trial(config);
        PipelineRun {
            models: if keep {
                (self.models + 1) as usize
            } else {
                self.models
            },
            finished: !config.multiple_models || shared >= config.max_model_overlap,
            ..next
        }
    }

    pub fn new(config: &MapperConfig) -> (run: PipelineRun)
        ensures
            run == (PipelineRun { stage: 0, trial: 0, models: 0, finished: false }),
            run.wf(*config),
    {
        PipelineRun { stage: 0, trial: 0, models: 0, finished: false }
    }

    /// The attempt to make next, if any. Relaxed stages forget which seeds were
    /// tried.
    pub fn next_attempt(
        &mut self,
        config: &MapperConfig,
        session: &mut IncrementalMapperSession,
        num_frames: usize,
    ) -> (attempt: Option<PipelineAttempt>)
        requires
            old(self).wf(*config),
            session_well_formed(old(session)@),
        ensures
            final(self).wf(*config),
            session_well_formed(final(session)@),
            ({
                let run = *old(self);
                let active = !run.finished && run.stage < NUM_STAGES;
                let total = old(session)@.registrations.dom().len();
                let goes_on = active && !reconstructed_enough(
                    *config,
                    run.models,
                    total,
                    num_frames,
                );
                &&& final(session)@ == (if active && run.stage > 0 && run.trial == 0 {
                    SessionView {
                        trials: Map::empty(),
                        tried: Set::empty(),
                        ..old(session)@
                    }
                } else {
                    old(session)@
                })
                &&& attempt == (if goes_on {
                    Some(
                        PipelineAttempt {
                            stage: run.stage,
                            trial: run.trial,
                            uses_seed: run.stage == 0 && run.trial == 0,
                            model_index: run.models,
                        },
                    )
                } else {
                    None
                })
                &&& *final(self) == (PipelineRun { finished: !goes_on, ..run })
            }),
    {
        if self.finished || self.stage >= NUM_STAGES {
            self.finished = true;
            return None;
        }
        if self.stage > 0 && self.trial == 0 {
            session.reset_initialization_stats();
        }
        let limit: usize = if config.multiple_models && config.max_num_models >= 1 {
            config.max_num_models
        } else {
            1
        };
        let enough: bool = config.multiple_models && {
            let total: usize = session.num_total_registered_images();
            num_frames == 0 || total >= num_frames - 1
        };
        if self.models >= limit || enough {
            self.finished = true;
            return None;
        }
        Some(
            PipelineAttempt {
                stage: self.stage,
                trial: self.trial,
                uses_seed: self.stage == 0 && self.trial == 0,
                model_index: self.models,
            },
        )
    }

    /// The attempt to make next where one model of any size is wanted, if any.
    /// Relaxed stages forget which seeds were tried.
    pub fn next_single_attempt(
        &mut self,
        config: &MapperConfig,
        session: &mut IncrementalMapperSession,
    ) -> (attempt: Option<PipelineAttempt>)
        requires
            old(self).wf(*config),
        ensures
            final(self).wf(*config),
            ({
                let run = *old(self);
                let active = !run.finished && run.stage < NUM_STAGES;
                &&& final(session)@ == (if active && run.stage > 0 && run.trial == 0 {
                    SessionView {
                        trials: Map::empty(),
                        tried: Set::empty(),
                        ..old(session)@
                    }
                } else {
                    old(session)@
                })
                &&& attempt == (if active {
                    Some(
                        PipelineAttempt {
                            stage: run.stage,
                            trial: run.trial,
                            uses_seed: run.stage == 0 && run.trial == 0,
                            model_index: 0,
                        },
                    )
                } else {
                    None
                })
                &&& *final(self) == (PipelineRun { finished: !active, ..run })
            }),
    {
        if self.finished || self.stage >= NUM_STAGES {
            self.finished = true;
            return None;
        }
        if self.stage > 0 && self.trial == 0 {
            session.reset_initialization_stats();
        }
        Some(
            PipelineAttempt {
                stage: self.stage,
                trial: self.trial,
                uses_seed: self.stage == 0 && self.trial == 0,
                model_index: 0,
            },
        )
    }

    /// Records the one model that was wanted.
    pub fn record_single_model(&mut self)
        ensures
            *final(self) == (PipelineRun { models: 1, finished: true, ..*old(self) }),
    {
        self.models = 1;
        self.finished = true;
    }

    fn step(&mut self, config: &MapperConfig)
        requires
            old(self).wf(*config),
            old(self).stage < NUM_STAGES,
        ensures
            *final(self) == old(self).next_trial(*config),
            final(self).wf(*config),
    {
        let trials: usize = if config.init_num_trials >= 1 {
            config.init_num_trials
        } else {
            1
        };
        if self.trial >= trials - 1 {
            self.stage = self.stage + 1;
            self.trial = 0;
        } else {
            self.trial = self.trial + 1;
        }
    }

    /// Records that an attempt gave a model. Gives whether the model is kept; a
    /// model that is not is taken out of the session.
    pub fn record_model(
        &mut self,
        config: &MapperConfig,
        session: &mut IncrementalMapperSession,
        reconstruction: &Reconstruction,
        num_frames: usize,
    ) -> (keep: bool)
        requires
            old(self).wf(*config),
            old(self).stage < NUM_STAGES,
            old(self).models < model_limit(*config),
            session_well_formed(old(session)@),
        ensures
            keep == keeps_model(
                *config,
                old(self).models,
                registered_images(reconstruction@),
                num_frames,
            ),
            *final(self) == old(self).after_success(*config, keep, final(session)@.shared),
            final(self).wf(*config),
            session_well_formed(final(session)@),
            keep ==> final(session)@ == old(session)@,
            !keep ==> final(session)@.shared == 0 && final(session)@.trials
                == old(session)@.trials && final(session)@.tried == old(session)@.tried,
            !keep && !old(session)@.committed ==> final(session)@ == (SessionView {
                shared: 0,
                ..old(session)@
            }),
            !keep && old(session)@.committed ==> !final(session)@.committed && forall|id: u32|
                #[trigger]
                crate::registration_stats::lookup(final(session)@.registrations, id)
                    == crate::session::count_after(
                    crate::registration_stats::lookup(old(session)@.registrations, id),
                    crate::session::registrations_of(reconstruction@, id),
                    true,
                ),
    {
        let registered: usize = registered_image_count(reconstruction);
        let half: usize = num_frames / 2;
        let least: usize = if config.min_model_size <= half {
            config.min_model_size
        } else {
            half
        };
        let keep: bool = registered > 0 && (!config.multiple_models || self.models == 0
            || registered >= least);
        self.step(config);
        if keep {
            self.models = self.models + 1;
        } else {
            session.end_reconstruction(reconstruction, true);
        }
        self.finished = !config.multiple_models || session.num_shared_registered_image_events()
            >= config.max_model_overlap;
        keep
    }

    /// Records that an attempt failed. Without an initial pair the rest of the
    /// stage would fail too.
    pub fn record_failure(&mut self, config: &MapperConfig, no_initial_pair: bool)
        requires
            old(self).wf(*config),
            old(self).stage < NUM_STAGES,
        ensures
            *final(self) == (if no_initial_pair {
                old(self).next_stage()
            } else {
                old(self).next_trial(*config)
            }),
            final(self).wf(*config),
    {
        if no_initial_pair {
            self.stage = self.stage + 1;
            self.trial = 0;
        } else {
            self.step(config);
        }
    }
}

/// A pipeline comes to an end: every recorded outcome leaves fewer attempts.
pub proof fn law_attempts_run_out(
    run: PipelineRun,
    config: MapperConfig,
    keep: bool,
    shared: usize,
)
    requires
        run.wf(config),
        run.stage < NUM_STAGES,
        !run.finished,
    ensures
        0 <= run.next_stage().attempts_left(config) < run.attempts_left(config),
        0 <= run.next_trial(config).attempts_left(config) < run.attempts_left(config),
        0 <= run.after_success(config, keep, shared).attempts_left(config) < run.attempts_left(
            config,
        ),
{
    let t = trials_per_stage(config) as int;
    let s = NUM_STAGES - run.stage;
    assert((s - 1) * t == s * t - t) by (nonlinear_arith);
    assert((s - 1) * t >= 0) by (nonlinear_arith)
        requires
            s >= 1,
            t >= 1,
    ;
}

/// Why a pipeline gave no model.
#[derive(Debug, Clone, Copy, PartialEq, Eq, Structural)]
pub enum PipelineFailure {
    /// An attempt failed, the last one.
    AttemptsFailed,
    /// All models were discarded.
    NoModelKept,
}

/// How a pipeline ends.
pub fn pipeline_result(models: usize, any_failure: bool) -> (result: Result<
    usize,
    PipelineFailure,
>)
    ensures
        match result {
            Ok(n) => n == models && models > 0,
            Err(PipelineFailure::AttemptsFailed) => models == 0 && any_failure,
            Err(PipelineFailure::NoModelKept) => models == 0 && !any_failure,
        },
{
    if models > 0 {
        Ok(models)
    } else if any_failure {
        Err(PipelineFailure::AttemptsFailed)
    } else {
        Err(PipelineFailure::NoModelKept)
    }
}

} // verus!
