//! When and how the whole model is refined.

use crate::config::MapperConfig;
use crate::indices::{count_where, indices_where, lemma_count_bound};
use crate::registration_stats::{in_existing_unit, RegistrationStats};
use crate::registration_units::{
    leads_unit, registered_frame_count, registered_units, registration_unit_key, unit_seen,
    lemma_unit_seen_step, law_units_partition, UnitSet,
};
use crate::scalar::Real32;
use crate::types::{has_pose, Point3DView, Reconstruction, ReconstructionView};
use vstd::prelude::*;

verus! {

pub open spec fn registered_images(r: ReconstructionView) -> nat {
    count_where(r.poses.len(), has_pose(r.poses))
}

pub fn registered_image_count(reconstruction: &Reconstruction) -> (n: usize)
    ensures
        n == registered_images(reconstruction@),
{
    let mut n: usize = 0;
    for image in 0..reconstruction.poses.len()
        invariant
            n == count_where(image as nat, has_pose(reconstruction@.poses)),
            n <= image,
    {
        if reconstruction.poses[image].is_some() {
            n = n + 1;
        }
    }
    n
}

/// A model has no more registered units than registered images.
pub proof fn law_units_at_most_images(r: ReconstructionView)
    ensures
        registered_units(r) <= registered_images(r),
{
    crate::indices::lemma_count_monotone(r.poses.len(), leads_unit(r), has_pose(r.poses));
}

/// The observations of the first `k` points.
pub open spec fn observations_upto(points: Seq<Point3DView>, k: nat) -> nat
    decreases k,
{
    if k == 0 {
        0
    } else {
        observations_upto(points, (k - 1) as nat) + points[k - 1].track.len()
    }
}

pub open spec fn num_observations(r: ReconstructionView) -> nat {
    observations_upto(r.points, r.points.len())
}

proof fn lemma_observations_monotone(points: Seq<Point3DView>, j: nat, k: nat)
    requires
        j <= k,
    ensures
        observations_upto(points, j) <= observations_upto(points, k),
    decreases k,
{
    if j < k {
        lemma_observations_monotone(points, j, (k - 1) as nat);
    }
}

/// The total length of all tracks.
pub fn reconstruction_num_observations(reconstruction: &Reconstruction) -> (n: usize)
    requires
        num_observations(reconstruction@) <= usize::MAX,
    ensures
        n == num_observations(reconstruction@),
{
    let mut n: usize = 0;
    for p in 0..reconstruction.points.len()
        invariant
            num_observations(reconstruction@) <= usize::MAX,
            n == observations_upto(reconstruction@.points, p as nat),
    {
        proof {
            lemma_observations_monotone(
                reconstruction@.points,
                (p + 1) as nat,
                reconstruction@.points.len(),
            );
            assert(reconstruction@.points[p as int].track
                == reconstruction.points@[p as int].track@);
        }
        n = n + reconstruction.points[p].track.len();
    }
    n
}

/// The size of the model when it was last refined as a whole.
#[derive(Debug, Clone, Copy, PartialEq, Eq, Structural)]
pub struct GlobalBaSchedule {
    pub prev_registered_images: usize,
    pub prev_registered_frames: usize,
    pub prev_points: usize,
}

pub open spec fn schedule_of(r: ReconstructionView) -> GlobalBaSchedule {
    GlobalBaSchedule {
        prev_registered_images: registered_images(r) as usize,
        prev_registered_frames: registered_units(r) as usize,
        prev_points: r.points.len() as usize,
    }
}

impl GlobalBaSchedule {
    pub fn new(reconstruction: &Reconstruction) -> (schedule: GlobalBaSchedule)
        ensures
            schedule == schedule_of(reconstruction@),
    {
        GlobalBaSchedule {
            prev_registered_images: registered_image_count(reconstruction),
            prev_registered_frames: registered_frame_count(reconstruction),
            prev_points: reconstruction.points.len(),
        }
    }

    /// Records the present size of the model.
    pub fn mark(&mut self, reconstruction: &Reconstruction)
        ensures
            *final(self) == schedule_of(reconstruction@),
    {
        self.prev_registered_images = registered_image_count(reconstruction);
        self.prev_registered_frames = registered_frame_count(reconstruction);
        self.prev_points = reconstruction.points.len();
    }
}

/// Whether the settings allow a global refinement.
pub open spec fn global_ba_on(config: MapperConfig) -> bool {
    config.global_ba && config.global_ba_iterations > 0 && config.global_ba_max_refinements > 0
}

pub fn global_ba_enabled(config: &MapperConfig) -> (b: bool)
    ensures
        b == global_ba_on(*config),
{
    config.global_ba && config.global_ba_iterations > 0 && config.global_ba_max_refinements > 0
}

/// Whether a model can be refined as a whole.
pub open spec fn can_refine(r: ReconstructionView, config: MapperConfig) -> bool {
    global_ba_on(config) && registered_images(r) >= 2 && r.points.len() > 0
}

pub fn can_refine_globally(reconstruction: &Reconstruction, config: &MapperConfig) -> (b: bool)
    ensures
        b == can_refine(reconstruction@, *config),
{
    global_ba_enabled(config) && registered_image_count(reconstruction) >= 2
        && !reconstruction.points.is_empty()
}

/// Whether a size has grown by a step since the last refinement. A step of
/// zero is never reached.
pub open spec fn grown_by(now: nat, before: usize, step: usize) -> bool {
    step > 0 && now >= (if before + step <= usize::MAX {
        before + step
    } else {
        usize::MAX as int
    })
}

/// Which sizes have reached the configured multiple of their last value.
#[derive(Debug, Clone, Copy, PartialEq, Eq, Structural)]
pub struct RatioHits {
    pub images: bool,
    pub points: bool,
}

/// The encoding of one.
pub const ONE: u32 = 0x3f80_0000;

/// Whether the model has grown enough for a global refinement.
pub open spec fn global_ba_due(
    schedule: GlobalBaSchedule,
    r: ReconstructionView,
    config: MapperConfig,
    hits: RatioHits,
) -> bool {
    let one = Real32 { bits: ONE };
    &&& can_refine(r, config)
    &&& {
        ||| grown_by(
            registered_units(r),
            schedule.prev_registered_frames,
            config.global_ba_images_freq,
        )
        ||| grown_by(r.points.len(), schedule.prev_points, config.global_ba_points_freq)
        ||| (one.below(config.global_ba_images_ratio) && schedule.prev_registered_frames > 0
            && hits.images)
        ||| (one.below(config.global_ba_points_ratio) && schedule.prev_points > 0 && hits.points)
    }
}

fn has_grown_by(now: usize, before: usize, step: usize) -> (b: bool)
    ensures
        b == grown_by(now as nat, before, step),
{
    if step == 0 {
        return false;
    }
    let target: usize = if before <= usize::MAX - step {
        before + step
    } else {
        usize::MAX
    };
    now >= target
}

/// Decides whether to refine the whole model now. `hits` tells which sizes
/// have reached the configured multiple of their last value.
pub fn should_run_global_ba(
    schedule: &GlobalBaSchedule,
    reconstruction: &Reconstruction,
    config: &MapperConfig,
    hits: RatioHits,
) -> (b: bool)
    ensures
        b == global_ba_due(*schedule, reconstruction@, *config, hits),
{
    if !can_refine_globally(reconstruction, config) {
        return false;
    }
    let one = Real32 { bits: ONE };
    let registered: usize = registered_frame_count(reconstruction);
    let points: usize = reconstruction.points.len();
    let image_freq_hit: bool = has_grown_by(
        registered,
        schedule.prev_registered_frames,
        config.global_ba_images_freq,
    );
    let point_freq_hit: bool = has_grown_by(
        points,
        schedule.prev_points,
        config.global_ba_points_freq,
    );
    let image_ratio_hit: bool = one.lt(&config.global_ba_images_ratio)
        && schedule.prev_registered_frames > 0 && hits.images;
    let point_ratio_hit: bool = one.lt(&config.global_ba_points_ratio) && schedule.prev_points > 0
        && hits.points;
    image_freq_hit || point_freq_hit || image_ratio_hit || point_ratio_hit
}

/// Whether a last refinement is due: the model changed since the last one.
pub open spec fn final_global_ba_due(
    schedule: GlobalBaSchedule,
    r: ReconstructionView,
    config: MapperConfig,
) -> bool {
    can_refine(r, config) && (registered_units(r) != schedule.prev_registered_frames
        || r.points.len() != schedule.prev_points)
}

pub fn should_run_final_global_ba(
    schedule: &GlobalBaSchedule,
    reconstruction: &Reconstruction,
    config: &MapperConfig,
) -> (b: bool)
    ensures
        b == final_global_ba_due(*schedule, reconstruction@, *config),
{
    can_refine_globally(reconstruction, config) && (registered_frame_count(reconstruction)
        != schedule.prev_registered_frames || reconstruction.points.len() != schedule.prev_points)
}

/// Right after the schedule was marked no refinement is due, unless a size has
/// reached a multiple of itself.
pub proof fn law_nothing_due_after_mark(r: ReconstructionView, config: MapperConfig)
    requires
        r.poses.len() <= usize::MAX,
        r.points.len() < usize::MAX,
    ensures
        !final_global_ba_due(schedule_of(r), r, config),
        registered_units(r) < usize::MAX ==> !global_ba_due(
            schedule_of(r),
            r,
            config,
            (RatioHits { images: false, points: false }),
        ),
{
    lemma_count_bound(r.poses.len(), leads_unit(r));
}

/// The first two leaders of registered units.
pub open spec fn gauge_images(r: ReconstructionView) -> Seq<usize> {
    let leaders = indices_where(r.poses.len(), leads_unit(r));
    if leaders.len() <= 2 {
        leaders
    } else {
        leaders.take(2)
    }
}

/// The images that fix the gauge: the first registered image of each of the
/// first two units.
pub fn global_ba_gauge_images(reconstruction: &Reconstruction) -> (images: Vec<usize>)
    ensures
        images@ == gauge_images(reconstruction@),
{
    let ghost r = reconstruction@;
    let mut seen = UnitSet::new();
    let mut images: Vec<usize> = Vec::new();
    let n: usize = reconstruction.poses.len();
    let mut image: usize = 0;
    while image < n && images.len() < 2
        invariant
            r == reconstruction@,
            n == r.poses.len(),
            image <= n,
            images@ == indices_where(image as nat, leads_unit(r)),
            images@.len() <= 2,
            forall|m: usize|
                seen@.contains(#[trigger] r.unit_key(m)) <==> unit_seen(r, image as int, m as int),
        decreases n - image,
    {
        let ghost marks = seen@;
        if reconstruction.poses[image].is_some() {
            let key = registration_unit_key(reconstruction, image);
            assert(r.registered(image as int));
            assert(seen@.contains(r.unit_key(image)) <==> unit_seen(
                r,
                image as int,
                image as int,
            ));
            if seen.insert(key) {
                images.push(image);
            }
        } else {
            assert(!r.registered(image as int));
        }
        proof {
            assert forall|m: usize|
                seen@.contains(#[trigger] r.unit_key(m)) <==> unit_seen(r, image + 1, m as int) by {
                lemma_unit_seen_step(r, image as int, m as int);
                assert(marks.contains(r.unit_key(m)) <==> unit_seen(r, image as int, m as int));
                law_units_partition(r, image, m, m);
            }
        }
        image = image + 1;
    }
    proof {
        lemma_leaders_prefix(r, image as nat, n as nat);
        let leaders = indices_where(n as nat, leads_unit(r));
        if images@.len() == 2 {
            assert(leaders.take(2) =~= images@);
            if leaders.len() == 2 {
                assert(leaders =~= images@);
            }
        }
    }
    images
}

proof fn lemma_leaders_prefix(r: ReconstructionView, j: nat, k: nat)
    requires
        j <= k,
    ensures
        indices_where(j, leads_unit(r)).len() <= indices_where(k, leads_unit(r)).len(),
        forall|i: int|
            0 <= i < indices_where(j, leads_unit(r)).len() ==> #[trigger] indices_where(
                k,
                leads_unit(r),
            )[i] == indices_where(j, leads_unit(r))[i],
    decreases k,
{
    if j < k {
        lemma_leaders_prefix(r, j, (k - 1) as nat);
    }
}

#[derive(Debug, Clone, Copy, PartialEq, Eq, Structural)]
pub enum ModelSize {
    Small,
    Large,
}

impl ModelSize {
    pub open spec fn text(self) -> Seq<char> {
        match self {
            ModelSize::Small => "small"@,
            ModelSize::Large => "large"@,
        }
    }

    pub fn as_str(&self) -> (text: &'static str)
        ensures
            text@ == self.text(),
    {
        match self {
            ModelSize::Small => "small",
            ModelSize::Large => "large",
        }
    }
}

/// A model is large from the configured number of units or points on.
pub fn global_ba_size_tag(reconstruction: &Reconstruction, config: &MapperConfig) -> (size:
    ModelSize)
    ensures
        size is Large <==> (config.global_ba_images_freq > 0 && registered_units(reconstruction@)
            >= config.global_ba_images_freq) || (config.global_ba_points_freq > 0
            && reconstruction@.points.len() >= config.global_ba_points_freq),
{
    if (config.global_ba_images_freq > 0 && registered_frame_count(reconstruction)
        >= config.global_ba_images_freq) || (config.global_ba_points_freq > 0
        && reconstruction.points.len() >= config.global_ba_points_freq) {
        ModelSize::Large
    } else {
        ModelSize::Small
    }
}

/// What to do next while the whole model is refined.
#[derive(Debug)]
pub enum GlobalRefinementAction {
    /// Complete, merge and retriangulate tracks.
    Prepare,
    /// Adjust cameras and points, with these images fixed.
    Adjust { gauge_images: Vec<usize>, constant_images: Vec<usize>, observations: usize },
    /// Complete and merge tracks, then filter observations and units.
    Postprocess,
    /// The refinement is over.
    Finish,
}

/// What happened to the last action.
#[derive(Debug, Clone, Copy, PartialEq, Eq, Structural)]
pub enum GlobalRefinementEvent {
    Prepared,
    Adjusted,
    AdjustmentFailed,
    /// The share of observations that postprocessing changed.
    Postprocessed { changed: Real32 },
}

/// Where a refinement of the whole model stands.
#[derive(Debug, Clone, Copy, PartialEq, Eq, Structural)]
pub struct GlobalRefinement {
    /// Adjustments started so far.
    pub rounds: usize,
    pub finished: bool,
}

#[verifier::ext_equal]
pub enum GlobalRefinementChoice {
    Prepare,
    Adjust { gauge_images: Seq<usize>, constant_images: Seq<usize>, observations: nat },
    Postprocess,
    Finish,
}

impl View for GlobalRefinementAction {
    type V = GlobalRefinementChoice;

    open spec fn view(&self) -> GlobalRefinementChoice {
        match *self {
            GlobalRefinementAction::Prepare => GlobalRefinementChoice::Prepare,
            GlobalRefinementAction::Adjust { gauge_images, constant_images, observations } =>
                GlobalRefinementChoice::Adjust {
                gauge_images: gauge_images@,
                constant_images: constant_images@,
                observations: observations as nat,
            },
            GlobalRefinementAction::Postprocess => GlobalRefinementChoice::Postprocess,
            GlobalRefinementAction::Finish => GlobalRefinementChoice::Finish,
        }
    }
}

/// The images that stay fixed: those of earlier models, if configured.
pub open spec fn fixed_images(
    r: ReconstructionView,
    config: MapperConfig,
    existing: Set<crate::registration_units::RegistrationUnitKey>,
) -> Seq<usize> {
    if config.fix_existing_frames {
        indices_where(r.poses.len(), in_existing_unit(r, existing))
    } else {
        Seq::empty()
    }
}

/// Another adjustment takes place while rounds are left and the model has
/// observations and a gauge.
pub open spec fn round_starts(
    state: GlobalRefinement,
    r: ReconstructionView,
    config: MapperConfig,
) -> bool {
    state.rounds < config.global_ba_max_refinements && num_observations(r) > 0 && gauge_images(
        r,
    ).len() > 0
}

/// The next state and action after an event.
pub open spec fn refinement_step(
    state: GlobalRefinement,
    event: GlobalRefinementEvent,
    r: ReconstructionView,
    config: MapperConfig,
    existing: Set<crate::registration_units::RegistrationUnitKey>,
) -> (GlobalRefinement, GlobalRefinementChoice) {
    let over = (GlobalRefinement { finished: true, ..state }, GlobalRefinementChoice::Finish);
    let again = if round_starts(state, r, config) {
        (
            GlobalRefinement { rounds: (state.rounds + 1) as usize, ..state },
            GlobalRefinementChoice::Adjust {
                gauge_images: gauge_images(r),
                constant_images: fixed_images(r, config, existing),
                observations: num_observations(r),
            },
        )
    } else {
        over
    };
    if state.finished {
        over
    } else {
        match event {
            GlobalRefinementEvent::Prepared => again,
            GlobalRefinementEvent::Adjusted => (state, GlobalRefinementChoice::Postprocess),
            GlobalRefinementEvent::AdjustmentFailed => over,
            GlobalRefinementEvent::Postprocessed { changed } => if changed.at_most(
                config.global_ba_max_refinement_change,
            ) {
                over
            } else {
                again
            },
        }
    }
}

impl GlobalRefinement {
    /// Starts a refinement, if the model can be refined.
    pub fn start(reconstruction: &Reconstruction, config: &MapperConfig) -> (started: (
        GlobalRefinement,
        GlobalRefinementAction,
    ))
        ensures
            started.0 == (GlobalRefinement {
                rounds: 0,
                finished: !can_refine(reconstruction@, *config),
            }),
            started.1@ == (if can_refine(reconstruction@, *config) {
                GlobalRefinementChoice::Prepare
            } else {
                GlobalRefinementChoice::Finish
            }),
    {
        if can_refine_globally(reconstruction, config) {
            (GlobalRefinement { rounds: 0, finished: false }, GlobalRefinementAction::Prepare)
        } else {
            (GlobalRefinement { rounds: 0, finished: true }, GlobalRefinementAction::Finish)
        }
    }

    /// Takes the outcome of the last action and gives the next one.
    pub fn advance(
        &mut self,
        event: GlobalRefinementEvent,
        reconstruction: &Reconstruction,
        config: &MapperConfig,
        registration_stats: &RegistrationStats,
    ) -> (action: GlobalRefinementAction)
        requires
            num_observations(reconstruction@) <= usize::MAX,
        ensures
            (*final(self), action@) == refinement_step(
                *old(self),
                event,
                reconstruction@,
                *config,
                registration_stats@.existing,
            ),
    {
        if self.finished {
            return GlobalRefinementAction::Finish;
        }
        let again: bool = match event {
            GlobalRefinementEvent::Prepared => true,
            GlobalRefinementEvent::Adjusted => {
                return GlobalRefinementAction::Postprocess;
            },
            GlobalRefinementEvent::AdjustmentFailed => false,
            GlobalRefinementEvent::Postprocessed { changed } => !changed.le(
                &config.global_ba_max_refinement_change,
            ),
        };
        if again && self.rounds < config.global_ba_max_refinements {
            let observations: usize = reconstruction_num_observations(reconstruction);
            let gauge_images: Vec<usize> = global_ba_gauge_images(reconstruction);
            if observations > 0 && gauge_images.len() > 0 {
                let constant_images: Vec<usize> = if config.fix_existing_frames {
                    registration_stats.existing_registered_images(reconstruction)
                } else {
                    Vec::new()
                };
                self.rounds = self.rounds + 1;
                return GlobalRefinementAction::Adjust {
                    gauge_images,
                    constant_images,
                    observations,
                };
            }
        }
        self.finished = true;
        GlobalRefinementAction::Finish
    }

    /// Whether an adjustment was attempted.
    pub fn attempted(&self) -> (b: bool)
        ensures
            b == (self.rounds > 0),
    {
        self.rounds > 0
    }
}

/// A refinement never exceeds the configured number of rounds, a round begins
/// with an adjustment, and once it is over it stays over.
pub proof fn law_refinement_bounded(
    state: GlobalRefinement,
    event: GlobalRefinementEvent,
    r: ReconstructionView,
    config: MapperConfig,
    existing: Set<crate::registration_units::RegistrationUnitKey>,
)
    requires
        state.rounds <= config.global_ba_max_refinements,
    ensures
        ({
            let (next, action) = refinement_step(state, event, r, config, existing);
            &&& next.rounds <= config.global_ba_max_refinements
            &&& state.rounds <= next.rounds
            &&& next.rounds > state.rounds <==> action is Adjust
            &&& next.finished <==> action is Finish
            &&& state.finished ==> next.finished
        }),
{
}

} // verus!
