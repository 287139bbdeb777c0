//! When the whole model is refined, and how such a refinement goes on.

use crate::config::MapperConfig;
use crate::global_ba::{
    can_refine, final_global_ba_due, fixed_images, gauge_images, global_ba_due, num_observations,
    observations_upto, refinement_step, registered_images, schedule_of, GlobalBaSchedule, GlobalRefinement,
    GlobalRefinementChoice, GlobalRefinementEvent, RatioHits,
};
use crate::indices::{
    count_where, indices_where, lemma_count_bound, lemma_count_positive, lemma_count_turned_on,
    lemma_indices_where, lemma_where_congruent,
};
use crate::registration_stats::in_existing_unit;
use crate::registration_units::{leads_unit, registered_units, unit_seen, RegistrationUnitKey};
use crate::scalar::Real32;
use crate::types::{has_pose, Point3DView, ReconstructionView};
use vstd::prelude::*;

verus! {

/// Two selected indices make a count of two, and a count of two has two selected
/// indices.
proof fn lemma_count_two(n: nat, p: spec_fn(int) -> bool)
    ensures
        count_where(n, p) >= 2 <==> exists|i: int, j: int|
            0 <= i < j < n && #[trigger] p(i) && #[trigger] p(j),
    decreases n,
{
    if n > 0 {
        let m = (n - 1) as nat;
        lemma_count_two(m, p);
        lemma_count_positive(m, p);
        if exists|i: int, j: int| 0 <= i < j < n && #[trigger] p(i) && #[trigger] p(j) {
            let (i, j) = choose|i: int, j: int|
                0 <= i < j < n && #[trigger] p(i) && #[trigger] p(j);
            if j < m {
                assert(0 <= i < j < m && p(i) && p(j));
            } else {
                assert(0 <= i < m && p(i));
            }
        }
        if count_where(n, p) >= 2 {
            if count_where(m, p) >= 2 {
                let (i, j) = choose|i: int, j: int|
                    0 <= i < j < m && #[trigger] p(i) && #[trigger] p(j);
                assert(0 <= i < j < n && p(i) && p(j));
            } else {
                assert(p(m as int));
                let i = choose|i: int| 0 <= i < m && #[trigger] p(i);
                assert(0 <= i < m < n && p(i) && p(m as int));
            }
        }
    }
}

/// A model can be refined as a whole just if that is asked for, two images are
/// registered and there is a point.
pub proof fn law_what_can_be_refined(r: ReconstructionView, config: MapperConfig)
    ensures
        can_refine(r, config) <==> {
            &&& config.global_ba
            &&& config.global_ba_iterations > 0
            &&& config.global_ba_max_refinements > 0
            &&& r.points.len() > 0
            &&& exists|i: int, j: int|
                0 <= i < j && #[trigger] r.registered(i) && #[trigger] r.registered(j)
        },
{
    let p = has_pose(r.poses);
    lemma_count_two(r.poses.len(), p);
    if registered_images(r) >= 2 {
        let (i, j) = choose|i: int, j: int|
            0 <= i < j < r.poses.len() && #[trigger] p(i) && #[trigger] p(j);
        assert(0 <= i < j && r.registered(i) && r.registered(j));
    }
    if exists|i: int, j: int|
        0 <= i < j && #[trigger] r.registered(i) && #[trigger] r.registered(j) {
        let (i, j) = choose|i: int, j: int|
            0 <= i < j && #[trigger] r.registered(i) && #[trigger] r.registered(j);
        assert(0 <= i < j < r.poses.len() && p(i) && p(j));
    }
}

/// Each of four triggers alone makes a refinement of the whole model due, if the
/// model can be refined: units or points grown by a step, units or points grown to
/// a multiple. Without any of them none is due.
pub proof fn law_refinement_triggers(
    schedule: GlobalBaSchedule,
    r: ReconstructionView,
    config: MapperConfig,
    hits: RatioHits,
)
    requires
        r.points.len() < usize::MAX,
        registered_units(r) < usize::MAX,
    ensures
        ({
            let due = global_ba_due(schedule, r, config, hits);
            let one = Real32 { bits: 0x3f80_0000 };
            &&& !can_refine(r, config) ==> !due
            &&& can_refine(r, config) && config.global_ba_images_freq > 0 && registered_units(r)
                >= schedule.prev_registered_frames + config.global_ba_images_freq ==> due
            &&& can_refine(r, config) && config.global_ba_points_freq > 0 && r.points.len()
                >= schedule.prev_points + config.global_ba_points_freq ==> due
            &&& can_refine(r, config) && one.below(config.global_ba_images_ratio)
                && schedule.prev_registered_frames > 0 && hits.images ==> due
            &&& can_refine(r, config) && one.below(config.global_ba_points_ratio)
                && schedule.prev_points > 0 && hits.points ==> due
            &&& due ==> {
                ||| config.global_ba_images_freq > 0 && registered_units(r)
                    >= schedule.prev_registered_frames + config.global_ba_images_freq
                ||| config.global_ba_points_freq > 0 && r.points.len() >= schedule.prev_points
                    + config.global_ba_points_freq
                ||| one.below(config.global_ba_images_ratio) && schedule.prev_registered_frames > 0
                    && hits.images
                ||| one.below(config.global_ba_points_ratio) && schedule.prev_points > 0
                    && hits.points
            }
        }),
{
}

/// A last refinement is due just if the number of units or of points is not that
/// of the last one.
pub proof fn law_last_refinement(
    schedule: GlobalBaSchedule,
    r: ReconstructionView,
    config: MapperConfig,
)
    ensures
        can_refine(r, config) && registered_units(r) != schedule.prev_registered_frames
            ==> final_global_ba_due(schedule, r, config),
        can_refine(r, config) && r.points.len() != schedule.prev_points ==> final_global_ba_due(
            schedule,
            r,
            config,
        ),
        registered_units(r) == schedule.prev_registered_frames && r.points.len()
            == schedule.prev_points ==> !final_global_ba_due(schedule, r, config),
        !can_refine(r, config) ==> !final_global_ba_due(schedule, r, config),
{
}

/// A schedule records the sizes of the model it was made for.
pub proof fn law_schedule_records(r: ReconstructionView)
    requires
        r.points.len() <= usize::MAX,
        r.poses.len() <= usize::MAX,
    ensures
        schedule_of(r).prev_points == r.points.len(),
        schedule_of(r).prev_registered_images == registered_images(r),
        schedule_of(r).prev_registered_frames == registered_units(r),
{
    lemma_count_bound(r.poses.len(), has_pose(r.poses));
    lemma_count_bound(r.poses.len(), leads_unit(r));
}

/// Registering one more image raises the number of registered images by one.
pub proof fn law_registered_images_count(
    r: ReconstructionView,
    s: ReconstructionView,
    image: int,
)
    requires
        s.poses.len() == r.poses.len(),
        0 <= image < r.poses.len(),
        r.poses[image] is None,
        s.poses[image] is Some,
        forall|i: int|
            0 <= i < r.poses.len() && i != image ==> (#[trigger] s.poses[i] is Some)
                == r.poses[i] is Some,
    ensures
        registered_images(s) == registered_images(r) + 1,
{
    assert forall|i: int| 0 <= i < r.poses.len() && i != image implies #[trigger] has_pose(
        r.poses,
    )(i) == has_pose(s.poses)(i) by {
        assert((s.poses[i] is Some) == r.poses[i] is Some);
    }
    lemma_count_turned_on(r.poses.len(), has_pose(r.poses), has_pose(s.poses), image);
}

/// Where no image belongs to a frame, every registered image is a unit.
pub proof fn law_units_without_frames(r: ReconstructionView)
    requires
        forall|i: int| #[trigger] r.frame_of(i) is None,
    ensures
        registered_units(r) == registered_images(r),
{
    assert forall|i: int| 0 <= i < r.poses.len() implies #[trigger] leads_unit(r)(i) == has_pose(
        r.poses,
    )(i) by {
        assert(r.frame_of(i) is None);
        if unit_seen(r, i, i) {
            let j = choose|j: int| 0 <= j < i && #[trigger] r.registered(j) && r.same_unit(j, i);
            assert(r.frame_of(j) is None);
        }
    }
    lemma_where_congruent(r.poses.len(), leads_unit(r), has_pose(r.poses));
}

/// Whether an image is registered and no registered image before it is of its unit.
pub open spec fn is_first_of_unit(r: ReconstructionView, image: int) -> bool {
    r.registered(image) && forall|j: int|
        0 <= j < image && #[trigger] r.registered(j) ==> !r.same_unit(j, image)
}

/// The gauge is fixed by one image of each of the first two registered units: the
/// first registered one.
pub proof fn law_gauge(r: ReconstructionView)
    requires
        r.poses.len() <= usize::MAX,
    ensures
        ({
            let gauge = gauge_images(r);
            &&& gauge.len() <= 2
            &&& gauge.len() == (if registered_units(r) < 2 {
                registered_units(r)
            } else {
                2
            })
            &&& forall|k: int|
                0 <= k < gauge.len() ==> is_first_of_unit(r, #[trigger] gauge[k] as int)
            &&& gauge.len() == 2 ==> gauge[0] < gauge[1] && !r.same_unit(
                gauge[0] as int,
                gauge[1] as int,
            )
            &&& forall|i: int|
                #[trigger] r.registered(i) ==> gauge.len() > 0 && gauge[0] <= i && (gauge.len()
                    == 2 && i < gauge[1] ==> r.same_unit(gauge[0] as int, i))
        }),
{
    let leads = leads_unit(r);
    let leaders = indices_where(r.poses.len(), leads);
    let gauge = gauge_images(r);
    lemma_indices_where(r.poses.len(), leads);
    assert forall|k: int| 0 <= k < gauge.len() implies is_first_of_unit(
        r,
        #[trigger] gauge[k] as int,
    ) by {
        assert(gauge[k] == leaders[k]);
        assert(leaders.contains(leaders[k]));
        assert(!unit_seen(r, gauge[k] as int, gauge[k] as int));
    }
    if gauge.len() == 2 {
        assert(leaders[0] < leaders[1]);
        assert(is_first_of_unit(r, gauge[0] as int));
        assert(is_first_of_unit(r, gauge[1] as int));
    }
    assert forall|i: int| #[trigger] r.registered(i) implies gauge.len() > 0 && gauge[0] <= i && (
    gauge.len() == 2 && i < gauge[1] ==> r.same_unit(gauge[0] as int, i)) by {
        lemma_leader(r, i);
        let l = choose|l: int| 0 <= l <= i && #[trigger] leads(l) && r.same_unit(l, i);
        assert(leaders.contains(l as usize));
        let k = choose|k: int| 0 <= k < leaders.len() && leaders[k] == l as usize;
        if k > 0 {
            assert(leaders[0] < leaders[k]);
        }
        if k > 1 {
            assert(leaders[1] < leaders[k]);
        }
    }
}

proof fn lemma_leader(r: ReconstructionView, i: int)
    requires
        r.registered(i),
    ensures
        exists|l: int| 0 <= l <= i && #[trigger] leads_unit(r)(l) && r.same_unit(l, i),
    decreases i,
{
    if unit_seen(r, i, i) {
        let j = choose|j: int| 0 <= j < i && #[trigger] r.registered(j) && r.same_unit(j, i);
        lemma_leader(r, j);
        let l = choose|l: int| 0 <= l <= j && #[trigger] leads_unit(r)(l) && r.same_unit(l, j);
        assert(0 <= l <= i && leads_unit(r)(l) && r.same_unit(l, i));
    } else {
        assert(0 <= i <= i && leads_unit(r)(i) && r.same_unit(i, i));
    }
}

/// A refinement goes on as follows. After preparation, and after a postprocessing
/// that changed more than allowed, the model is adjusted, as long as rounds are
/// left, there are observations, and an image is registered. An adjustment is
/// followed by postprocessing if it succeeds and ends the refinement if not. A
/// postprocessing that changed no more than allowed ends it.
pub proof fn law_refinement_goes_on(
    state: GlobalRefinement,
    event: GlobalRefinementEvent,
    r: ReconstructionView,
    config: MapperConfig,
    existing: Set<RegistrationUnitKey>,
)
    requires
        r.poses.len() <= usize::MAX,
        !state.finished,
    ensures
        ({
            let (next, action) = refinement_step(state, event, r, config, existing);
            let ready = state.rounds < config.global_ba_max_refinements && num_observations(r) > 0
                && exists|i: int| #[trigger] r.registered(i);
            &&& event is Adjusted ==> action is Postprocess && !next.finished
            &&& event is AdjustmentFailed ==> action is Finish && next.finished
            &&& event is Prepared && ready ==> action is Adjust && !next.finished && next.rounds
                == state.rounds + 1
            &&& event is Prepared && !ready ==> action is Finish && next.finished
            &&& (event matches GlobalRefinementEvent::Postprocessed { changed } && changed.at_most(
                config.global_ba_max_refinement_change,
            )) ==> action is Finish && next.finished
            &&& (event matches GlobalRefinementEvent::Postprocessed { changed }
                && !changed.at_most(config.global_ba_max_refinement_change) && ready)
                ==> action is Adjust && !next.finished && next.rounds == state.rounds + 1
            &&& (event matches GlobalRefinementEvent::Postprocessed { changed }
                && !changed.at_most(config.global_ba_max_refinement_change) && !ready)
                ==> action is Finish && next.finished
        }),
{
    law_gauge(r);
    if exists|i: int| #[trigger] r.registered(i) {
        let i = choose|i: int| #[trigger] r.registered(i);
        assert(r.same_unit(i, i));
        assert(gauge_images(r).len() > 0) by {
            lemma_leader(r, i);
            let l = choose|l: int| 0 <= l <= i && #[trigger] leads_unit(r)(l) && r.same_unit(l, i);
            lemma_indices_where(r.poses.len(), leads_unit(r));
            assert(indices_where(r.poses.len(), leads_unit(r)).contains(l as usize));
        }
    }
    if gauge_images(r).len() > 0 {
        assert(is_first_of_unit(r, gauge_images(r)[0] as int));
    }
}

/// What an adjustment is given: the gauge, the number of all observations, and as
/// fixed images those of earlier models, if these are to stay as they are.
pub proof fn law_adjustment_inputs(
    state: GlobalRefinement,
    event: GlobalRefinementEvent,
    r: ReconstructionView,
    config: MapperConfig,
    existing: Set<RegistrationUnitKey>,
    image: usize,
)
    requires
        r.poses.len() <= usize::MAX,
    ensures
        refinement_step(state, event, r, config, existing).1 matches GlobalRefinementChoice::Adjust {
            gauge_images: gauge,
            constant_images,
            observations,
        } ==> {
            &&& gauge == gauge_images(r)
            &&& observations == num_observations(r)
            &&& !config.fix_existing_frames ==> constant_images.len() == 0
            &&& config.fix_existing_frames ==> (constant_images.contains(image) <==> image
                < r.poses.len() && r.registered(image as int) && existing.contains(
                r.unit_key(image),
            ))
        },
{
    lemma_indices_where(r.poses.len(), in_existing_unit(r, existing));
    if image < r.poses.len() && in_existing_unit(r, existing)(image as int) {
        assert(fixed_images(r, config, existing).len() >= 0);
    }
}

/// A further point adds the observations of its track.
pub proof fn law_observations_add_up(points: Seq<Point3DView>, point: Point3DView)
    ensures
        observations_upto(points.push(point), points.len() + 1) == observations_upto(
            points,
            points.len(),
        ) + point.track.len(),
        observations_upto(Seq::empty(), 0) == 0,
{
    lemma_observations_congruent(points, points.push(point), points.len());
    assert(points.push(point)[points.len() as int] == point);
}

proof fn lemma_observations_congruent(a: Seq<Point3DView>, b: Seq<Point3DView>, k: nat)
    requires
        k <= a.len(),
        k <= b.len(),
        forall|i: int| 0 <= i < k ==> a[i] == b[i],
    ensures
        observations_upto(a, k) == observations_upto(b, k),
    decreases k,
{
    if k > 0 {
        lemma_observations_congruent(a, b, (k - 1) as nat);
    }
}

} // verus!
