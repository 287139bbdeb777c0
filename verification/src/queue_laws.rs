//! Which image is registered next, said of trials, counts and ranks themselves.

use crate::config::{ImageSelectionMethod, MapperConfig};
use crate::indices::{count_where, indices_where, lemma_count_bound, lemma_indices_where};
use crate::next_image::{
    awaits, is_next_queue, measured, put_off, queued_before, rank_terms, trials_probed,
    unit_measure, unit_tried,
    NextImageRegistrationMode, UnitMeasure,
};
use crate::observation_manager::ImageStat;
use crate::registration_units::{trials_raised, trials_reset, RegistrationUnitKey};
use crate::scalar::Real32;
use crate::types::ReconstructionView;
use vstd::prelude::*;

verus! {

/// Whether the unit of an image was filtered out or tried before.
pub open spec fn waits(
    r: ReconstructionView,
    trials: Seq<usize>,
    filtered: Set<RegistrationUnitKey>,
    image: usize,
) -> bool {
    ||| filtered.contains(r.unit_key(image))
    ||| exists|m: int|
        0 <= m < trials.len() && #[trigger] trials[m] > 0 && r.same_unit(image as int, m)
}

/// Of two queued images the one stands ahead whose unit was neither filtered out
/// nor tried before. If that is said of both or of neither, the one of higher rank
/// stands ahead, and of two of the same rank the one of lower index.
pub proof fn law_queue_order(
    images: Seq<usize>,
    r: ReconstructionView,
    trials: Seq<usize>,
    filtered: Set<RegistrationUnitKey>,
    config: MapperConfig,
    stats: Seq<ImageStat>,
    mode: NextImageRegistrationMode,
    ranks: Seq<Real32>,
    i: int,
    j: int,
)
    requires
        is_next_queue(images, r, trials, filtered, config, stats, mode, ranks),
        0 <= i < images.len(),
        0 <= j < images.len(),
    ensures
        ({
            let a = images[i];
            let b = images[j];
            let alike = waits(r, trials, filtered, a) == waits(r, trials, filtered, b);
            &&& !waits(r, trials, filtered, a) && waits(r, trials, filtered, b) ==> i < j
            &&& alike && ranks[b as int].below(ranks[a as int]) ==> i < j
            &&& alike && !ranks[a as int].below(ranks[b as int]) && a < b ==> i < j
            &&& i != j ==> a != b
        }),
{
    let a = images[i];
    let b = images[j];
    lemma_waits(r, trials, filtered, a);
    lemma_waits(r, trials, filtered, b);
    if j < i {
        assert(queued_before(r, trials, filtered, ranks, images[j], images[i]));
    }
}

proof fn lemma_waits(
    r: ReconstructionView,
    trials: Seq<usize>,
    filtered: Set<RegistrationUnitKey>,
    image: usize,
)
    ensures
        put_off(r, trials, filtered, image) == waits(r, trials, filtered, image),
{
    if unit_tried(r, image, trials, 1) {
        let m = choose|m: int|
            0 <= m < trials.len() && r.same_unit(image as int, m) && #[trigger] trials[m] >= 1;
        assert(trials[m] > 0);
    }
}

/// Whether a unit is open: none of its images is registered, and none was tried
/// as often as allowed.
pub open spec fn is_open(
    r: ReconstructionView,
    trials: Seq<usize>,
    max_trials: usize,
    image: int,
) -> bool {
    &&& 0 <= image < r.poses.len()
    &&& forall|j: int| #[trigger] r.registered(j) ==> !r.same_unit(j, image)
    &&& forall|m: int|
        0 <= m < trials.len() && r.same_unit(image, m) ==> #[trigger] trials[m] < max_trials
    &&& max_trials > 0
    &&& forall|j: int| 0 <= j < image ==> !#[trigger] r.same_unit(j, image)
}

proof fn lemma_open(r: ReconstructionView, trials: Seq<usize>, max_trials: usize, image: int)
    requires
        r.poses.len() <= usize::MAX,
    ensures
        awaits(r, trials, max_trials, image) == is_open(r, trials, max_trials, image),
{
    if 0 <= image < r.poses.len() {
        assert((image as usize) as int == image);
        if unit_tried(r, image as usize, trials, max_trials as nat) && max_trials > 0 {
            let m = choose|m: int|
                0 <= m < trials.len() && r.same_unit(image, m) && #[trigger] trials[m]
                    >= max_trials;
            assert(!(trials[m] < max_trials));
        }
        if !unit_tried(r, image as usize, trials, max_trials as nat) {
            assert forall|m: int| 0 <= m < trials.len() && r.same_unit(image, m) implies #[trigger]
                trials[m] < max_trials by {}
        }
    }
}

/// An image is queued just if it is the first of an open unit that sees enough.
pub proof fn law_queue_members(
    images: Seq<usize>,
    r: ReconstructionView,
    trials: Seq<usize>,
    filtered: Set<RegistrationUnitKey>,
    config: MapperConfig,
    stats: Seq<ImageStat>,
    mode: NextImageRegistrationMode,
    ranks: Seq<Real32>,
    image: usize,
)
    requires
        r.poses.len() <= usize::MAX,
        is_next_queue(images, r, trials, filtered, config, stats, mode, ranks),
    ensures
        mode is StructureBased ==> (images.contains(image) <==> is_open(
            r,
            trials,
            config.max_reg_trials,
            image as int,
        ) && unit_measure(UnitMeasure::VisiblePoints, stats, r, image)
            >= config.abs_pose_min_num_inliers),
        mode is StructureLess ==> (images.contains(image) <==> is_open(
            r,
            trials,
            config.max_reg_trials,
            image as int,
        ) && unit_measure(UnitMeasure::VisibleCorrespondences, stats, r, image) >= 2
            * config.abs_pose_min_num_inliers),
{
    lemma_open(r, trials, config.max_reg_trials, image as int);
}

/// The images that are probed are the first of the open units, in order.
pub proof fn law_probed_images(
    r: ReconstructionView,
    trials: Seq<usize>,
    max_trials: usize,
    image: usize,
)
    requires
        r.poses.len() <= usize::MAX,
    ensures
        indices_where(r.poses.len(), |i: int| awaits(r, trials, max_trials, i)).contains(image)
            <==> is_open(r, trials, max_trials, image as int),
{
    let p = |i: int| awaits(r, trials, max_trials, i);
    lemma_open(r, trials, max_trials, image as int);
    lemma_indices_where(r.poses.len(), p);
    if awaits(r, trials, max_trials, image as int) {
        assert(p(image as int));
    }
}

/// A measure adds up one image after the other. It is that of the statistics of
/// an image, and nothing for an image without statistics.
pub proof fn law_measures_add_up(
    stats: Seq<ImageStat>,
    images: Seq<usize>,
    image: usize,
)
    ensures
        forall|measure: UnitMeasure| #[trigger] measured(measure, stats, images, 0) == 0,
        ({
            let more = images.push(image);
            let n = images.len();
            let known = image < stats.len();
            let stat = stats[image as int];
            &&& measured(UnitMeasure::VisiblePoints, stats, more, n + 1) == measured(
                UnitMeasure::VisiblePoints,
                stats,
                images,
                n,
            ) + (if known {
                stat.num_visible_points3d as nat
            } else {
                0
            })
            &&& measured(UnitMeasure::VisibleCorrespondences, stats, more, n + 1) == measured(
                UnitMeasure::VisibleCorrespondences,
                stats,
                images,
                n,
            ) + (if known {
                stat.num_visible_correspondences as nat
            } else {
                0
            })
            &&& measured(UnitMeasure::Observations, stats, more, n + 1) == measured(
                UnitMeasure::Observations,
                stats,
                images,
                n,
            ) + (if known {
                stat.num_observations as nat
            } else {
                0
            })
            &&& measured(UnitMeasure::VisibilityScore, stats, more, n + 1) == measured(
                UnitMeasure::VisibilityScore,
                stats,
                images,
                n,
            ) + (if known {
                stat.point3d_visibility_score as nat
            } else {
                0
            })
        }),
{
    let more = images.push(image);
    lemma_measured_congruent(UnitMeasure::VisiblePoints, stats, images, more, images.len());
    lemma_measured_congruent(
        UnitMeasure::VisibleCorrespondences,
        stats,
        images,
        more,
        images.len(),
    );
    lemma_measured_congruent(UnitMeasure::Observations, stats, images, more, images.len());
    lemma_measured_congruent(UnitMeasure::VisibilityScore, stats, images, more, images.len());
    assert(more[images.len() as int] == image);
}

proof fn lemma_measured_congruent(
    measure: UnitMeasure,
    stats: Seq<ImageStat>,
    a: Seq<usize>,
    b: Seq<usize>,
    k: nat,
)
    requires
        k <= a.len(),
        k <= b.len(),
        forall|i: int| 0 <= i < k ==> a[i] == b[i],
    ensures
        measured(measure, stats, a, k) == measured(measure, stats, b, k),
    decreases k,
{
    if k > 0 {
        lemma_measured_congruent(measure, stats, a, b, (k - 1) as nat);
    }
}

/// The measure of an image that belongs to no frame is that of its own
/// statistics, and so its rank is: without points the visible correspondences; with
/// points, as configured, the visible points, their share of the observations, or
/// the visibility score.
pub proof fn law_ranks_of_single_images(
    r: ReconstructionView,
    stats: Seq<ImageStat>,
    config: MapperConfig,
    image: usize,
)
    requires
        r.frame_of(image as int) is None,
        image < stats.len(),
    ensures
        ({
            let stat = stats[image as int];
            let based = rank_terms(
                r,
                stats,
                config,
                NextImageRegistrationMode::StructureBased,
                image,
            );
            let less = rank_terms(
                r,
                stats,
                config,
                NextImageRegistrationMode::StructureLess,
                image,
            );
            &&& unit_measure(UnitMeasure::VisiblePoints, stats, r, image)
                == stat.num_visible_points3d
            &&& unit_measure(UnitMeasure::VisibleCorrespondences, stats, r, image)
                == stat.num_visible_correspondences
            &&& less.0 == stat.num_visible_correspondences && less.1 == 1
            &&& config.image_selection_method == ImageSelectionMethod::MaxVisiblePointsNum
                ==> based.0 == stat.num_visible_points3d && based.1 == 1
            &&& config.image_selection_method == ImageSelectionMethod::MaxVisiblePointsRatio
                ==> based.0 == stat.num_visible_points3d && (stat.num_observations > 0 ==> based.1
                == stat.num_observations) && (stat.num_observations == 0 ==> based.1 == 1)
            &&& config.image_selection_method == ImageSelectionMethod::MinUncertainty ==> based.0
                == stat.point3d_visibility_score && based.1 == 1
        }),
{
    let empty = Seq::<usize>::empty();
    assert(r.unit_of(image) =~= empty.push(image));
    law_measures_add_up(stats, empty, image);
    assert(measured(UnitMeasure::VisiblePoints, stats, empty, 0) == 0);
    assert(measured(UnitMeasure::VisibleCorrespondences, stats, empty, 0) == 0);
    assert(measured(UnitMeasure::Observations, stats, empty, 0) == 0);
    assert(measured(UnitMeasure::VisibilityScore, stats, empty, 0) == 0);
}

/// Selects the probed images of a unit that have no pose.
pub open spec fn failed_probe(
    r: ReconstructionView,
    images: Seq<usize>,
    has_pose: Seq<bool>,
    m: int,
) -> spec_fn(int) -> bool {
    |i: int| !has_pose[i] && r.same_unit(images[i] as int, m)
}

/// Probing counts a trial for each image of a unit, once for every probed image of
/// the unit that has no pose, and for no other.
pub proof fn law_probing_counts_trials(
    r: ReconstructionView,
    trials: Seq<usize>,
    images: Seq<usize>,
    has_pose: Seq<bool>,
    k: nat,
    m: int,
)
    requires
        k <= images.len(),
        0 <= m < trials.len(),
        trials[m] + k <= usize::MAX,
    ensures
        trials_probed(r, trials, images, has_pose, k).len() == trials.len(),
        trials_probed(r, trials, images, has_pose, k)[m] == trials[m] + count_where(
            k,
            failed_probe(r, images, has_pose, m),
        ),
    decreases k,
{
    if k > 0 {
        law_probing_counts_trials(r, trials, images, has_pose, (k - 1) as nat, m);
        lemma_count_bound((k - 1) as nat, failed_probe(r, images, has_pose, m));
        let rest = trials_probed(r, trials, images, has_pose, (k - 1) as nat);
        assert(trials_raised(r, images[k - 1], rest).len() == rest.len());
    }
}

/// A trial counts one for every image of the unit and leaves the others alone.
/// Trials that start over are none for every image of the unit.
pub proof fn law_trials_of_units(
    r: ReconstructionView,
    image: usize,
    trials: Seq<usize>,
    m: int,
)
    requires
        0 <= m < trials.len(),
    ensures
        r.same_unit(image as int, m) && trials[m] < usize::MAX ==> trials_raised(
            r,
            image,
            trials,
        )[m] == trials[m] + 1,
        !r.same_unit(image as int, m) ==> trials_raised(r, image, trials)[m] == trials[m],
        r.same_unit(image as int, m) ==> trials_reset(
            r,
            image,
            trials,
        )[m] == 0,
        !r.same_unit(image as int, m) ==> trials_reset(
            r,
            image,
            trials,
        )[m] == trials[m],
{
}

} // verus!
