//! Which image to register next, and how.

use crate::config::{ImageSelectionMethod, MapperConfig};
use crate::observation_manager::{ImageStat, ObservationManager};
use crate::registration_units::{
    increment_registration_unit_trials, is_unit_trials, registration_unit_is_registered,
    registration_unit_key, registration_unit_num_trials, trials_raised, RegistrationUnitKey,
    UnitSet,
};
use crate::scalar::Real32;
use crate::sorting::{lemma_sorting_contains, sort, Ranked};
use crate::types::{Reconstruction, ReconstructionView};
use vstd::prelude::*;

verus! {

/// How an image is registered: against points, or against images alone.
#[derive(Debug, Clone, Copy, PartialEq, Eq, Structural)]
pub enum NextImageRegistrationMode {
    StructureBased,
    StructureLess,
}

/// Whether images may be registered without points: the configuration asks for
/// it, or a solver for it is at hand.
pub fn structureless_registration_enabled(config: &MapperConfig, solver_at_hand: bool) -> (b: bool)
    ensures
        b == (config.experimental_structureless_pair_pose_fallback || solver_at_hand),
{
    config.experimental_structureless_pair_pose_fallback || solver_at_hand
}

/// The ways to register an image, in the order in which they are tried.
pub fn next_registration_modes(config: &MapperConfig, solver_at_hand: bool) -> (modes: Vec<
    NextImageRegistrationMode,
>)
    ensures
        modes@ == (if config.experimental_structureless_pair_pose_fallback || solver_at_hand {
            seq![
                NextImageRegistrationMode::StructureBased,
                NextImageRegistrationMode::StructureLess,
            ]
        } else {
            seq![NextImageRegistrationMode::StructureBased]
        }),
{
    let mut modes: Vec<NextImageRegistrationMode> = Vec::new();
    modes.push(NextImageRegistrationMode::StructureBased);
    if structureless_registration_enabled(config, solver_at_hand) {
        modes.push(NextImageRegistrationMode::StructureLess);
    }
    modes
}

/// Numbers that are added up over the images of a registration unit.
#[derive(Debug, Clone, Copy, PartialEq, Eq, Structural)]
pub enum UnitMeasure {
    VisiblePoints,
    VisibleCorrespondences,
    Observations,
    VisibilityScore,
}

impl UnitMeasure {
    pub open spec fn of(self, stats: Seq<ImageStat>, image: usize) -> nat {
        if image >= stats.len() {
            0
        } else {
            let stat = stats[image as int];
            match self {
                UnitMeasure::VisiblePoints => stat.num_visible_points3d as nat,
                UnitMeasure::VisibleCorrespondences => stat.num_visible_correspondences as nat,
                UnitMeasure::Observations => stat.num_observations as nat,
                UnitMeasure::VisibilityScore => stat.point3d_visibility_score as nat,
            }
        }
    }

    fn measure(&self, observation_manager: &ObservationManager, image: usize) -> (n: usize)
        ensures
            n == self.of(observation_manager.image_stats(), image),
    {
        match self {
            UnitMeasure::VisiblePoints => observation_manager.num_visible_points3d(image),
            UnitMeasure::VisibleCorrespondences => observation_manager.num_visible_correspondences(
                image,
            ),
            UnitMeasure::Observations => observation_manager.num_observations(image),
            UnitMeasure::VisibilityScore => observation_manager.point3d_visibility_score(image),
        }
    }
}

/// A measure added up over the first `k` of some images.
pub open spec fn measured(
    measure: UnitMeasure,
    stats: Seq<ImageStat>,
    images: Seq<usize>,
    k: nat,
) -> nat
    decreases k,
{
    if k == 0 {
        0
    } else {
        measured(measure, stats, images, (k - 1) as nat) + measure.of(stats, images[k - 1])
    }
}

/// A measure added up over the registration unit of an image.
pub open spec fn unit_measure(
    measure: UnitMeasure,
    stats: Seq<ImageStat>,
    r: ReconstructionView,
    image: usize,
) -> nat {
    measured(measure, stats, r.unit_of(image), r.unit_of(image).len())
}

proof fn lemma_measured_monotone(
    measure: UnitMeasure,
    stats: Seq<ImageStat>,
    images: Seq<usize>,
    j: nat,
    k: nat,
)
    requires
        j <= k,
    ensures
        measured(measure, stats, images, j) <= measured(measure, stats, images, k),
    decreases k,
{
    if j < k {
        lemma_measured_monotone(measure, stats, images, j, (k - 1) as nat);
    }
}

/// Adds up a measure over the registration unit of an image.
pub fn registration_unit_measure(
    measure: UnitMeasure,
    reconstruction: &Reconstruction,
    image: usize,
    observation_manager: &ObservationManager,
) -> (n: usize)
    requires
        unit_measure(measure, observation_manager.image_stats(), reconstruction@, image)
            <= usize::MAX,
    ensures
        n == unit_measure(measure, observation_manager.image_stats(), reconstruction@, image),
{
    let ghost stats = observation_manager.image_stats();
    let unit: Vec<usize> = reconstruction.image_indices_for_registration_unit(image);
    let mut n: usize = 0;
    for k in 0..unit.len()
        invariant
            stats == observation_manager.image_stats(),
            measured(measure, stats, unit@, unit@.len()) <= usize::MAX,
            n == measured(measure, stats, unit@, k as nat),
    {
        proof {
            lemma_measured_monotone(measure, stats, unit@, (k + 1) as nat, unit@.len());
        }
        n = n + measure.measure(observation_manager, unit[k]);
    }
    n
}

/// Whether a measure of a registration unit reaches a number.
pub fn registration_unit_reaches(
    measure: UnitMeasure,
    reconstruction: &Reconstruction,
    image: usize,
    observation_manager: &ObservationManager,
    wanted: usize,
) -> (b: bool)
    ensures
        b == (unit_measure(measure, observation_manager.image_stats(), reconstruction@, image)
            >= wanted),
{
    let ghost stats = observation_manager.image_stats();
    let unit: Vec<usize> = reconstruction.image_indices_for_registration_unit(image);
    let mut missing: usize = wanted;
    for k in 0..unit.len()
        invariant
            stats == observation_manager.image_stats(),
            missing <= wanted,
            missing > 0 ==> measured(measure, stats, unit@, k as nat) == wanted - missing,
            missing == 0 ==> measured(measure, stats, unit@, k as nat) >= wanted,
    {
        let n: usize = measure.measure(observation_manager, unit[k]);
        missing = if n >= missing {
            0
        } else {
            missing - n
        };
    }
    missing == 0
}

/// A rank as a fraction.
#[derive(Debug, Clone, Copy, PartialEq, Eq, Structural)]
pub struct RankTerms {
    pub numerator: usize,
    pub denominator: usize,
}

/// The fraction by which an image is ranked. Without points it is the number of
/// visible correspondences of its unit. With points it is chosen by the
/// configuration.
pub open spec fn rank_terms(
    r: ReconstructionView,
    stats: Seq<ImageStat>,
    config: MapperConfig,
    mode: NextImageRegistrationMode,
    image: usize,
) -> (nat, nat) {
    match mode {
        NextImageRegistrationMode::StructureLess => (
            unit_measure(UnitMeasure::VisibleCorrespondences, stats, r, image),
            1,
        ),
        NextImageRegistrationMode::StructureBased => match config.image_selection_method {
            ImageSelectionMethod::MaxVisiblePointsNum => (
                unit_measure(UnitMeasure::VisiblePoints, stats, r, image),
                1,
            ),
            ImageSelectionMethod::MaxVisiblePointsRatio => {
                let observations = unit_measure(UnitMeasure::Observations, stats, r, image);
                (
                    unit_measure(UnitMeasure::VisiblePoints, stats, r, image),
                    if observations == 0 {
                        1
                    } else {
                        observations
                    },
                )
            },
            ImageSelectionMethod::MinUncertainty => (
                unit_measure(UnitMeasure::VisibilityScore, stats, r, image),
                1,
            ),
        },
    }
}

pub fn next_image_rank_terms(
    reconstruction: &Reconstruction,
    image: usize,
    observation_manager: &ObservationManager,
    config: &MapperConfig,
    mode: NextImageRegistrationMode,
) -> (terms: RankTerms)
    requires
        ({
            let terms = rank_terms(
                reconstruction@,
                observation_manager.image_stats(),
                *config,
                mode,
                image,
            );
            terms.0 <= usize::MAX && terms.1 <= usize::MAX
        }),
    ensures
        ({
            let wanted = rank_terms(
                reconstruction@,
                observation_manager.image_stats(),
                *config,
                mode,
                image,
            );
            terms.numerator == wanted.0 && terms.denominator == wanted.1
        }),
{
    let (measure, ratio): (UnitMeasure, bool) = match mode {
        NextImageRegistrationMode::StructureLess => (UnitMeasure::VisibleCorrespondences, false),
        NextImageRegistrationMode::StructureBased => match config.image_selection_method {
            ImageSelectionMethod::MaxVisiblePointsNum => (UnitMeasure::VisiblePoints, false),
            ImageSelectionMethod::MaxVisiblePointsRatio => (UnitMeasure::VisiblePoints, true),
            ImageSelectionMethod::MinUncertainty => (UnitMeasure::VisibilityScore, false),
        },
    };
    let numerator: usize = registration_unit_measure(
        measure,
        reconstruction,
        image,
        observation_manager,
    );
    let denominator: usize = if ratio {
        let observations: usize = registration_unit_measure(
            UnitMeasure::Observations,
            reconstruction,
            image,
            observation_manager,
        );
        if observations == 0 {
            1
        } else {
            observations
        }
    } else {
        1
    };
    RankTerms { numerator, denominator }
}

/// Whether some image of a unit was tried a number of times.
pub open spec fn unit_tried(
    r: ReconstructionView,
    image: usize,
    trials: Seq<usize>,
    times: nat,
) -> bool {
    times == 0 || exists|m: int|
        0 <= m < trials.len() && r.same_unit(image as int, m) && #[trigger] trials[m] >= times
}

proof fn lemma_unit_tried(
    r: ReconstructionView,
    image: usize,
    trials: Seq<usize>,
    n: usize,
    times: nat,
)
    requires
        is_unit_trials(r, image, trials, n),
    ensures
        unit_tried(r, image, trials, times) <==> n >= times,
{
    if n >= times && times > 0 {
        let m = choose|m: int|
            0 <= m < trials.len() && r.same_unit(image as int, m) && #[trigger] trials[m] == n;
        assert(trials[m] >= times);
    }
    if unit_tried(r, image, trials, times) && times > 0 {
        let m = choose|m: int|
            0 <= m < trials.len() && r.same_unit(image as int, m) && #[trigger] trials[m] >= times;
        assert(trials[m] <= n);
    }
}

/// Whether no earlier image belongs to the unit of an image.
pub open spec fn first_of_unit(r: ReconstructionView, image: int) -> bool {
    forall|j: int| 0 <= j < image ==> !(#[trigger] r.same_unit(j, image))
}

/// Whether a unit, represented by its first image, still awaits registration.
pub open spec fn awaits(
    r: ReconstructionView,
    trials: Seq<usize>,
    max_trials: usize,
    image: int,
) -> bool {
    &&& 0 <= image < r.poses.len()
    &&& first_of_unit(r, image)
    &&& !r.unit_registered(image)
    &&& !unit_tried(r, image as usize, trials, max_trials as nat)
}

/// The least measure of a unit for a mode.
pub open spec fn visible_enough(
    r: ReconstructionView,
    stats: Seq<ImageStat>,
    config: MapperConfig,
    mode: NextImageRegistrationMode,
    image: usize,
) -> bool {
    match mode {
        NextImageRegistrationMode::StructureBased => unit_measure(
            UnitMeasure::VisiblePoints,
            stats,
            r,
            image,
        ) >= config.abs_pose_min_num_inliers,
        NextImageRegistrationMode::StructureLess => unit_measure(
            UnitMeasure::VisibleCorrespondences,
            stats,
            r,
            image,
        ) >= 2 * config.abs_pose_min_num_inliers,
    }
}

/// Whether an image is put off: its unit was filtered out or tried before.
pub open spec fn put_off(
    r: ReconstructionView,
    trials: Seq<usize>,
    filtered: Set<RegistrationUnitKey>,
    image: usize,
) -> bool {
    filtered.contains(r.unit_key(image)) || unit_tried(r, image, trials, 1)
}

/// An image to register with its rank.
#[derive(Debug, Clone, Copy, PartialEq, Eq, Structural)]
pub struct NextImage {
    pub image: usize,
    pub put_off: bool,
    pub rank: i64,
}

impl Ranked for NextImage {
    /// Images that are not put off come first, then those of higher rank, then
    /// those of lower index.
    open spec fn before(self, other: NextImage) -> bool {
        if self.put_off != other.put_off {
            !self.put_off
        } else if self.rank != other.rank {
            self.rank > other.rank
        } else {
            self.image < other.image
        }
    }

    proof fn asymmetric(a: NextImage, b: NextImage) {
    }

    proof fn negatively_transitive(a: NextImage, b: NextImage, c: NextImage) {
    }

    fn precedes(&self, other: &NextImage) -> (b: bool) {
        if self.put_off != other.put_off {
            !self.put_off
        } else if self.rank != other.rank {
            self.rank > other.rank
        } else {
            self.image < other.image
        }
    }
}

/// Whether images are queued for registration: of every unit that is still
/// open and sees enough the first image, units that were not tried or filtered
/// before the others, and then by falling rank.
pub open spec fn is_next_queue(
    images: Seq<usize>,
    r: ReconstructionView,
    trials: Seq<usize>,
    filtered: Set<RegistrationUnitKey>,
    config: MapperConfig,
    stats: Seq<ImageStat>,
    mode: NextImageRegistrationMode,
    ranks: Seq<Real32>,
) -> bool {
    &&& images.no_duplicates()
    &&& forall|image: usize| #[trigger]
        images.contains(image) <==> awaits(r, trials, config.max_reg_trials, image as int)
            && visible_enough(r, stats, config, mode, image)
    &&& forall|i: int, j: int|
        0 <= i < j < images.len() ==> queued_before(
            r,
            trials,
            filtered,
            ranks,
            #[trigger] images[i],
            #[trigger] images[j],
        )
}

/// Whether an image comes before another one in the queue.
pub open spec fn queued_before(
    r: ReconstructionView,
    trials: Seq<usize>,
    filtered: Set<RegistrationUnitKey>,
    ranks: Seq<Real32>,
    a: usize,
    b: usize,
) -> bool {
    let a_waits = put_off(r, trials, filtered, a);
    let b_waits = put_off(r, trials, filtered, b);
    if a_waits != b_waits {
        b_waits
    } else {
        ranks[b as int].below(ranks[a as int]) || (ranks[b as int].at_most(ranks[a as int]) && a
            < b)
    }
}

/// There is only one queue.
pub proof fn law_queue_unique(
    first: Seq<usize>,
    second: Seq<usize>,
    r: ReconstructionView,
    trials: Seq<usize>,
    filtered: Set<RegistrationUnitKey>,
    config: MapperConfig,
    stats: Seq<ImageStat>,
    mode: NextImageRegistrationMode,
    ranks: Seq<Real32>,
)
    requires
        is_next_queue(first, r, trials, filtered, config, stats, mode, ranks),
        is_next_queue(second, r, trials, filtered, config, stats, mode, ranks),
    ensures
        first == second,
{
    assert forall|x: usize| #[trigger] first.contains(x) == second.contains(x) by {}
    lemma_same_order(first, second, r, trials, filtered, ranks);
}

proof fn lemma_same_order(
    first: Seq<usize>,
    second: Seq<usize>,
    r: ReconstructionView,
    trials: Seq<usize>,
    filtered: Set<RegistrationUnitKey>,
    ranks: Seq<Real32>,
)
    requires
        first.no_duplicates(),
        second.no_duplicates(),
        forall|x: usize| #[trigger] first.contains(x) == second.contains(x),
        forall|i: int, j: int|
            0 <= i < j < first.len() ==> queued_before(
                r,
                trials,
                filtered,
                ranks,
                #[trigger] first[i],
                #[trigger] first[j],
            ),
        forall|i: int, j: int|
            0 <= i < j < second.len() ==> queued_before(
                r,
                trials,
                filtered,
                ranks,
                #[trigger] second[i],
                #[trigger] second[j],
            ),
    ensures
        first == second,
    decreases first.len(),
{
    if first.len() == 0 {
        if second.len() > 0 {
            assert(second.contains(second[0]));
            assert(first.contains(second[0]));
        }
        assert(first =~= second);
    } else {
        let x = first[0];
        assert(first.contains(x));
        assert(second.contains(x));
        let y = second[0];
        assert(second.contains(y));
        assert(first.contains(y));
        let i = choose|i: int| 0 <= i < first.len() && first[i] == y;
        let j = choose|j: int| 0 <= j < second.len() && second[j] == x;
        if x != y {
            assert(queued_before(r, trials, filtered, ranks, first[0], first[i]));
            assert(queued_before(r, trials, filtered, ranks, second[0], second[j]));
        }
        let a = first.drop_first();
        let b = second.drop_first();
        assert forall|z: usize| #[trigger] a.contains(z) == b.contains(z) by {
            assert(first.contains(z) == second.contains(z));
            lemma_drop_first_contains(first, z);
            lemma_drop_first_contains(second, z);
        }
        lemma_same_order(a, b, r, trials, filtered, ranks);
        assert(first =~= seq![x] + a);
        assert(second =~= seq![y] + b);
    }
}

proof fn lemma_drop_first_contains(list: Seq<usize>, z: usize)
    requires
        list.len() > 0,
        list.no_duplicates(),
    ensures
        list.drop_first().contains(z) <==> list.contains(z) && z != list[0],
{
    let rest = list.drop_first();
    if rest.contains(z) {
        let k = choose|k: int| 0 <= k < rest.len() && rest[k] == z;
        assert(list[k + 1] == z);
    }
    if list.contains(z) && z != list[0] {
        let k = choose|k: int| 0 <= k < list.len() && list[k] == z;
        assert(rest[k - 1] == z);
    }
}

/// The images that can be registered next, best first.
///
/// An image stands for its whole unit. `ranks` gives the rank of each image.
pub fn find_next_registration_images(
    reconstruction: &Reconstruction,
    reg_trials: &Vec<usize>,
    filtered_units: &UnitSet,
    config: &MapperConfig,
    observation_manager: &ObservationManager,
    mode: NextImageRegistrationMode,
    ranks: &[Real32],
) -> (images: Vec<usize>)
    requires
        ranks@.len() >= reconstruction@.poses.len(),
        forall|i: int| 0 <= i < ranks@.len() ==> !(#[trigger] ranks@[i]).nan(),
        mode is StructureLess ==> 2 * config.abs_pose_min_num_inliers <= usize::MAX,
    ensures
        is_next_queue(
            images@,
            reconstruction@,
            reg_trials@,
            filtered_units@,
            *config,
            observation_manager.image_stats(),
            mode,
            ranks@,
        ),
{
    let ghost r = reconstruction@;
    let ghost stats = observation_manager.image_stats();
    let mut listed: Vec<NextImage> = Vec::new();
    let mut seen_units: UnitSet = UnitSet::new();
    let n: usize = reconstruction.poses.len();
    for image in 0..n
        invariant
            r == reconstruction@,
            stats == observation_manager.image_stats(),
            n == r.poses.len(),
            n <= ranks@.len(),
            mode is StructureLess ==> 2 * config.abs_pose_min_num_inliers <= usize::MAX,
            forall|key: RegistrationUnitKey| #[trigger]
                seen_units@.contains(key) <==> exists|j: int|
                    0 <= j < image && #[trigger] r.unit_key(j as usize) == key,
            forall|a: int| 0 <= a < listed@.len() ==> (#[trigger] listed@[a]).image < image,
            forall|a: int, b: int|
                0 <= a < b < listed@.len() ==> (#[trigger] listed@[a]).image < (
                #[trigger] listed@[b]).image,
            forall|a: int|
                0 <= a < listed@.len() ==> {
                    let x = #[trigger] listed@[a];
                    &&& awaits(r, reg_trials@, config.max_reg_trials, x.image as int)
                    &&& visible_enough(r, stats, *config, mode, x.image)
                    &&& x.put_off == put_off(r, reg_trials@, filtered_units@, x.image)
                    &&& x.rank == ranks@[x.image as int].position()
                },
            forall|x: usize|
                x < image && #[trigger] awaits(
                    r,
                    reg_trials@,
                    config.max_reg_trials,
                    x as int,
                ) && visible_enough(r, stats, *config, mode, x) ==> exists|a: int|
                    0 <= a < listed@.len() && (#[trigger] listed@[a]).image == x,
    {
        let key: RegistrationUnitKey = registration_unit_key(reconstruction, image);
        let ghost seen = seen_units@;
        let fresh: bool = seen_units.insert(key);
        proof {
            assert(fresh <==> first_of_unit(r, image as int)) by {
                if !fresh {
                    let j = choose|j: int|
                        0 <= j < image && #[trigger] r.unit_key(j as usize) == key;
                    assert(r.same_unit(j, image as int));
                }
                if fresh && !first_of_unit(r, image as int) {
                    let j = choose|j: int|
                        0 <= j < image && #[trigger] r.same_unit(j, image as int);
                    assert(r.unit_key(j as usize) == key);
                }
            }
            assert forall|k: RegistrationUnitKey| #[trigger] seen_units@.contains(k) <==> exists|
                j: int,
            |
                0 <= j < image + 1 && #[trigger] r.unit_key(j as usize) == k by {
                if seen_units@.contains(k) {
                    if seen.contains(k) {
                        let j = choose|j: int|
                            0 <= j < image && #[trigger] r.unit_key(j as usize) == k;
                        assert(0 <= j < image + 1 && r.unit_key(j as usize) == k);
                    } else {
                        assert(r.unit_key(image as int as usize) == k);
                    }
                }
            }
        }
        let registered: bool = registration_unit_is_registered(reconstruction, image);
        let num_trials: usize = registration_unit_num_trials(reconstruction, image, reg_trials);
        proof {
            lemma_unit_tried(r, image, reg_trials@, num_trials, config.max_reg_trials as nat);
            lemma_unit_tried(r, image, reg_trials@, num_trials, 1);
        }
        let enough: bool = match mode {
            NextImageRegistrationMode::StructureBased => registration_unit_reaches(
                UnitMeasure::VisiblePoints,
                reconstruction,
                image,
                observation_manager,
                config.abs_pose_min_num_inliers,
            ),
            NextImageRegistrationMode::StructureLess => registration_unit_reaches(
                UnitMeasure::VisibleCorrespondences,
                reconstruction,
                image,
                observation_manager,
                2 * config.abs_pose_min_num_inliers,
            ),
        };
        let ghost before = listed@;
        let chosen: bool = fresh && !registered && num_trials < config.max_reg_trials && enough;
        if chosen {
            let waits: bool = filtered_units.contains(&key) || num_trials > 0;
            listed.push(
                NextImage { image, put_off: waits, rank: ranks[image].signed_position() },
            );
        }
        proof {
            assert(chosen <==> awaits(r, reg_trials@, config.max_reg_trials, image as int)
                && visible_enough(r, stats, *config, mode, image));
            assert forall|x: usize|
                x < image + 1 && #[trigger] awaits(
                    r,
                    reg_trials@,
                    config.max_reg_trials,
                    x as int,
                ) && visible_enough(r, stats, *config, mode, x) implies exists|a: int|
                0 <= a < listed@.len() && (#[trigger] listed@[a]).image == x by {
                if x < image {
                    let a = choose|a: int|
                        0 <= a < before.len() && (#[trigger] before[a]).image == x;
                    assert(listed@[a] == before[a]);
                } else {
                    assert(listed@[before.len() as int].image == x);
                }
            }
        }
    }
    let ghost given = listed@;
    proof {
        assert(given.no_duplicates());
    }
    sort(&mut listed);
    proof {
        lemma_sorting_contains(listed@, given);
        given.lemma_multiset_has_no_duplicates();
        assert(listed@.to_multiset() == given.to_multiset());
        listed@.lemma_multiset_has_no_duplicates_conv();
    }
    let mut images: Vec<usize> = Vec::new();
    for k in 0..listed.len()
        invariant
            images@ == Seq::new(k as nat, |i: int| listed@[i].image),
    {
        images.push(listed[k].image);
        assert(images@ =~= Seq::new((k + 1) as nat, |i: int| listed@[i].image));
    }
    proof {
        assert(images@.len() == listed@.len());
        assert forall|i: int| 0 <= i < listed@.len() implies given.contains(
            #[trigger] listed@[i],
        ) by {
            assert(listed@.contains(listed@[i]));
        }
        assert forall|i: int, j: int| 0 <= i < j < images@.len() implies images@[i] != images@[j] by {
            let x = listed@[i];
            let y = listed@[j];
            assert(given.contains(x) && given.contains(y));
            let a = choose|a: int| 0 <= a < given.len() && given[a] == x;
            let b = choose|b: int| 0 <= b < given.len() && given[b] == y;
            assert(x != y);
        }
        assert forall|image: usize| #[trigger] images@.contains(image) <==> awaits(
            r,
            reg_trials@,
            config.max_reg_trials,
            image as int,
        ) && visible_enough(r, stats, *config, mode, image) by {
            if images@.contains(image) {
                let i = choose|i: int| 0 <= i < images@.len() && images@[i] == image;
                assert(given.contains(listed@[i]));
                let a = choose|a: int| 0 <= a < given.len() && given[a] == listed@[i];
                assert(given[a].image == image);
            }
            if awaits(r, reg_trials@, config.max_reg_trials, image as int) && visible_enough(
                r,
                stats,
                *config,
                mode,
                image,
            ) {
                let a = choose|a: int| 0 <= a < given.len() && (#[trigger] given[a]).image == image;
                assert(given.contains(given[a]));
                assert(listed@.contains(given[a]));
                let i = choose|i: int| 0 <= i < listed@.len() && listed@[i] == given[a];
                assert(images@[i] == image);
            }
        }
        assert forall|i: int, j: int| 0 <= i < j < images@.len() implies {
            let a = #[trigger] images@[i];
            let b = #[trigger] images@[j];
            let a_waits = put_off(r, reg_trials@, filtered_units@, a);
            let b_waits = put_off(r, reg_trials@, filtered_units@, b);
            if a_waits != b_waits {
                b_waits
            } else {
                ranks@[b as int].below(ranks@[a as int]) || (ranks@[b as int].at_most(
                    ranks@[a as int],
                ) && a < b)
            }
        } by {
            let x = listed@[i];
            let y = listed@[j];
            assert(!y.before(x));
            assert(given.contains(x) && given.contains(y));
            assert(images@[i] != images@[j]);
        }
    }
    images
}

/// The images of which it is checked, one per unit, whether they could be
/// registered at all.
pub fn images_to_probe(
    reconstruction: &Reconstruction,
    reg_trials: &Vec<usize>,
    config: &MapperConfig,
) -> (images: Vec<usize>)
    ensures
        images@ == crate::indices::indices_where(
            reconstruction@.poses.len(),
            |i: int| awaits(reconstruction@, reg_trials@, config.max_reg_trials, i),
        ),
{
    let ghost r = reconstruction@;
    let ghost q = |i: int| awaits(reconstruction@, reg_trials@, config.max_reg_trials, i);
    let mut images: Vec<usize> = Vec::new();
    let mut seen_units: UnitSet = UnitSet::new();
    let n: usize = reconstruction.poses.len();
    for image in 0..n
        invariant
            r == reconstruction@,
            n == r.poses.len(),
            q == (|i: int| awaits(reconstruction@, reg_trials@, config.max_reg_trials, i)),
            images@ == crate::indices::indices_where(image as nat, q),
            forall|key: RegistrationUnitKey| #[trigger]
                seen_units@.contains(key) <==> exists|j: int|
                    0 <= j < image && #[trigger] r.unit_key(j as usize) == key,
    {
        let key: RegistrationUnitKey = registration_unit_key(reconstruction, image);
        let ghost seen = seen_units@;
        let fresh: bool = seen_units.insert(key);
        let num_trials: usize = registration_unit_num_trials(reconstruction, image, reg_trials);
        proof {
            lemma_unit_tried(r, image, reg_trials@, num_trials, config.max_reg_trials as nat);
            assert(fresh <==> first_of_unit(r, image as int)) by {
                if !fresh {
                    let j = choose|j: int|
                        0 <= j < image && #[trigger] r.unit_key(j as usize) == key;
                    assert(r.same_unit(j, image as int));
                }
                if fresh && !first_of_unit(r, image as int) {
                    let j = choose|j: int|
                        0 <= j < image && #[trigger] r.same_unit(j, image as int);
                    assert(r.unit_key(j as usize) == key);
                }
            }
            assert forall|k: RegistrationUnitKey| #[trigger] seen_units@.contains(k) <==> exists|
                j: int,
            |
                0 <= j < image + 1 && #[trigger] r.unit_key(j as usize) == k by {
                if seen_units@.contains(k) {
                    if seen.contains(k) {
                        let j = choose|j: int|
                            0 <= j < image && #[trigger] r.unit_key(j as usize) == k;
                        assert(0 <= j < image + 1 && r.unit_key(j as usize) == k);
                    } else {
                        assert(r.unit_key(image as int as usize) == k);
                    }
                }
            }
        }
        if fresh && !registration_unit_is_registered(reconstruction, image) && num_trials
            < config.max_reg_trials {
            images.push(image);
        }
    }
    images
}

/// The trials after the first `k` probed images that have no pose count one
/// more.
pub open spec fn trials_probed(
    r: ReconstructionView,
    trials: Seq<usize>,
    images: Seq<usize>,
    has_pose: Seq<bool>,
    k: nat,
) -> Seq<usize>
    decreases k,
{
    if k == 0 {
        trials
    } else {
        let rest = trials_probed(r, trials, images, has_pose, (k - 1) as nat);
        if has_pose[k - 1] {
            rest
        } else {
            trials_raised(r, images[k - 1], rest)
        }
    }
}

/// Counts a trial for each probed unit that has no pose.
pub fn mark_unregistered_images_with_no_absolute_pose(
    reconstruction: &Reconstruction,
    images: &Vec<usize>,
    has_pose: &[bool],
    reg_trials: &mut Vec<usize>,
)
    requires
        images@.len() == has_pose@.len(),
        forall|m: int|
            0 <= m < old(reg_trials)@.len() ==> #[trigger] old(reg_trials)@[m] + images@.len()
                <= usize::MAX,
    ensures
        final(reg_trials)@ == trials_probed(
            reconstruction@,
            old(reg_trials)@,
            images@,
            has_pose@,
            images@.len(),
        ),
{
    let ghost before = reg_trials@;
    for k in 0..images.len()
        invariant
            images@.len() == has_pose@.len(),
            forall|m: int|
                0 <= m < reg_trials@.len() ==> #[trigger] reg_trials@[m] + (images@.len() - k)
                    <= usize::MAX,
            reg_trials@ == trials_probed(reconstruction@, before, images@, has_pose@, k as nat),
    {
        if !has_pose[k] {
            increment_registration_unit_trials(reconstruction, images[k], reg_trials);
        }
    }
}

/// What finds the pose of an image.
#[derive(Debug, Clone, Copy, PartialEq, Eq, Structural)]
pub enum PoseSource {
    GeneralizedFrame,
    Pnp,
    Structureless,
}

impl PoseSource {
    pub open spec fn text(self) -> Seq<char> {
        match self {
            PoseSource::GeneralizedFrame => "generalized_frame"@,
            PoseSource::Pnp => "pnp"@,
            PoseSource::Structureless => "structureless"@,
        }
    }

    pub fn as_str(&self) -> (text: &'static str)
        ensures
            text@ == self.text(),
    {
        match self {
            PoseSource::GeneralizedFrame => "generalized_frame",
            PoseSource::Pnp => "pnp",
            PoseSource::Structureless => "structureless",
        }
    }
}

/// What finds the pose of an image, given whether its frame can be registered
/// as a whole.
pub fn pose_source(mode: NextImageRegistrationMode, frame_applicable: bool) -> (source: PoseSource)
    ensures
        source == (match mode {
            NextImageRegistrationMode::StructureLess => PoseSource::Structureless,
            NextImageRegistrationMode::StructureBased => if frame_applicable {
                PoseSource::GeneralizedFrame
            } else {
                PoseSource::Pnp
            },
        }),
{
    match mode {
        NextImageRegistrationMode::StructureLess => PoseSource::Structureless,
        NextImageRegistrationMode::StructureBased => if frame_applicable {
            PoseSource::GeneralizedFrame
        } else {
            PoseSource::Pnp
        },
    }
}

/// Whether a pose agrees with the verified pairs of its image.
pub fn pose_agrees_with_pairs(pair_rotation_error: Real32, limit: Real32) -> (b: bool)
    ensures
        b == (pair_rotation_error.finite() && !limit.below(pair_rotation_error)),
{
    pair_rotation_error.is_finite() && !limit.lt(&pair_rotation_error)
}

/// What is still known of an image after its pose was found: how many points it
/// sees, out of how many features.
pub fn registration_visibility(observation_manager: &ObservationManager, image: usize) -> (terms:
    RankTerms)
    ensures
        terms.numerator == UnitMeasure::VisiblePoints.of(observation_manager.image_stats(), image),
        terms.denominator == (if UnitMeasure::Observations.of(
            observation_manager.image_stats(),
            image,
        ) == 0 {
            1
        } else {
            UnitMeasure::Observations.of(observation_manager.image_stats(), image)
        }),
{
    let observations: usize = observation_manager.num_observations(image);
    RankTerms {
        numerator: observation_manager.num_visible_points3d(image),
        denominator: if observations == 0 {
            1
        } else {
            observations
        },
    }
}

/// An image to try, and how its pose is sought.
#[derive(Debug, Clone, Copy, PartialEq, Eq, Structural)]
pub struct QueuedImage {
    pub image: usize,
    pub mode: NextImageRegistrationMode,
}

/// A list of images that are tried in one way.
pub open spec fn queued(images: Seq<usize>, mode: NextImageRegistrationMode) -> Seq<QueuedImage> {
    images.map_values(|image: usize| QueuedImage { image, mode })
}

/// A search for the next image to register: the images to try in order, and
/// how many were tried in vain.
#[derive(Debug)]
pub struct RegistrationSearch {
    pub queue: Vec<QueuedImage>,
    pub failed: usize,
}

impl RegistrationSearch {
    pub open spec fn wf(self) -> bool {
        self.failed <= self.queue@.len()
    }

    /// The images that were tried in vain.
    pub open spec fn failures(self) -> Seq<usize> {
        self.queue@.take(self.failed as int).map_values(|q: QueuedImage| q.image)
    }

    /// Images that see enough of the model come first. Images that see enough
    /// registered images follow if they can be placed without the model.
    pub fn new(
        structure_based: &Vec<usize>,
        structureless: &Vec<usize>,
        config: &MapperConfig,
        solver_at_hand: bool,
    ) -> (search: RegistrationSearch)
        ensures
            search.wf(),
            search.failed == 0,
            search.queue@ == queued(structure_based@, NextImageRegistrationMode::StructureBased)
                + (if config.experimental_structureless_pair_pose_fallback || solver_at_hand {
                queued(structureless@, NextImageRegistrationMode::StructureLess)
            } else {
                seq![]
            }),
    {
        let mut queue: Vec<QueuedImage> = Vec::new();
        for i in 0..structure_based.len()
            invariant
                queue@ == queued(
                    structure_based@.take(i as int),
                    NextImageRegistrationMode::StructureBased,
                ),
        {
            queue.push(
                QueuedImage {
                    image: structure_based[i],
                    mode: NextImageRegistrationMode::StructureBased,
                },
            );
            assert(queue@ =~= queued(
                structure_based@.take(i + 1),
                NextImageRegistrationMode::StructureBased,
            ));
        }
        assert(structure_based@.take(structure_based@.len() as int) =~= structure_based@);
        if structureless_registration_enabled(config, solver_at_hand) {
            let ghost first = queue@;
            assert(queue@ =~= first + queued(
                structureless@.take(0),
                NextImageRegistrationMode::StructureLess,
            ));
            for i in 0..structureless.len()
                invariant
                    queue@ == first + queued(
                        structureless@.take(i as int),
                        NextImageRegistrationMode::StructureLess,
                    ),
            {
                queue.push(
                    QueuedImage {
                        image: structureless[i],
                        mode: NextImageRegistrationMode::StructureLess,
                    },
                );
                assert(queue@ =~= first + queued(
                    structureless@.take(i + 1),
                    NextImageRegistrationMode::StructureLess,
                ));
            }
            assert(structureless@.take(structureless@.len() as int) =~= structureless@);
        } else {
            assert(queue@ =~= queue@ + Seq::<QueuedImage>::empty());
        }
        RegistrationSearch { queue, failed: 0 }
    }

    /// The image to try, if any is left.
    pub fn candidate(&self) -> (candidate: Option<QueuedImage>)
        requires
            self.wf(),
        ensures
            candidate == (if self.failed < self.queue@.len() {
                Some(self.queue@[self.failed as int])
            } else {
                None
            }),
    {
        if self.failed < self.queue.len() {
            Some(self.queue[self.failed])
        } else {
            None
        }
    }

    /// Puts the image that was tried among the failures.
    pub fn reject(&mut self)
        requires
            old(self).wf(),
            old(self).failed < old(self).queue@.len(),
        ensures
            final(self).wf(),
            final(self).queue@ == old(self).queue@,
            final(self).failed == old(self).failed + 1,
            final(self).failures() == old(self).failures().push(
                old(self).queue@[old(self).failed as int].image,
            ),
    {
        let n: usize = self.queue.len();
        assert(self.failed < n);
        self.failed = self.failed + 1;
        proof {
            assert(self.failures() =~= old(self).failures().push(
                old(self).queue@[old(self).failed as int].image,
            ));
        }
    }

    /// The images that were tried in vain, in the order in which they were tried.
    pub fn failed_images(&self) -> (images: Vec<usize>)
        requires
            self.wf(),
        ensures
            images@ == self.failures(),
    {
        let mut images: Vec<usize> = Vec::new();
        for i in 0..self.failed
            invariant
                self.wf(),
                images@ == self.queue@.take(i as int).map_values(|q: QueuedImage| q.image),
        {
            images.push(self.queue[i].image);
            assert(images@ =~= self.queue@.take(i + 1).map_values(|q: QueuedImage| q.image));
        }
        images
    }
}

} // verus!
