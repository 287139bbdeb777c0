//! Registration of an image against registered images without using points,
//! and the tracks that follow from it.

use crate::absolute_pose::{
    features_of_match, marked, match_features, pair_side, structureless_pair_side, supports,
};
use crate::ascending::{ascending, insert_ascending};
use crate::config::MapperConfig;
use crate::global_ba::{registered_image_count, registered_images};
use crate::indices::indices_where;
use crate::links::{has_feature, links_fit};
use crate::local_bundle::sees_image;
use crate::observation_laws::{
    law_add_observation_keeps_agreement, law_add_point_keeps_agreement,
    law_statistics_ignore_positions, table_fits, tracks_agree,
};
use crate::observation_manager::{
    can_add_observation, can_add_point, observation_added, Edited, ObservationManager,
};
use crate::pair_tracks::{ascends_by_image, repeats_image, unique_track_observations};
use crate::point_ids::ids_fit;
use crate::scalar::Real32;
use crate::sorting::{ranks_all, sort_distinct, strictly_sorted, Ranked};
use crate::track_edits::{track_free, track_is_free, with_point};
use crate::track_filter::{lemma_position_keeps_agreement, with_position};
use crate::types::{
    CameraModel, ImageFrame, PairGeometry, Point3D, Point3DView, Reconstruction,
    ReconstructionView, TrackObservation,
};
use vstd::prelude::*;

verus! {

/// A feature of the image to register and one of a registered image.
#[derive(Debug, Clone, Copy, PartialEq, Eq, Structural)]
pub struct StructurelessInlier {
    pub image: usize,
    pub feature: usize,
    pub other: usize,
    pub other_feature: usize,
}

/// The matches of a pair whose features exist, among its first `k`.
pub open spec fn structureless_matches(
    frames: Seq<ImageFrame>,
    pair: PairGeometry,
    image: usize,
    other: usize,
    image_is_left: bool,
    k: nat,
) -> Seq<StructurelessInlier>
    decreases k,
{
    if k == 0 {
        Seq::empty()
    } else {
        let rest = structureless_matches(
            frames,
            pair,
            image,
            other,
            image_is_left,
            (k - 1) as nat,
        );
        let (feature, other_feature) = match_features(pair.inlier_matches@[k - 1], image_is_left);
        if has_feature(frames, image as int, feature as int) && has_feature(
            frames,
            other as int,
            other_feature as int,
        ) {
            rest.push(StructurelessInlier { image, feature, other, other_feature })
        } else {
            rest
        }
    }
}

/// The matches of a pair whose features exist.
pub fn valid_structureless_matches(
    image: usize,
    other: usize,
    image_is_left: bool,
    frames: &[ImageFrame],
    pair: &PairGeometry,
) -> (matches: Vec<StructurelessInlier>)
    ensures
        matches@ == structureless_matches(
            frames@,
            *pair,
            image,
            other,
            image_is_left,
            pair.inlier_matches@.len(),
        ),
{
    let mut matches: Vec<StructurelessInlier> = Vec::new();
    for k in 0..pair.inlier_matches.len()
        invariant
            matches@ == structureless_matches(
                frames@,
                *pair,
                image,
                other,
                image_is_left,
                k as nat,
            ),
    {
        let (feature, other_feature): (usize, usize) = features_of_match(
            &pair.inlier_matches[k],
            image_is_left,
        );
        if image < frames.len() && feature < frames[image].keypoints.len() && other < frames.len()
            && other_feature < frames[other].keypoints.len() {
            matches.push(StructurelessInlier { image, feature, other, other_feature });
        }
    }
    matches
}

/// Correspondences with registered images. Each comes with the position of its
/// registered image in `world_images`.
#[derive(Debug)]
pub struct StructurelessProblem {
    pub world_images: Vec<usize>,
    pub world_camera_idxs: Vec<usize>,
    pub correspondences: Vec<StructurelessInlier>,
}

#[verifier::ext_equal]
pub struct StructurelessProblemView {
    pub images: Seq<usize>,
    pub camera_idxs: Seq<usize>,
    pub correspondences: Seq<StructurelessInlier>,
}

impl View for StructurelessProblem {
    type V = StructurelessProblemView;

    open spec fn view(&self) -> StructurelessProblemView {
        StructurelessProblemView {
            images: self.world_images@,
            camera_idxs: self.world_camera_idxs@,
            correspondences: self.correspondences@,
        }
    }
}

/// The first position of an entry, or the length of the list.
pub open spec fn position_of(list: Seq<usize>, x: usize) -> nat
    decreases list.len(),
{
    if list.len() == 0 {
        0
    } else if list[0] == x {
        0
    } else {
        1 + position_of(list.skip(1), x)
    }
}

/// The first position of an entry, or the length of the list.
pub fn find_position(list: &Vec<usize>, x: usize) -> (p: usize)
    ensures
        p == position_of(list@, x),
        p < list@.len() ==> list@[p as int] == x,
        p <= list@.len(),
        p == list@.len() ==> !list@.contains(x),
{
    let n: usize = list.len();
    let mut p: usize = 0;
    assert(list@.skip(0) =~= list@);
    while p < n && list[p] != x
        invariant
            n == list@.len(),
            p <= n,
            position_of(list@, x) == p + position_of(list@.skip(p as int), x),
            forall|j: int| 0 <= j < p ==> list@[j] != x,
        decreases n - p,
    {
        assert(list@.skip(p as int).skip(1) =~= list@.skip(p + 1));
        p = p + 1;
    }
    p
}

/// A list with an image in it; it is appended if it was missing.
pub open spec fn with_image(images: Seq<usize>, image: usize) -> Seq<usize> {
    if images.contains(image) {
        images
    } else {
        images.push(image)
    }
}

pub open spec fn repeat(x: nat, n: nat) -> Seq<usize> {
    Seq::new(n, |i: int| x as usize)
}

/// The problem posed by the first `k` pairs.
pub open spec fn problem_upto(
    frames: Seq<ImageFrame>,
    pairs: Seq<PairGeometry>,
    r: ReconstructionView,
    image: usize,
    k: nat,
) -> StructurelessProblemView
    decreases k,
{
    if k == 0 {
        StructurelessProblemView {
            images: Seq::empty(),
            camera_idxs: Seq::empty(),
            correspondences: Seq::empty(),
        }
    } else {
        let rest = problem_upto(frames, pairs, r, image, (k - 1) as nat);
        let pair = pairs[k - 1];
        match pair_side(image, pair) {
            Some((other, image_is_left)) => if supports(r, other) {
                let found = structureless_matches(
                    frames,
                    pair,
                    image,
                    other,
                    image_is_left,
                    pair.inlier_matches@.len(),
                );
                StructurelessProblemView {
                    images: with_image(rest.images, other),
                    camera_idxs: rest.camera_idxs + repeat(
                        position_of(rest.images, other),
                        found.len(),
                    ),
                    correspondences: rest.correspondences + found,
                }
            } else {
                rest
            },
            None => rest,
        }
    }
}

/// Collects the correspondences of an image with registered images.
pub fn collect_structureless_problem(
    image: usize,
    frames: &[ImageFrame],
    pairs: &[PairGeometry],
    reconstruction: &Reconstruction,
) -> (problem: StructurelessProblem)
    ensures
        problem@ == problem_upto(frames@, pairs@, reconstruction@, image, pairs@.len()),
{
    let ghost r = reconstruction@;
    let mut problem = StructurelessProblem {
        world_images: Vec::new(),
        world_camera_idxs: Vec::new(),
        correspondences: Vec::new(),
    };
    for p in 0..pairs.len()
        invariant
            r == reconstruction@,
            problem@ == problem_upto(frames@, pairs@, r, image, p as nat),
    {
        let pair = &pairs[p];
        if let Some((other, image_is_left)) = structureless_pair_side(image, pair) {
            if reconstruction.is_registered(other) && !reconstruction.camera_for_image(
                other,
            ).bogus {
                let ghost before = problem@;
                let idx: usize = find_position(&problem.world_images, other);
                if idx == problem.world_images.len() {
                    problem.world_images.push(other);
                } else {
                    assert(problem.world_images@[idx as int] == other);
                }
                let found: Vec<StructurelessInlier> = valid_structureless_matches(
                    image,
                    other,
                    image_is_left,
                    frames,
                    pair,
                );
                let ghost images = problem.world_images@;
                proof {
                    assert(before.camera_idxs + repeat(idx as nat, 0) =~= before.camera_idxs);
                    assert(before.correspondences + found@.take(0) =~= before.correspondences);
                }
                for m in 0..found.len()
                    invariant
                        problem.world_images@ == images,
                        problem.world_camera_idxs@ == before.camera_idxs + repeat(
                            idx as nat,
                            m as nat,
                        ),
                        problem.correspondences@ == before.correspondences + found@.take(m as int),
                {
                    problem.world_camera_idxs.push(idx);
                    problem.correspondences.push(found[m]);
                    proof {
                        assert(problem.world_camera_idxs@ =~= before.camera_idxs + repeat(
                            idx as nat,
                            (m + 1) as nat,
                        ));
                        assert(problem.correspondences@ =~= before.correspondences + found@.take(
                            m + 1,
                        ));
                    }
                }
                assert(found@.take(found@.len() as int) =~= found@);
            }
        }
    }
    problem
}

/// A pair that constrains the pose of an image.
#[derive(Debug)]
pub struct StructurelessCandidate {
    pub pair: usize,
    pub other: usize,
    pub image_is_left: bool,
    pub matches: Vec<StructurelessInlier>,
}

/// Whether a pair constrains the pose of an image: it has a trustworthy
/// geometry, a supporting image and existing matches.
pub open spec fn constrains(
    frames: Seq<ImageFrame>,
    r: ReconstructionView,
    image: usize,
    pair: PairGeometry,
) -> bool {
    match pair_side(image, pair) {
        Some((other, image_is_left)) => {
            &&& !pair.pose_graph_only
            &&& supports(r, other)
            &&& structureless_matches(
                frames,
                pair,
                image,
                other,
                image_is_left,
                pair.inlier_matches@.len(),
            ).len() > 0
        },
        None => false,
    }
}

pub open spec fn constraining(
    frames: Seq<ImageFrame>,
    pairs: Seq<PairGeometry>,
    r: ReconstructionView,
    image: usize,
) -> spec_fn(int) -> bool {
    |p: int| constrains(frames, r, image, pairs[p])
}

/// Whether a candidate describes a pair.
pub open spec fn describes(
    c: StructurelessCandidate,
    frames: Seq<ImageFrame>,
    pairs: Seq<PairGeometry>,
    image: usize,
    pair: usize,
) -> bool {
    &&& c.pair == pair
    &&& pair_side(image, pairs[pair as int]) == Some((c.other, c.image_is_left))
    &&& c.matches@ == structureless_matches(
        frames,
        pairs[pair as int],
        image,
        c.other,
        c.image_is_left,
        pairs[pair as int].inlier_matches@.len(),
    )
}

/// The pairs that constrain the pose of an image, in order.
pub fn structureless_candidates(
    image: usize,
    frames: &[ImageFrame],
    pairs: &[PairGeometry],
    reconstruction: &Reconstruction,
) -> (candidates: Vec<StructurelessCandidate>)
    ensures
        ({
            let chosen = indices_where(
                pairs@.len(),
                constraining(frames@, pairs@, reconstruction@, image),
            );
            &&& candidates@.len() == chosen.len()
            &&& forall|i: int|
                0 <= i < chosen.len() ==> describes(
                    #[trigger] candidates@[i],
                    frames@,
                    pairs@,
                    image,
                    chosen[i],
                )
        }),
{
    let ghost q = constraining(frames@, pairs@, reconstruction@, image);
    let mut candidates: Vec<StructurelessCandidate> = Vec::new();
    for p in 0..pairs.len()
        invariant
            q == constraining(frames@, pairs@, reconstruction@, image),
            candidates@.len() == indices_where(p as nat, q).len(),
            forall|i: int|
                0 <= i < candidates@.len() ==> describes(
                    #[trigger] candidates@[i],
                    frames@,
                    pairs@,
                    image,
                    indices_where(p as nat, q)[i],
                ),
    {
        let pair = &pairs[p];
        if !pair.pose_graph_only {
            if let Some((other, image_is_left)) = structureless_pair_side(image, pair) {
                if reconstruction.is_registered(other) && !reconstruction.camera_for_image(
                    other,
                ).bogus {
                    let matches: Vec<StructurelessInlier> = valid_structureless_matches(
                        image,
                        other,
                        image_is_left,
                        frames,
                        pair,
                    );
                    if matches.len() > 0 {
                        candidates.push(
                            StructurelessCandidate { pair: p, other, image_is_left, matches },
                        );
                    }
                }
            }
        }
    }
    candidates
}

/// How many different values a list holds.
pub fn count_distinct(values: &Vec<usize>) -> (n: usize)
    ensures
        n == values@.to_set().len(),
{
    let mut seen: Vec<usize> = Vec::new();
    for k in 0..values.len()
        invariant
            ascending(seen@),
            forall|x: usize| #[trigger]
                seen@.contains(x) <==> values@.take(k as int).contains(x),
    {
        insert_ascending(&mut seen, values[k]);
        proof {
            crate::registration_units::lemma_take_contains(values@, k as int);
        }
    }
    proof {
        assert(values@.take(values@.len() as int) =~= values@);
        assert(seen@.no_duplicates());
        seen@.unique_seq_to_set();
        assert(seen@.to_set() =~= values@.to_set());
    }
    seen.len()
}

/// The registered images of a list of correspondences.
pub open spec fn others_of(inliers: Seq<StructurelessInlier>) -> Seq<usize> {
    Seq::new(inliers.len(), |i: int| inliers[i].other)
}

pub fn distinct_structureless_inlier_neighbors(inliers: &Vec<StructurelessInlier>) -> (n: usize)
    ensures
        n == others_of(inliers@).to_set().len(),
{
    let mut others: Vec<usize> = Vec::new();
    for i in 0..inliers.len()
        invariant
            others@ == others_of(inliers@).take(i as int),
    {
        others.push(inliers[i].other);
        assert(others@ =~= others_of(inliers@).take(i + 1));
    }
    assert(others@ =~= others_of(inliers@));
    count_distinct(&others)
}

/// The matches of the first `k` of some candidates, counted.
pub open spec fn matches_of(
    candidates: Seq<StructurelessCandidate>,
    chosen: Seq<usize>,
    k: nat,
) -> nat
    decreases k,
{
    if k == 0 {
        0
    } else {
        matches_of(candidates, chosen, (k - 1) as nat) + candidates[chosen[k
            - 1] as int].matches@.len()
    }
}

/// The registered images of some candidates.
pub open spec fn neighbors_of(
    candidates: Seq<StructurelessCandidate>,
    chosen: Seq<usize>,
) -> Seq<usize> {
    Seq::new(chosen.len(), |i: int| candidates[chosen[i] as int].other)
}

/// How many matches and images stand behind a pose.
#[derive(Debug, Clone, Copy, PartialEq, Eq, Structural)]
pub struct StructurelessSupport {
    pub matches: usize,
    pub neighbors: usize,
}

proof fn lemma_matches_monotone(
    candidates: Seq<StructurelessCandidate>,
    chosen: Seq<usize>,
    j: nat,
    k: nat,
)
    requires
        j <= k,
    ensures
        matches_of(candidates, chosen, j) <= matches_of(candidates, chosen, k),
    decreases k,
{
    if j < k {
        lemma_matches_monotone(candidates, chosen, j, (k - 1) as nat);
    }
}

impl StructurelessSupport {
    /// Whether there is enough to look for a pose: matches for twice the least
    /// number of inliers, from two images at least.
    pub open spec fn suffices(self, config: MapperConfig) -> bool {
        self.matches >= 2 * config.abs_pose_min_num_inliers && self.neighbors >= 2
    }

    pub fn is_enough(&self, config: &MapperConfig) -> (b: bool)
        requires
            2 * config.abs_pose_min_num_inliers <= usize::MAX,
        ensures
            b == self.suffices(*config),
    {
        self.matches >= structureless_min_num_inliers(config) && self.neighbors >= 2
    }
}

/// Counts the matches and images of some candidates.
pub fn structureless_support(
    candidates: &Vec<StructurelessCandidate>,
    chosen: &Vec<usize>,
) -> (support: StructurelessSupport)
    requires
        forall|i: int| 0 <= i < chosen@.len() ==> #[trigger] chosen@[i] < candidates@.len(),
        matches_of(candidates@, chosen@, chosen@.len()) <= usize::MAX,
    ensures
        support.matches == matches_of(candidates@, chosen@, chosen@.len()),
        support.neighbors == neighbors_of(candidates@, chosen@).to_set().len(),
{
    let mut matches: usize = 0;
    let mut others: Vec<usize> = Vec::new();
    for k in 0..chosen.len()
        invariant
            forall|i: int| 0 <= i < chosen@.len() ==> #[trigger] chosen@[i] < candidates@.len(),
            matches_of(candidates@, chosen@, chosen@.len()) <= usize::MAX,
            matches == matches_of(candidates@, chosen@, k as nat),
            others@ == neighbors_of(candidates@, chosen@).take(k as int),
    {
        proof {
            lemma_matches_monotone(candidates@, chosen@, (k + 1) as nat, chosen@.len());
        }
        let candidate = &candidates[chosen[k]];
        matches = matches + candidate.matches.len();
        others.push(candidate.other);
        assert(others@ =~= neighbors_of(candidates@, chosen@).take(k + 1));
    }
    assert(others@ =~= neighbors_of(candidates@, chosen@));
    StructurelessSupport { matches, neighbors: count_distinct(&others) }
}

/// Selects the candidates whose rotation agrees with that of a hypothesis.
pub open spec fn agrees(errors: Seq<Option<Real32>>, limit: Real32) -> spec_fn(int) -> bool {
    |i: int| errors[i] is Some && errors[i]->0.at_most(limit)
}

/// The candidates whose rotation agrees with that of a hypothesis.
pub fn compatible_structureless_constraints(errors: &[Option<Real32>], limit: Real32) -> (chosen: Vec<
    usize,
>)
    ensures
        chosen@ == indices_where(errors@.len(), agrees(errors@, limit)),
{
    let mut chosen: Vec<usize> = Vec::new();
    for i in 0..errors.len()
        invariant
            chosen@ == indices_where(i as nat, agrees(errors@, limit)),
    {
        if let Some(error) = errors[i] {
            if error.le(&limit) {
                chosen.push(i);
            }
        }
    }
    chosen
}

/// The least number of correspondences for a registration without points.
pub fn structureless_min_num_inliers(config: &MapperConfig) -> (n: usize)
    requires
        2 * config.abs_pose_min_num_inliers <= usize::MAX,
    ensures
        n == 2 * config.abs_pose_min_num_inliers,
{
    2 * config.abs_pose_min_num_inliers
}

/// Whether an image may be registered without points: there are two registered
/// images, its camera is plausible and enough correspondences are visible.
pub fn structureless_registration_ready(
    reconstruction: &Reconstruction,
    config: &MapperConfig,
    observation_manager: &ObservationManager,
    image: usize,
    camera: CameraModel,
) -> (b: bool)
    requires
        2 * config.abs_pose_min_num_inliers <= usize::MAX,
    ensures
        b <==> registered_images(reconstruction@) >= 2 && !camera.bogus && {
            let visible = if image < observation_manager.image_stats().len() {
                observation_manager.image_stats()[image as int].num_visible_correspondences
            } else {
                0
            };
            visible >= 2 * config.abs_pose_min_num_inliers
        },
{
    registered_image_count(reconstruction) >= 2 && !camera.bogus
        && observation_manager.num_visible_correspondences(image) >= structureless_min_num_inliers(
        config,
    )
}

/// Whether there are enough correspondences to look for a pose without points.
pub fn enough_structureless_correspondences(
    problem: &StructurelessProblem,
    config: &MapperConfig,
) -> (b: bool)
    requires
        2 * config.abs_pose_min_num_inliers <= usize::MAX,
    ensures
        b <==> problem.correspondences@.len() >= 2 * config.abs_pose_min_num_inliers,
{
    problem.correspondences.len() >= structureless_min_num_inliers(config)
}

/// The correspondences that a mask marks, in order.
pub open spec fn marked_inliers(
    correspondences: Seq<StructurelessInlier>,
    mask: Seq<bool>,
) -> Seq<StructurelessInlier> {
    let chosen = indices_where(correspondences.len(), marked(mask));
    Seq::new(chosen.len(), |i: int| correspondences[chosen[i] as int])
}

/// The correspondences that support a pose found without points. The pose is
/// given up if the solver counts too few inliers or marks too few.
pub fn accept_structureless_inliers(
    correspondences: &Vec<StructurelessInlier>,
    num_inliers: usize,
    inlier_mask: &[bool],
    config: &MapperConfig,
) -> (inliers: Option<Vec<StructurelessInlier>>)
    requires
        2 * config.abs_pose_min_num_inliers <= usize::MAX,
    ensures
        ({
            let found = marked_inliers(correspondences@, inlier_mask@);
            let least = 2 * config.abs_pose_min_num_inliers;
            &&& inliers is Some <==> num_inliers >= least && found.len() >= least
            &&& inliers matches Some(list) ==> list@ == found
        }),
{
    let least: usize = structureless_min_num_inliers(config);
    if num_inliers < least {
        return None;
    }
    let mut inliers: Vec<StructurelessInlier> = Vec::new();
    for i in 0..correspondences.len()
        invariant
            ({
                let chosen = indices_where(i as nat, marked(inlier_mask@));
                inliers@ == Seq::new(
                    chosen.len(),
                    |k: int| correspondences@[chosen[k] as int],
                )
            }),
    {
        if i < inlier_mask.len() && inlier_mask[i] {
            inliers.push(correspondences[i]);
        }
        proof {
            let chosen = indices_where((i + 1) as nat, marked(inlier_mask@));
            assert(inliers@ =~= Seq::new(
                chosen.len(),
                |k: int| correspondences@[chosen[k] as int],
            ));
        }
    }
    if inliers.len() < least {
        None
    } else {
        Some(inliers)
    }
}

/// Whether correspondences support a pose: enough of them, from two images at
/// least, and a large enough share of all.
pub open spec fn supports_pose(
    inliers: nat,
    neighbors: nat,
    ratio: Real32,
    config: MapperConfig,
) -> bool {
    &&& inliers >= 2 * config.abs_pose_min_num_inliers
    &&& neighbors >= 2
    &&& !ratio.below(config.abs_pose_min_inlier_ratio)
}

pub fn structureless_pose_supported(
    inliers: usize,
    neighbors: usize,
    ratio: Real32,
    config: &MapperConfig,
) -> (b: bool)
    requires
        2 * config.abs_pose_min_num_inliers <= usize::MAX,
    ensures
        b == supports_pose(inliers as nat, neighbors as nat, ratio, *config),
{
    inliers >= structureless_min_num_inliers(config) && neighbors >= 2 && !ratio.lt(
        &config.abs_pose_min_inlier_ratio,
    )
}

/// The best of the first `k` hypotheses: a later one wins only with a higher
/// score. Hypotheses without a score are out.
pub open spec fn best_upto(scores: Seq<Option<Real32>>, k: nat) -> Option<usize>
    decreases k,
{
    if k == 0 {
        None
    } else {
        let best = best_upto(scores, (k - 1) as nat);
        match scores[k - 1] {
            None => best,
            Some(score) => match best {
                None => Some((k - 1) as usize),
                Some(b) => if scores[b as int]->0.below(score) {
                    Some((k - 1) as usize)
                } else {
                    Some(b)
                },
            },
        }
    }
}

proof fn lemma_best_upto(scores: Seq<Option<Real32>>, k: nat)
    requires
        k <= scores.len() <= usize::MAX,
    ensures
        best_upto(scores, k) matches Some(b) ==> b < k && scores[b as int] is Some,
    decreases k,
{
    if k > 0 {
        lemma_best_upto(scores, (k - 1) as nat);
    }
}

/// Chooses the hypothesis with the highest score, the first one among equals.
pub fn best_hypothesis(scores: &[Option<Real32>]) -> (best: Option<usize>)
    ensures
        best == best_upto(scores@, scores@.len()),
        best matches Some(b) ==> b < scores@.len() && scores@[b as int] is Some,
{
    let mut best: Option<usize> = None;
    for k in 0..scores.len()
        invariant
            best == best_upto(scores@, k as nat),
            best matches Some(b) ==> b < k && scores@[b as int] is Some,
    {
        if let Some(score) = scores[k] {
            let better: bool = match best {
                None => true,
                Some(b) => match scores[b] {
                    Some(s) => s.lt(&score),
                    None => true,
                },
            };
            if better {
                best = Some(k);
            }
        }
    }
    best
}

/// With numbers as scores, no hypothesis scores higher than the chosen one and
/// no earlier one as high.
pub proof fn law_best_hypothesis(scores: Seq<Option<Real32>>, i: int)
    requires
        scores.len() <= usize::MAX,
        0 <= i < scores.len(),
        forall|j: int| 0 <= j < scores.len() && (#[trigger] scores[j]) is Some ==> !scores[j]->0.nan(),
        scores[i] is Some,
    ensures
        best_upto(scores, scores.len()) is Some,
        ({
            let b = best_upto(scores, scores.len())->0;
            &&& !scores[b as int]->0.below(scores[i]->0)
            &&& i < b ==> scores[i]->0.below(scores[b as int]->0)
        }),
{
    lemma_best_is_max(scores, scores.len(), i);
}

proof fn lemma_best_is_max(scores: Seq<Option<Real32>>, k: nat, i: int)
    requires
        k <= scores.len() <= usize::MAX,
        0 <= i < k,
        forall|j: int| 0 <= j < scores.len() && (#[trigger] scores[j]) is Some ==> !scores[j]->0.nan(),
        scores[i] is Some,
    ensures
        best_upto(scores, k) is Some,
        best_upto(scores, k)->0 < k,
        ({
            let b = best_upto(scores, k)->0;
            &&& scores[b as int] is Some
            &&& !scores[b as int]->0.below(scores[i]->0)
            &&& i < b ==> scores[i]->0.below(scores[b as int]->0)
        }),
    decreases k,
{
    let m = (k - 1) as nat;
    lemma_best_upto(scores, m);
    if i < m {
        lemma_best_is_max(scores, m, i);
    }
}

/// Whether an inlier joins existing features of registered images.
pub open spec fn inlier_usable(
    inlier: StructurelessInlier,
    frames: Seq<ImageFrame>,
    r: ReconstructionView,
) -> bool {
    &&& r.registered(inlier.image as int)
    &&& r.registered(inlier.other as int)
    &&& has_feature(frames, inlier.image as int, inlier.feature as int)
    &&& has_feature(frames, inlier.other as int, inlier.other_feature as int)
    &&& r.has_slot((TrackObservation { image: inlier.image, feature: inlier.feature }))
    &&& r.has_slot((TrackObservation { image: inlier.other, feature: inlier.other_feature }))
}

pub fn structureless_inlier_is_registered_and_valid(
    inlier: StructurelessInlier,
    frames: &[ImageFrame],
    reconstruction: &Reconstruction,
) -> (b: bool)
    ensures
        b == inlier_usable(inlier, frames@, reconstruction@),
{
    reconstruction.is_registered(inlier.image) && reconstruction.is_registered(inlier.other)
        && inlier.image < frames.len() && inlier.feature < frames[inlier.image].keypoints.len()
        && inlier.other < frames.len() && inlier.other_feature < frames[inlier.other].keypoints.len()
        && inlier.image < reconstruction.observations.len() && inlier.feature
        < reconstruction.observations[inlier.image].len() && inlier.other
        < reconstruction.observations.len() && inlier.other_feature
        < reconstruction.observations[inlier.other].len()
}

impl Ranked for StructurelessInlier {
    /// Ascending by image, feature, registered image and its feature.
    open spec fn before(self, other: StructurelessInlier) -> bool {
        if self.image != other.image {
            self.image < other.image
        } else if self.feature != other.feature {
            self.feature < other.feature
        } else if self.other != other.other {
            self.other < other.other
        } else {
            self.other_feature < other.other_feature
        }
    }

    proof fn asymmetric(a: StructurelessInlier, b: StructurelessInlier) {
    }

    proof fn negatively_transitive(
        a: StructurelessInlier,
        b: StructurelessInlier,
        c: StructurelessInlier,
    ) {
    }

    fn precedes(&self, other: &StructurelessInlier) -> (b: bool) {
        if self.image != other.image {
            self.image < other.image
        } else if self.feature != other.feature {
            self.feature < other.feature
        } else if self.other != other.other {
            self.other < other.other
        } else {
            self.other_feature < other.other_feature
        }
    }
}

/// `list` holds the usable ones of some inliers, each once and in order.
pub open spec fn lists_usable(
    list: Seq<StructurelessInlier>,
    inliers: Seq<StructurelessInlier>,
    frames: Seq<ImageFrame>,
    r: ReconstructionView,
) -> bool {
    &&& strictly_sorted(list)
    &&& forall|x: StructurelessInlier| #[trigger]
        list.contains(x) <==> inliers.contains(x) && inlier_usable(x, frames, r)
}

/// Puts the usable inliers in order and drops repetitions. Inliers of the same
/// feature then stand together.
pub fn order_structureless_inliers(
    inliers: &[StructurelessInlier],
    frames: &[ImageFrame],
    reconstruction: &Reconstruction,
) -> (list: Vec<StructurelessInlier>)
    ensures
        lists_usable(list@, inliers@, frames@, reconstruction@),
{
    let ghost r = reconstruction@;
    let mut usable: Vec<StructurelessInlier> = Vec::new();
    for k in 0..inliers.len()
        invariant
            r == reconstruction@,
            forall|x: StructurelessInlier| #[trigger]
                usable@.contains(x) <==> inliers@.take(k as int).contains(x) && inlier_usable(
                    x,
                    frames@,
                    r,
                ),
    {
        let ghost before = usable@;
        let inlier = inliers[k];
        if structureless_inlier_is_registered_and_valid(inlier, frames, reconstruction) {
            usable.push(inlier);
        }
        proof {
            let a = inliers@.take(k as int);
            let b = inliers@.take(k + 1);
            assert(b =~= a.push(inlier));
            assert forall|x: StructurelessInlier| #[trigger] usable@.contains(x) <==> b.contains(x)
                && inlier_usable(x, frames@, r) by {
                assert(before.contains(x) <==> a.contains(x) && inlier_usable(x, frames@, r));
                if a.contains(x) {
                    let j = choose|j: int| 0 <= j < a.len() && a[j] == x;
                    assert(b[j] == x);
                }
                assert(b[k as int] == inlier);
                if b.contains(x) && x != inlier {
                    let j = choose|j: int| 0 <= j < b.len() && b[j] == x;
                    assert(a[j] == x);
                }
                if before.contains(x) {
                    let j = choose|j: int| 0 <= j < before.len() && before[j] == x;
                    assert(usable@[j] == x);
                }
                if inlier_usable(inlier, frames@, r) {
                    assert(usable@[before.len() as int] == inlier);
                    if usable@.contains(x) && x != inlier {
                        let j = choose|j: int| 0 <= j < usable@.len() && usable@[j] == x;
                        assert(before[j] == x);
                    }
                }
            }
        }
    }
    assert(inliers@.take(inliers@.len() as int) =~= inliers@);
    assert(ranks_all::<StructurelessInlier>());
    sort_distinct(usable)
}

/// Whether two inliers are of the same feature.
pub open spec fn same_feature(a: StructurelessInlier, b: StructurelessInlier) -> bool {
    a.image == b.image && a.feature == b.feature
}

/// The end of the run of inliers of one feature that begins at `start`.
pub fn group_end(list: &Vec<StructurelessInlier>, start: usize) -> (end: usize)
    requires
        start < list@.len(),
    ensures
        start < end <= list@.len(),
        forall|j: int| start <= j < end ==> same_feature(#[trigger] list@[j], list@[start as int]),
        end < list@.len() ==> !same_feature(list@[end as int], list@[start as int]),
{
    let n: usize = list.len();
    let mut end: usize = start + 1;
    while end < n && list[end].image == list[start].image && list[end].feature
        == list[start].feature
        invariant
            n == list@.len(),
            start < end <= n,
            forall|j: int|
                start <= j < end ==> same_feature(#[trigger] list@[j], list@[start as int]),
        decreases n - end,
    {
        end = end + 1;
    }
    end
}

/// Whether the point of a registered feature could take up another image.
pub open spec fn continuable_point(
    r: ReconstructionView,
    inlier: StructurelessInlier,
) -> Option<usize> {
    match r.observed(inlier.other as int, inlier.other_feature as int) {
        Some(point) => if point < r.points.len() && !sees_image(
            r.points[point as int].track,
            inlier.image,
        ) {
            Some(point)
        } else {
            None
        },
        None => None,
    }
}

/// The points that inliers `start` to `k` of a list offer for continuation.
pub open spec fn continuable_points(
    r: ReconstructionView,
    list: Seq<StructurelessInlier>,
    start: int,
    k: int,
) -> Seq<usize>
    decreases k - start,
{
    if k <= start {
        Seq::empty()
    } else {
        let rest = continuable_points(r, list, start, k - 1);
        match continuable_point(r, list[k - 1]) {
            Some(point) => rest.push(point),
            None => rest,
        }
    }
}

/// The points that a group of inliers offers for continuation, in order.
pub fn continuation_candidates(
    reconstruction: &Reconstruction,
    list: &Vec<StructurelessInlier>,
    start: usize,
    end: usize,
) -> (points: Vec<usize>)
    requires
        start <= end <= list@.len(),
    ensures
        points@ == continuable_points(reconstruction@, list@, start as int, end as int),
{
    let ghost r = reconstruction@;
    let mut points: Vec<usize> = Vec::new();
    for k in start..end
        invariant
            r == reconstruction@,
            start <= k,
            end <= list@.len(),
            points@ == continuable_points(r, list@, start as int, k as int),
    {
        let inlier = list[k];
        if let Some(point) = reconstruction.observed_point(inlier.other, inlier.other_feature) {
            if point < reconstruction.points.len() {
                let len: usize = reconstruction.points[point].track.len();
                assert(r.points[point as int].track == reconstruction.points@[point as int].track@);
                let mut seen: bool = false;
                for t in 0..len
                    invariant
                        point < reconstruction.points@.len(),
                        len == reconstruction.points@[point as int].track@.len(),
                        seen <==> exists|j: int|
                            0 <= j < t && (
                            #[trigger] reconstruction.points@[point as int].track@[j]).image
                                == inlier.image,
                {
                    if reconstruction.points[point].track[t].image == inlier.image {
                        assert(reconstruction.points@[point as int].track@[t as int].image
                            == inlier.image);
                        seen = true;
                    }
                }
                if !seen {
                    points.push(point);
                }
            }
        }
    }
    points
}

/// The observations of a group: its feature, then the registered ones.
pub open spec fn group_observations(
    list: Seq<StructurelessInlier>,
    start: int,
    end: int,
) -> Seq<TrackObservation> {
    seq![TrackObservation { image: list[start].image, feature: list[start].feature }] + Seq::new(
        (end - start) as nat,
        |i: int|
            TrackObservation {
                image: list[start + i].other,
                feature: list[start + i].other_feature,
            },
    )
}

/// Whether a group makes a new track: its images are distinct and none of its
/// observations has a point.
pub open spec fn group_makes_track(
    r: ReconstructionView,
    list: Seq<StructurelessInlier>,
    start: int,
    end: int,
) -> bool {
    !repeats_image(group_observations(list, start, end)) && track_free(
        r,
        group_observations(list, start, end),
    )
}

/// The new track of a group, ordered by image, if it makes one.
pub fn structureless_track(
    reconstruction: &Reconstruction,
    list: &Vec<StructurelessInlier>,
    start: usize,
    end: usize,
) -> (track: Option<Vec<TrackObservation>>)
    requires
        start < end <= list@.len(),
    ensures
        track is Some <==> group_makes_track(
            reconstruction@,
            list@,
            start as int,
            end as int,
        ),
        track matches Some(t) ==> {
            &&& ascends_by_image(t@)
            &&& t@.len() == end - start + 1
            &&& forall|x: TrackObservation| #[trigger]
                t@.contains(x) <==> group_observations(list@, start as int, end as int).contains(x)
        },
{
    let ghost all = group_observations(list@, start as int, end as int);
    let mut observations: Vec<TrackObservation> = Vec::new();
    observations.push(TrackObservation { image: list[start].image, feature: list[start].feature });
    assert(observations@ =~= all.take(1));
    for k in start..end
        invariant
            start <= k,
            end <= list@.len(),
            all == group_observations(list@, start as int, end as int),
            observations@ == all.take(k - start + 1),
    {
        observations.push(
            TrackObservation { image: list[k].other, feature: list[k].other_feature },
        );
        assert(observations@ =~= all.take(k + 1 - start + 1));
    }
    assert(observations@ =~= all);
    match unique_track_observations(observations) {
        Some(track) => {
            let free: bool = track_is_free(reconstruction, &track);
            proof {
                if track_free(reconstruction@, all) {
                    assert forall|k: int| 0 <= k < track@.len() implies reconstruction@.observed(
                        (#[trigger] track@[k]).image as int,
                        track@[k].feature as int,
                    ) is None by {
                        assert(track@.contains(track@[k]));
                        let j = choose|j: int| 0 <= j < all.len() && all[j] == track@[k];
                        assert(reconstruction@.observed(
                            all[j].image as int,
                            all[j].feature as int,
                        ) is None);
                    }
                }
                if track_free(reconstruction@, track@) {
                    assert forall|k: int| 0 <= k < all.len() implies reconstruction@.observed(
                        (#[trigger] all[k]).image as int,
                        all[k].feature as int,
                    ) is None by {
                        assert(all.contains(all[k]));
                        assert(track@.contains(all[k]));
                        let j = choose|j: int| 0 <= j < track@.len() && track@[j] == all[k];
                        assert(reconstruction@.observed(
                            track@[j].image as int,
                            track@[j].feature as int,
                        ) is None);
                    }
                }
            }
            if free {
                Some(track)
            } else {
                None
            }
        },
        None => None,
    }
}

/// What is done with a group of inliers, once points and tracks are measured.
#[derive(Debug)]
pub enum StructurelessDecision {
    /// The feature joins a point, which moves to its new position if it has one.
    Continue { point_id: usize, refit: Option<([Real32; 3], Real32)> },
    /// A track becomes a point.
    Create { xyz: [Real32; 3], error: Real32, track: Vec<TrackObservation> },
    /// Nothing fits.
    Skip,
}

/// What was measured of a feature joining a point: its error, whether the longer
/// track lies in front of its cameras and spans the least angle, and the position
/// that the longer track triangulates to.
#[derive(Debug, Clone, Copy)]
pub struct ContinuationFit {
    pub error: Real32,
    pub track_ok: bool,
    pub refit: Option<([Real32; 3], Real32)>,
}

/// What was measured of a new track: where it triangulates to, and whether that
/// lies in front of its cameras and spans the least angle.
#[derive(Debug, Clone, Copy)]
pub struct CreationFit {
    pub xyz: [Real32; 3],
    pub error: Real32,
    pub track_ok: bool,
}

/// Whether a feature may join a point: its error is finite and not above the
/// limit, and the longer track holds.
pub open spec fn joins(fit: ContinuationFit, max_error: Real32) -> bool {
    fit.error.finite() && !max_error.below(fit.error) && fit.track_ok
}

/// Whether a new track may become a point.
pub open spec fn becomes_point(
    track: Option<Vec<TrackObservation>>,
    created: Option<CreationFit>,
) -> bool {
    track is Some && created is Some && created->0.track_ok
}

/// The first point that the feature may join takes it. Without one, the new
/// track becomes a point if it may.
pub fn structureless_decision(
    points: &Vec<usize>,
    fits: &[ContinuationFit],
    track: Option<Vec<TrackObservation>>,
    created: Option<CreationFit>,
    config: &MapperConfig,
) -> (decision: StructurelessDecision)
    requires
        fits@.len() == points@.len(),
    ensures
        ({
            let max_error = config.max_reprojection_error_px;
            match decision {
                StructurelessDecision::Continue { point_id, refit } => exists|k: int| {
                    &&& 0 <= k < fits@.len()
                    &&& joins(#[trigger] fits@[k], max_error)
                    &&& forall|j: int| 0 <= j < k ==> !joins(#[trigger] fits@[j], max_error)
                    &&& point_id == points@[k]
                    &&& refit == fits@[k].refit
                },
                StructurelessDecision::Create { xyz, error, track: t } => {
                    &&& forall|j: int|
                        0 <= j < fits@.len() ==> !joins(#[trigger] fits@[j], max_error)
                    &&& becomes_point(track, created)
                    &&& t == track->0
                    &&& xyz == created->0.xyz
                    &&& error == created->0.error
                },
                StructurelessDecision::Skip => {
                    &&& forall|j: int|
                        0 <= j < fits@.len() ==> !joins(#[trigger] fits@[j], max_error)
                    &&& !becomes_point(track, created)
                },
            }
        }),
{
    let max_error: Real32 = config.max_reprojection_error_px;
    for k in 0..fits.len()
        invariant
            fits@.len() == points@.len(),
            max_error == config.max_reprojection_error_px,
            forall|j: int| 0 <= j < k ==> !joins(#[trigger] fits@[j], max_error),
    {
        let fit: ContinuationFit = fits[k];
        if fit.error.is_finite() && !max_error.lt(&fit.error) && fit.track_ok {
            assert(joins(fits@[k as int], max_error));
            return StructurelessDecision::Continue { point_id: points[k], refit: fit.refit };
        }
    }
    match (track, created) {
        (Some(track), Some(fit)) => if fit.track_ok {
            StructurelessDecision::Create { xyz: fit.xyz, error: fit.error, track }
        } else {
            StructurelessDecision::Skip
        },
        _ => StructurelessDecision::Skip,
    }
}

/// What registration without points has added.
#[derive(Debug, Clone, Copy, PartialEq, Eq, Structural)]
pub struct StructurelessReport {
    pub continued_observations: usize,
    pub created_points: usize,
}

/// The new point of a decision.
pub open spec fn new_point(
    xyz: [Real32; 3],
    error: Real32,
    track: Seq<TrackObservation>,
) -> Point3DView {
    Point3DView { xyz, color: [0u8, 0u8, 0u8], error, track }
}

/// The model after a decision about a feature. A feature that observes a point
/// already is passed over, as are decisions that cannot be carried out.
pub open spec fn decision_applied(
    s: Edited,
    image: usize,
    feature: usize,
    decision: StructurelessDecision,
) -> Edited {
    if s.r.observed(image as int, feature as int) is Some {
        s
    } else {
        match decision {
            StructurelessDecision::Skip => s,
            StructurelessDecision::Continue { point_id, refit } => {
                let obs = TrackObservation { image, feature };
                if can_add_observation(s.r, point_id, obs) {
                    let joined = observation_added(s, point_id, obs);
                    match refit {
                        Some((xyz, error)) => Edited {
                            r: with_position(joined.r, point_id as int, xyz, error),
                            ..joined
                        },
                        None => joined,
                    }
                } else {
                    s
                }
            },
            StructurelessDecision::Create { xyz, error, track } => if can_add_point(
                s.r,
                track@,
            ) {
                Edited {
                    r: with_point(s.r, new_point(xyz, error, track@)),
                    modified: s.modified.insert(s.r.points.len() as usize),
                }
            } else {
                s
            },
        }
    }
}

/// Whether a decision adds a feature to a track.
pub open spec fn continues_track(
    r: ReconstructionView,
    image: usize,
    feature: usize,
    decision: StructurelessDecision,
) -> bool {
    &&& r.observed(image as int, feature as int) is None
    &&& decision is Continue
    &&& can_add_observation(r, decision->point_id, (TrackObservation { image, feature }))
}

/// Whether a decision about a feature adds a point.
pub open spec fn starts_track(
    r: ReconstructionView,
    image: usize,
    feature: usize,
    decision: StructurelessDecision,
) -> bool {
    &&& r.observed(image as int, feature as int) is None
    &&& decision is Create
    &&& can_add_point(r, decision->track@)
}

/// Carries out a decision and counts what it added.
pub fn apply_structureless_decision(
    frames: &[ImageFrame],
    pairs: &[PairGeometry],
    reconstruction: &mut Reconstruction,
    observation_manager: &mut ObservationManager,
    image: usize,
    feature: usize,
    decision: StructurelessDecision,
    report: &mut StructurelessReport,
)
    requires
        links_fit(pairs@),
        ids_fit(old(reconstruction)@.point_ids, old(reconstruction)@.points.len()),
        old(report).continued_observations < usize::MAX,
        old(report).created_points < usize::MAX,
    ensures
        final(observation_manager).edited(final(reconstruction)@) == decision_applied(
            old(observation_manager).edited(old(reconstruction)@),
            image,
            feature,
            decision,
        ),
        old(observation_manager).reflects(frames@, pairs@, old(reconstruction)@)
            ==> final(observation_manager).reflects(frames@, pairs@, final(reconstruction)@),
        ({
            let r = old(reconstruction)@;
            let continued = continues_track(r, image, feature, decision);
            let created = starts_track(r, image, feature, decision);
            &&& final(report).continued_observations == old(report).continued_observations + (
            if continued {
                1int
            } else {
                0
            })
            &&& final(report).created_points == old(report).created_points + (if created {
                1int
            } else {
                0
            })
        }),
{
    let ghost s = observation_manager.edited(reconstruction@);
    if reconstruction.observed_point(image, feature).is_some() {
        return;
    }
    match decision {
        StructurelessDecision::Skip => {},
        StructurelessDecision::Continue { point_id, refit } => {
            if observation_manager.add_observation(
                frames,
                pairs,
                reconstruction,
                point_id,
                TrackObservation { image, feature },
            ) {
                let ghost joined = observation_manager.edited(reconstruction@);
                assert(point_id < reconstruction@.points.len());
                assert(point_id < reconstruction.points@.len());
                if let Some((xyz, error)) = refit {
                    reconstruction.points[point_id].xyz = xyz;
                    reconstruction.points[point_id].error = error;
                    proof {
                        assert(reconstruction@.points =~= with_position(
                            joined.r,
                            point_id as int,
                            xyz,
                            error,
                        ).points);
                        assert(reconstruction@ =~= with_position(
                            joined.r,
                            point_id as int,
                            xyz,
                            error,
                        ));
                    }
                }
                proof {
                    law_statistics_ignore_positions(
                        *observation_manager,
                        frames@,
                        pairs@,
                        joined.r,
                        reconstruction@,
                    );
                }
                observation_manager.mark_point3d_modified(point_id);
                assert(joined.modified.insert(point_id) =~= joined.modified);
                report.continued_observations = report.continued_observations + 1;
            }
        },
        StructurelessDecision::Create { xyz, error, track } => {
            let point = Point3D { xyz, color: [0u8, 0u8, 0u8], error, track };
            assert(point@ =~= new_point(xyz, error, track@));
            if observation_manager.add_point3d(frames, pairs, reconstruction, point).is_some() {
                report.created_points = report.created_points + 1;
            }
        },
    }
}

/// Decisions keep tracks and observations in agreement.
pub proof fn law_decisions_keep_agreement(
    s: Edited,
    image: usize,
    feature: usize,
    decision: StructurelessDecision,
)
    requires
        table_fits(s.r),
        tracks_agree(s.r),
    ensures
        tracks_agree(decision_applied(s, image, feature, decision).r),
{
    match decision {
        StructurelessDecision::Skip => {},
        StructurelessDecision::Continue { point_id, refit } => {
            let obs = TrackObservation { image, feature };
            if can_add_observation(s.r, point_id, obs) {
                law_add_observation_keeps_agreement(s, point_id, obs);
                let joined = observation_added(s, point_id, obs).r;
                if let Some((xyz, error)) = refit {
                    lemma_position_keeps_agreement(joined, point_id as int, xyz, error);
                }
            }
        },
        StructurelessDecision::Create { xyz, error, track } => {
            if can_add_point(s.r, track@) {
                law_add_point_keeps_agreement(
                    s.r,
                    new_point(xyz, error, track@),
                );
            }
        },
    }
}

} // verus!
