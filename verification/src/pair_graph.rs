//! Matching image pairs and deciding which of them to trust.

use crate::camera_setup::{last_index, ReferenceCameraSetup};
use crate::config::{FeatureType, MapperConfig};
use crate::indices::{count_where, indices_where};
use crate::pair_candidates::{closes_ring, is_ring_bridge_candidate, PERIOD};
use crate::pair_ids::{image_pair_to_pair_id, spec_pair_id};
use crate::scalar::Real32;
use crate::sorting::{is_sorting_of, lemma_sorting_contains, sort, Ranked};
use crate::types::{CameraModel, ImageFrame, Match, PairGeometry};
use vstd::prelude::*;

verus! {

pub const TWO_VIEW_UNDEFINED: i32 = 0;

pub const TWO_VIEW_DEGENERATE: i32 = 1;

pub const TWO_VIEW_UNCALIBRATED: i32 = 3;

pub const TWO_VIEW_PLANAR: i32 = 4;

pub const TWO_VIEW_PANORAMIC: i32 = 5;

pub const TWO_VIEW_PLANAR_OR_PANORAMIC: i32 = 6;

pub const TWO_VIEW_WATERMARK: i32 = 7;

pub const TWO_VIEW_MULTIPLE: i32 = 8;

/// The name of a two-view configuration.
pub open spec fn config_name(config: i32) -> Seq<char> {
    if config == 0 {
        "UNDEFINED"@
    } else if config == 1 {
        "DEGENERATE"@
    } else if config == 2 {
        "CALIBRATED"@
    } else if config == 3 {
        "UNCALIBRATED"@
    } else if config == 4 {
        "PLANAR"@
    } else if config == 5 {
        "PANORAMIC"@
    } else if config == 6 {
        "PLANAR_OR_PANORAMIC"@
    } else if config == 7 {
        "WATERMARK"@
    } else if config == 8 {
        "MULTIPLE"@
    } else if config == 9 {
        "CALIBRATED_RIG"@
    } else {
        "UNKNOWN"@
    }
}

pub fn colmap_two_view_config_name(config: i32) -> (name: &'static str)
    ensures
        name@ == config_name(config),
{
    if config == TWO_VIEW_UNDEFINED {
        "UNDEFINED"
    } else if config == TWO_VIEW_DEGENERATE {
        "DEGENERATE"
    } else if config == crate::initial_pair::TWO_VIEW_CALIBRATED {
        "CALIBRATED"
    } else if config == TWO_VIEW_UNCALIBRATED {
        "UNCALIBRATED"
    } else if config == TWO_VIEW_PLANAR {
        "PLANAR"
    } else if config == TWO_VIEW_PANORAMIC {
        "PANORAMIC"
    } else if config == TWO_VIEW_PLANAR_OR_PANORAMIC {
        "PLANAR_OR_PANORAMIC"
    } else if config == TWO_VIEW_WATERMARK {
        "WATERMARK"
    } else if config == TWO_VIEW_MULTIPLE {
        "MULTIPLE"
    } else if config == crate::initial_pair::TWO_VIEW_CALIBRATED_RIG {
        "CALIBRATED_RIG"
    } else {
        "UNKNOWN"
    }
}

/// 0.75
pub const THREE_QUARTERS: u32 = 0x3f40_0000;

/// 1.0
pub const ONE: u32 = 0x3f80_0000;

/// 1.8
pub const MAX_DISTANT_ERROR: u32 = 0x3fe6_6666;

/// 8.0
pub const EIGHT: u32 = 0x4100_0000;

/// 20.0
pub const TWENTY: u32 = 0x41a0_0000;

/// 180.0
pub const BRIDGE_DISTANCE: u32 = 0x4334_0000;

/// The distance of two indices.
pub open spec fn offset_of(left: usize, right: usize) -> int {
    if left <= right {
        right - left
    } else {
        left - right
    }
}

/// Whether a verified pair can be trusted. The farther apart the images, the
/// more inliers are asked for; pairs that close a turn must be very accurate.
pub open spec fn trusted_pair(pair: PairGeometry) -> bool {
    let offset = offset_of(pair.left, pair.right);
    let error = pair.mean_reprojection_error_px;
    &&& pair.two_view_config != TWO_VIEW_UNDEFINED
    &&& pair.two_view_config != TWO_VIEW_DEGENERATE
    &&& pair.two_view_config != TWO_VIEW_WATERMARK
    &&& pair.two_view_config != TWO_VIEW_MULTIPLE
    &&& if closes_ring(pair.left, pair.right) {
        &&& pair.inliers >= 40
        &&& error.at_most(Real32 { bits: ONE })
        &&& (Real32 { bits: THREE_QUARTERS }).at_most(pair.median_triangulation_angle_deg)
        &&& pair.rotation_deg.at_most(Real32 { bits: EIGHT })
    } else if offset <= 1 {
        pair.inliers >= 15 && error.at_most(Real32 { bits: EIGHT })
    } else {
        &&& pair.inliers >= 40 + (offset - 2) * 12
        &&& error.at_most(Real32 { bits: MAX_DISTANT_ERROR })
        &&& pair.rotation_deg.at_most(Real32 { bits: TWENTY })
    }
}

pub fn keep_verified_pair(pair: &PairGeometry) -> (b: bool)
    ensures
        b == trusted_pair(*pair),
{
    if pair.two_view_config == TWO_VIEW_UNDEFINED || pair.two_view_config == TWO_VIEW_DEGENERATE
        || pair.two_view_config == TWO_VIEW_WATERMARK || pair.two_view_config
        == TWO_VIEW_MULTIPLE {
        return false;
    }
    let error: Real32 = pair.mean_reprojection_error_px;
    if is_ring_bridge_candidate(pair.left, pair.right) {
        return pair.inliers >= 40 && error.le(&Real32 { bits: ONE }) && (Real32 {
            bits: THREE_QUARTERS,
        }).le(&pair.median_triangulation_angle_deg) && pair.rotation_deg.le(
            &Real32 { bits: EIGHT },
        );
    }
    let offset: usize = if pair.left <= pair.right {
        pair.right - pair.left
    } else {
        pair.left - pair.right
    };
    if offset <= 1 {
        return pair.inliers >= 15 && error.le(&Real32 { bits: EIGHT });
    }
    pair.inliers >= 40 && (pair.inliers - 40) / 12 >= offset - 2 && error.le(
        &Real32 { bits: MAX_DISTANT_ERROR },
    ) && pair.rotation_deg.le(&Real32 { bits: TWENTY })
}

/// How the features of two images are matched.
#[derive(Debug, Clone, Copy, PartialEq, Eq, Structural)]
pub enum MatchingPlan {
    /// The strongest features by their wide descriptors.
    SiftAcrossTurn,
    Sift,
    /// Loosely, and by wide descriptors too.
    OrbAcrossTurn,
    Orb,
}

/// How two images are matched. Without a matcher neighbors cannot be.
pub fn matching_plan(
    feature_type: FeatureType,
    left: usize,
    right: usize,
    matcher_at_hand: bool,
) -> (plan: Option<MatchingPlan>)
    ensures
        plan == (match feature_type {
            FeatureType::Sift => Some(
                if closes_ring(left, right) {
                    MatchingPlan::SiftAcrossTurn
                } else {
                    MatchingPlan::Sift
                },
            ),
            FeatureType::Orb => if closes_ring(left, right) {
                Some(MatchingPlan::OrbAcrossTurn)
            } else if matcher_at_hand {
                Some(MatchingPlan::Orb)
            } else {
                None
            },
        }),
{
    let across: bool = is_ring_bridge_candidate(left, right);
    match feature_type {
        FeatureType::Sift => Some(
            if across {
                MatchingPlan::SiftAcrossTurn
            } else {
                MatchingPlan::Sift
            },
        ),
        FeatureType::Orb => if across {
            Some(MatchingPlan::OrbAcrossTurn)
        } else if matcher_at_hand {
            Some(MatchingPlan::Orb)
        } else {
            None
        },
    }
}

/// The first indices of a list, as many as a limit allows.
pub fn limited_indices(indices: &[usize], limit: usize) -> (out: Vec<usize>)
    ensures
        out@ == indices@.take(
            if indices@.len() <= limit {
                indices@.len() as int
            } else {
                limit as int
            },
        ),
{
    let n: usize = if indices.len() <= limit {
        indices.len()
    } else {
        limit
    };
    let mut out: Vec<usize> = Vec::new();
    for i in 0..n
        invariant
            n <= indices@.len(),
            out@ == indices@.take(i as int),
    {
        out.push(indices[i]);
        assert(out@ =~= indices@.take(i + 1));
    }
    out
}

/// The largest distance of a match. Across turns the limit is loosened.
pub open spec fn match_distance_limit(max_distance: Real32, across: bool) -> Real32 {
    if across && (max_distance.nan() || max_distance.below(Real32 { bits: BRIDGE_DISTANCE })) {
        Real32 { bits: BRIDGE_DISTANCE }
    } else {
        max_distance
    }
}

/// Selects the matches within a distance.
pub open spec fn within_distance(matches: Seq<Match>, limit: Real32) -> spec_fn(int) -> bool {
    |i: int| matches[i].distance.at_most(limit)
}

/// The matches at some positions.
pub open spec fn matches_at(matches: Seq<Match>, positions: Seq<usize>) -> Seq<Match> {
    Seq::new(positions.len(), |i: int| matches[positions[i] as int])
}

/// Drops the matches that are too far apart.
pub fn filter_match_distances(matches: &Vec<Match>, max_distance: Real32, across: bool) -> (out: Vec<
    Match,
>)
    ensures
        out@ == matches_at(
            matches@,
            indices_where(
                matches@.len(),
                within_distance(matches@, match_distance_limit(max_distance, across)),
            ),
        ),
{
    let loose = Real32 { bits: BRIDGE_DISTANCE };
    let limit: Real32 = if across && (max_distance.is_nan() || max_distance.lt(&loose)) {
        loose
    } else {
        max_distance
    };
    let ghost q = within_distance(matches@, limit);
    let mut out: Vec<Match> = Vec::new();
    for i in 0..matches.len()
        invariant
            q == within_distance(matches@, limit),
            out@ == matches_at(matches@, indices_where(i as nat, q)),
    {
        if matches[i].distance.le(&limit) {
            out.push(matches[i]);
        }
        assert(out@ =~= matches_at(matches@, indices_where((i + 1) as nat, q)));
    }
    out
}

/// Whether a list matches two features.
pub open spec fn joins(matches: Seq<Match>, query: u32, train: u32) -> bool {
    exists|i: int|
        0 <= i < matches.len() && (#[trigger] matches[i]).query_idx == query
            && matches[i].train_idx == train
}

fn is_joined(matches: &Vec<Match>, query: u32, train: u32) -> (b: bool)
    ensures
        b == joins(matches@, query, train),
{
    for i in 0..matches.len()
        invariant
            forall|j: int|
                0 <= j < i ==> !((#[trigger] matches@[j]).query_idx == query
                    && matches@[j].train_idx == train),
    {
        if matches[i].query_idx == query && matches[i].train_idx == train {
            assert(matches@[i as int].query_idx == query);
            return true;
        }
    }
    false
}

/// Some matches with those of a second list that join other features.
pub open spec fn merged(matches: Seq<Match>, extra: Seq<Match>, k: nat) -> Seq<Match>
    decreases k,
{
    if k == 0 {
        matches
    } else {
        let rest = merged(matches, extra, (k - 1) as nat);
        let m = extra[k - 1];
        if joins(rest, m.query_idx, m.train_idx) {
            rest
        } else {
            rest.push(m)
        }
    }
}

/// Adds the matches of a second list that join other features.
pub fn merge_matches(matches: &mut Vec<Match>, extra: &Vec<Match>)
    ensures
        final(matches)@ == merged(old(matches)@, extra@, extra@.len()),
{
    let ghost given = matches@;
    for k in 0..extra.len()
        invariant
            matches@ == merged(given, extra@, k as nat),
    {
        let m = extra[k];
        if !is_joined(matches, m.query_idx, m.train_idx) {
            matches.push(m);
        }
    }
}

/// Merging neither loses a match nor joins two features twice, if the first
/// list does not.
pub proof fn law_merge(matches: Seq<Match>, extra: Seq<Match>, k: nat)
    requires
        k <= extra.len(),
    ensures
        ({
            let all = merged(matches, extra, k);
            &&& all.len() >= matches.len()
            &&& all.take(matches.len() as int) == matches
            &&& forall|i: int|
                0 <= i < k ==> joins(
                    all,
                    (#[trigger] extra[i]).query_idx,
                    extra[i].train_idx,
                )
            &&& forall|i: int, j: int|
                matches.len() <= j < all.len() && 0 <= i < j ==> !((
                #[trigger] all[i]).query_idx == (#[trigger] all[j]).query_idx && all[i].train_idx
                    == all[j].train_idx)
        }),
    decreases k,
{
    if k > 0 {
        law_merge(matches, extra, (k - 1) as nat);
        let rest = merged(matches, extra, (k - 1) as nat);
        let all = merged(matches, extra, k);
        let m = extra[k - 1];
        if joins(rest, m.query_idx, m.train_idx) {
            assert(all == rest);
        } else {
            assert(all == rest.push(m));
            assert(all.take(matches.len() as int) =~= rest.take(matches.len() as int));
            assert forall|i: int| 0 <= i < k implies joins(
                all,
                (#[trigger] extra[i]).query_idx,
                extra[i].train_idx,
            ) by {
                if i < k - 1 {
                    let j = choose|j: int|
                        0 <= j < rest.len() && (#[trigger] rest[j]).query_idx
                            == extra[i].query_idx && rest[j].train_idx == extra[i].train_idx;
                    assert(all[j] == rest[j]);
                } else {
                    assert(all[rest.len() as int] == m);
                }
            }
            assert forall|i: int, j: int|
                matches.len() <= j < all.len() && 0 <= i < j implies !((
            #[trigger] all[i]).query_idx == (#[trigger] all[j]).query_idx && all[i].train_idx
                == all[j].train_idx) by {
                if j < rest.len() {
                    assert(all[i] == rest[i] && all[j] == rest[j]);
                } else {
                    assert(all[i] == rest[i]);
                }
            }
        }
    } else {
        assert(matches.take(matches.len() as int) =~= matches);
    }
}

/// Selects the matches that are found in both directions.
pub open spec fn confirmed(forward: Seq<Match>, reverse: Seq<Match>) -> spec_fn(int) -> bool {
    |i: int| joins(reverse, forward[i].train_idx, forward[i].query_idx)
}

/// The matches that are found in both directions.
pub fn mutual_matches(forward: &Vec<Match>, reverse: &Vec<Match>) -> (out: Vec<Match>)
    ensures
        out@ == matches_at(
            forward@,
            indices_where(forward@.len(), confirmed(forward@, reverse@)),
        ),
{
    let ghost q = confirmed(forward@, reverse@);
    let mut out: Vec<Match> = Vec::new();
    for i in 0..forward.len()
        invariant
            q == confirmed(forward@, reverse@),
            out@ == matches_at(forward@, indices_where(i as nat, q)),
    {
        if is_joined(reverse, forward[i].train_idx, forward[i].query_idx) {
            out.push(forward[i]);
        }
        assert(out@ =~= matches_at(forward@, indices_where((i + 1) as nat, q)));
    }
    out
}

/// Whether matches are looked for again along epipolar lines.
pub fn guided_matching_applies(
    feature_type: FeatureType,
    guided_matching: bool,
    pair: &PairGeometry,
) -> (b: bool)
    ensures
        b <==> feature_type == FeatureType::Sift && guided_matching && !closes_ring(
            pair.left,
            pair.right,
        ) && pair.f_matrix is Some,
{
    feature_type == FeatureType::Sift && guided_matching && !is_ring_bridge_candidate(
        pair.left,
        pair.right,
    ) && pair.f_matrix.is_some()
}

/// What an estimation of a pair leaves out to be quick.
#[derive(Debug, Clone, Copy, PartialEq, Eq, Structural)]
pub struct PairEstimationOptions {
    pub max_pose_matches: usize,
    pub use_hartley_refinement: bool,
    pub use_five_point: bool,
    pub refine_sampson: bool,
}

/// How thoroughly a pair is estimated. Without options nothing is left out.
#[derive(Debug, Clone, Copy, PartialEq, Eq, Structural)]
pub struct PairEffort {
    pub iterations: u32,
    pub options: Option<PairEstimationOptions>,
}

/// The effort with which pairs are estimated from guided or from stored matches.
pub fn thorough_effort(config: &MapperConfig) -> (effort: PairEffort)
    ensures
        effort == (PairEffort { iterations: config.essential_iterations, options: None }),
{
    PairEffort { iterations: config.essential_iterations, options: None }
}

/// The most iterations spent on a pair that closes a turn.
pub const MAX_RING_ITERATIONS: u32 = 200;

/// The most matches that the pose of a pair that closes a turn is taken from.
pub const MAX_RING_POSE_MATCHES: usize = 128;

/// The effort with which a candidate pair is estimated. One that closes a turn
/// gets few iterations on few matches, and no refinement.
pub fn pair_effort(config: &MapperConfig, left: usize, right: usize) -> (effort: PairEffort)
    ensures
        effort == (if closes_ring(left, right) {
            PairEffort {
                iterations: if config.essential_iterations < MAX_RING_ITERATIONS {
                    config.essential_iterations
                } else {
                    MAX_RING_ITERATIONS
                },
                options: Some(
                    PairEstimationOptions {
                        max_pose_matches: MAX_RING_POSE_MATCHES,
                        use_hartley_refinement: false,
                        use_five_point: false,
                        refine_sampson: false,
                    },
                ),
            }
        } else {
            PairEffort { iterations: config.essential_iterations, options: None }
        }),
{
    if is_ring_bridge_candidate(left, right) {
        let iterations: u32 = if config.essential_iterations < MAX_RING_ITERATIONS {
            config.essential_iterations
        } else {
            MAX_RING_ITERATIONS
        };
        PairEffort {
            iterations,
            options: Some(
                PairEstimationOptions {
                    max_pose_matches: MAX_RING_POSE_MATCHES,
                    use_hartley_refinement: false,
                    use_five_point: false,
                    refine_sampson: false,
                },
            ),
        }
    } else {
        thorough_effort(config)
    }
}

/// Whether the geometry from guided matches replaces the first one.
pub fn prefers_guided(
    num_guided: usize,
    config: &MapperConfig,
    pair: &PairGeometry,
    refined: Option<&PairGeometry>,
) -> (b: bool)
    ensures
        b <==> num_guided >= config.min_matches && refined is Some && refined->0.inliers
            >= pair.inliers,
{
    num_guided >= config.min_matches && match refined {
        Some(refined) => refined.inliers >= pair.inliers,
        None => false,
    }
}

/// Finishes a candidate pair: one that closes a turn only ties poses together.
/// `None` if the pair cannot be trusted.
pub fn finish_candidate_pair(pair: PairGeometry) -> (out: Option<PairGeometry>)
    ensures
        ({
            let marked = PairGeometry {
                pose_graph_only: pair.pose_graph_only || closes_ring(pair.left, pair.right),
                ..pair
            };
            &&& out is Some <==> trusted_pair(pair)
            &&& out matches Some(p) ==> p == marked
        }),
{
    let mut pair = pair;
    if is_ring_bridge_candidate(pair.left, pair.right) {
        pair.pose_graph_only = true;
    }
    if keep_verified_pair(&pair) {
        Some(pair)
    } else {
        None
    }
}

/// A pair that closes a turn, with its score.
#[derive(Debug, Clone, Copy, PartialEq, Eq, Structural)]
pub struct RingClosure {
    pub index: usize,
    pub score: i64,
}

impl Ranked for RingClosure {
    /// Higher scores first, then lower indices.
    open spec fn before(self, other: RingClosure) -> bool {
        if self.score != other.score {
            self.score > other.score
        } else {
            self.index < other.index
        }
    }

    proof fn asymmetric(a: RingClosure, b: RingClosure) {
    }

    proof fn negatively_transitive(a: RingClosure, b: RingClosure, c: RingClosure) {
    }

    fn precedes(&self, other: &RingClosure) -> (b: bool) {
        if self.score != other.score {
            self.score > other.score
        } else {
            self.index < other.index
        }
    }
}

/// Selects the pairs that close a turn.
pub open spec fn ring_closures(pairs: Seq<PairGeometry>) -> spec_fn(int) -> bool {
    |i: int| closes_ring(pairs[i].left, pairs[i].right)
}

/// The pairs that close a turn with their scores, in the order of the list.
pub open spec fn scored_closures(
    pairs: Seq<PairGeometry>,
    scores: Seq<Real32>,
    k: nat,
) -> Seq<RingClosure> {
    let chosen = indices_where(k, ring_closures(pairs));
    Seq::new(
        chosen.len(),
        |i: int|
            RingClosure { index: chosen[i], score: scores[chosen[i] as int].position() as i64 },
    )
}

/// How many of the first `k` closures belong to a turn.
pub open spec fn of_turn(
    pairs: Seq<PairGeometry>,
    ranked: Seq<RingClosure>,
    turn: int,
) -> spec_fn(int) -> bool {
    |i: int| pairs[ranked[i].index as int].left / PERIOD == turn
}

/// The first `k` ranked closures, at most `limit` per turn.
pub open spec fn best_closures(
    pairs: Seq<PairGeometry>,
    ranked: Seq<RingClosure>,
    limit: usize,
    k: nat,
) -> Seq<usize>
    decreases k,
{
    if k == 0 {
        Seq::empty()
    } else {
        let rest = best_closures(pairs, ranked, limit, (k - 1) as nat);
        let turn = pairs[ranked[k - 1].index as int].left / PERIOD;
        if count_where((k - 1) as nat, of_turn(pairs, ranked, turn as int)) < limit {
            rest.push(ranked[k - 1].index)
        } else {
            rest
        }
    }
}

/// The best pairs that close a turn, at most `limit` per turn. `scores` ranks
/// the pairs.
pub fn retain_best_ring_closures(
    pairs: &Vec<PairGeometry>,
    scores: &[Real32],
    limit: usize,
) -> (kept: Vec<usize>)
    requires
        scores@.len() == pairs@.len(),
        forall|i: int| 0 <= i < scores@.len() ==> !(#[trigger] scores@[i]).nan(),
    ensures
        exists|ranked: Seq<RingClosure>|
            is_sorting_of(ranked, scored_closures(pairs@, scores@, pairs@.len())) && kept@
                == #[trigger] best_closures(pairs@, ranked, limit, ranked.len()),
{
    let mut ranked: Vec<RingClosure> = Vec::new();
    for i in 0..pairs.len()
        invariant
            scores@.len() == pairs@.len(),
            ranked@ == scored_closures(pairs@, scores@, i as nat),
            forall|j: int| 0 <= j < ranked@.len() ==> (#[trigger] ranked@[j]).index < i,
    {
        if is_ring_bridge_candidate(pairs[i].left, pairs[i].right) {
            ranked.push(RingClosure { index: i, score: scores[i].signed_position() });
        }
        assert(ranked@ =~= scored_closures(pairs@, scores@, (i + 1) as nat));
    }
    let ghost given = ranked@;
    sort(&mut ranked);
    proof {
        lemma_sorting_contains(ranked@, given);
        assert forall|j: int| 0 <= j < ranked@.len() implies (#[trigger] ranked@[j]).index
            < pairs@.len() by {
            assert(ranked@.contains(ranked@[j]));
            assert(given.contains(ranked@[j]));
        }
    }
    let mut kept: Vec<usize> = Vec::new();
    for k in 0..ranked.len()
        invariant
            forall|j: int|
                0 <= j < ranked@.len() ==> (#[trigger] ranked@[j]).index < pairs@.len(),
            kept@ == best_closures(pairs@, ranked@, limit, k as nat),
    {
        let turn: usize = pairs[ranked[k].index].left / PERIOD;
        let ghost q = of_turn(pairs@, ranked@, turn as int);
        let mut count: usize = 0;
        for j in 0..k
            invariant
                k <= ranked@.len(),
                forall|j: int|
                    0 <= j < ranked@.len() ==> (#[trigger] ranked@[j]).index < pairs@.len(),
                q == of_turn(pairs@, ranked@, turn as int),
                count == count_where(j as nat, q),
                count <= j,
        {
            if pairs[ranked[j].index].left / PERIOD == turn {
                count = count + 1;
            }
        }
        if count < limit {
            kept.push(ranked[k].index);
        }
    }
    kept
}

/// The camera of an image before it is registered.
pub fn setup_camera_for_image(
    setup: Option<&ReferenceCameraSetup>,
    image: usize,
    fallback: CameraModel,
) -> (camera: CameraModel)
    ensures
        camera == (match setup {
            Some(s) => if image < s.image_camera_indices@.len()
                && s.image_camera_indices@[image as int] < s.cameras@.len() {
                s.cameras@[s.image_camera_indices@[image as int] as int]
            } else {
                fallback
            },
            None => fallback,
        }),
{
    match setup {
        Some(setup) => {
            if image < setup.image_camera_indices.len() {
                let camera: usize = setup.image_camera_indices[image];
                if camera < setup.cameras.len() {
                    return setup.cameras[camera];
                }
            }
            fallback
        },
        None => fallback,
    }
}

/// An image of a database.
#[derive(Debug, Clone)]
pub struct NamedImage {
    pub image_id: u32,
    pub name: String,
}

/// The names of some frames.
pub open spec fn frame_names(frames: Seq<ImageFrame>) -> Seq<Seq<char>> {
    Seq::new(frames.len(), |i: int| frames[i].name@)
}

/// The frame that a database image stands for: the last one of its name.
pub open spec fn frame_of_image_id(
    frames: Seq<ImageFrame>,
    images: Seq<NamedImage>,
    image_id: u32,
) -> Option<usize> {
    match last_index(Seq::new(images.len(), |i: int| images[i].image_id), image_id) {
        Some(k) => last_index(frame_names(frames), images[k as int].name@),
        None => None,
    }
}

/// The last frame of a name.
fn frame_with_name(frames: &[ImageFrame], name: &String) -> (index: Option<usize>)
    ensures
        index == last_index(frame_names(frames@), name@),
        index matches Some(i) ==> i < frames@.len(),
{
    let ghost all = frame_names(frames@);
    let mut k: usize = frames.len();
    assert(all.take(k as int) =~= all);
    while k > 0
        invariant
            all == frame_names(frames@),
            k <= frames@.len(),
            last_index(all, name@) == last_index(all.take(k as int), name@),
        decreases k,
    {
        assert(all.take(k as int).drop_last() =~= all.take(k - 1));
        if frames[k - 1].name.eq(name) {
            assert(all.take(k as int).last() == name@);
            return Some(k - 1);
        }
        assert(all.take(k as int).last() != name@);
        k = k - 1;
    }
    None
}

fn frame_for_image_id(frames: &[ImageFrame], images: &Vec<NamedImage>, image_id: u32) -> (index: Option<
    usize,
>)
    ensures
        index == frame_of_image_id(frames@, images@, image_id),
        index matches Some(i) ==> i < frames@.len(),
{
    let ghost all = Seq::new(images@.len(), |i: int| images@[i].image_id);
    let mut k: usize = images.len();
    assert(all.take(k as int) =~= all);
    while k > 0
        invariant
            all == Seq::new(images@.len(), |i: int| images@[i].image_id),
            k <= images@.len(),
            last_index(all, image_id) == last_index(all.take(k as int), image_id),
        decreases k,
    {
        assert(all.take(k as int).drop_last() =~= all.take(k - 1));
        if images[k - 1].image_id == image_id {
            assert(all.take(k as int).last() == image_id);
            return frame_with_name(frames, &images[k - 1].name);
        }
        assert(all.take(k as int).last() != image_id);
        k = k - 1;
    }
    None
}

/// Two frames that a database joins, with the identifiers of their images and
/// the position in the database.
#[derive(Debug, Clone, Copy, PartialEq, Eq, Structural)]
pub struct DatabasePair {
    pub left: usize,
    pub right: usize,
    pub left_image_id: u32,
    pub right_image_id: u32,
    pub position: usize,
}

impl Ranked for DatabasePair {
    /// Ascending by left and right frame; pairs of the same frames stay in
    /// order.
    open spec fn before(self, other: DatabasePair) -> bool {
        if self.left != other.left {
            self.left < other.left
        } else if self.right != other.right {
            self.right < other.right
        } else {
            self.position < other.position
        }
    }

    proof fn asymmetric(a: DatabasePair, b: DatabasePair) {
    }

    proof fn negatively_transitive(a: DatabasePair, b: DatabasePair, c: DatabasePair) {
    }

    fn precedes(&self, other: &DatabasePair) -> (b: bool) {
        if self.left != other.left {
            self.left < other.left
        } else if self.right != other.right {
            self.right < other.right
        } else {
            self.position < other.position
        }
    }
}

/// The frames of a pair of database images, the earlier one on the left.
pub open spec fn database_pair(
    frames: Seq<ImageFrame>,
    images: Seq<NamedImage>,
    ids: (u32, u32),
    position: int,
) -> Option<DatabasePair> {
    match (
        frame_of_image_id(frames, images, ids.0),
        frame_of_image_id(frames, images, ids.1),
    ) {
        (Some(a), Some(b)) => Some(
            if a <= b {
                DatabasePair {
                    left: a,
                    right: b,
                    left_image_id: ids.0,
                    right_image_id: ids.1,
                    position: position as usize,
                }
            } else {
                DatabasePair {
                    left: b,
                    right: a,
                    left_image_id: ids.1,
                    right_image_id: ids.0,
                    position: position as usize,
                }
            },
        ),
        _ => None,
    }
}

/// The pairs of frames that the first `k` pairs of a database join.
pub open spec fn database_pairs(
    frames: Seq<ImageFrame>,
    images: Seq<NamedImage>,
    pairs: Seq<(u32, u32)>,
    k: nat,
) -> Seq<DatabasePair>
    decreases k,
{
    if k == 0 {
        Seq::empty()
    } else {
        let rest = database_pairs(frames, images, pairs, (k - 1) as nat);
        match database_pair(frames, images, pairs[k - 1], k - 1) {
            Some(pair) => rest.push(pair),
            None => rest,
        }
    }
}

/// The pairs of frames that a database joins, in order. Pairs with an image
/// that is not among the frames are left out.
pub fn database_pairs_for_frames(
    frames: &[ImageFrame],
    images: &Vec<NamedImage>,
    pairs: &Vec<(u32, u32)>,
) -> (out: Vec<DatabasePair>)
    ensures
        is_sorting_of(out@, database_pairs(frames@, images@, pairs@, pairs@.len())),
{
    let mut out: Vec<DatabasePair> = Vec::new();
    for k in 0..pairs.len()
        invariant
            out@ == database_pairs(frames@, images@, pairs@, k as nat),
    {
        let (id1, id2): (u32, u32) = pairs[k];
        if let Some(a) = frame_for_image_id(frames, images, id1) {
            if let Some(b) = frame_for_image_id(frames, images, id2) {
                out.push(
                    if a <= b {
                        DatabasePair {
                            left: a,
                            right: b,
                            left_image_id: id1,
                            right_image_id: id2,
                            position: k,
                        }
                    } else {
                        DatabasePair {
                            left: b,
                            right: a,
                            left_image_id: id2,
                            right_image_id: id1,
                            position: k,
                        }
                    },
                );
            }
        }
    }
    sort(&mut out);
    out
}

/// Frames with the matches that a database holds for them.
#[derive(Debug, Clone)]
pub struct DatabasePairMatches {
    pub left: usize,
    pub right: usize,
    pub matches: Vec<Match>,
}

/// The identifier of a database image by its name: the last one.
pub open spec fn image_id_of_name(images: Seq<NamedImage>, name: Seq<char>) -> Option<u32> {
    match last_index(Seq::new(images.len(), |i: int| images[i].name@), name) {
        Some(k) => Some(images[k as int].image_id),
        None => None,
    }
}

pub(crate) fn id_of_name(images: &Vec<NamedImage>, name: &String) -> (id: Option<u32>)
    ensures
        id == image_id_of_name(images@, name@),
{
    let ghost all = Seq::new(images@.len(), |i: int| images@[i].name@);
    let mut k: usize = images.len();
    assert(all.take(k as int) =~= all);
    while k > 0
        invariant
            all == Seq::new(images@.len(), |i: int| images@[i].name@),
            k <= images@.len(),
            last_index(all, name@) == last_index(all.take(k as int), name@),
        decreases k,
    {
        assert(all.take(k as int).drop_last() =~= all.take(k - 1));
        if images[k - 1].name.eq(name) {
            assert(all.take(k as int).last() == name@);
            return Some(images[k - 1].image_id);
        }
        assert(all.take(k as int).last() != name@);
        k = k - 1;
    }
    None
}

/// Where the geometry of a pair is stored: under the identifiers of its images,
/// if they are in order.
pub open spec fn stored_geometry_key(
    frames: Seq<ImageFrame>,
    images: Seq<NamedImage>,
    left: usize,
    right: usize,
) -> Option<u64> {
    if left >= frames.len() || right >= frames.len() {
        None
    } else {
        match (
            image_id_of_name(images, frames[left as int].name@),
            image_id_of_name(images, frames[right as int].name@),
        ) {
            (Some(a), Some(b)) => if a > b {
                None
            } else {
                spec_pair_id(a, b)
            },
            _ => None,
        }
    }
}

pub fn stored_geometry_id(
    frames: &[ImageFrame],
    images: &Vec<NamedImage>,
    left: usize,
    right: usize,
) -> (key: Option<u64>)
    ensures
        key == stored_geometry_key(frames@, images@, left, right),
{
    if left >= frames.len() || right >= frames.len() {
        return None;
    }
    let a: Option<u32> = id_of_name(images, &frames[left].name);
    let b: Option<u32> = id_of_name(images, &frames[right].name);
    match (a, b) {
        (Some(a), Some(b)) => if a > b {
            None
        } else {
            image_pair_to_pair_id(a, b)
        },
        _ => None,
    }
}

/// How well a match fits a stored pose: its error, and the angle under which
/// its point is seen, if there is one.
#[derive(Debug, Clone, Copy, PartialEq, Eq, Structural)]
pub struct MatchFit {
    pub error: Real32,
    pub angle: Option<Real32>,
}

/// Selects the matches that fit: their features exist, they could be measured,
/// and the error is small.
pub open spec fn fits_pose(
    matches: Seq<Match>,
    left_features: nat,
    right_features: nat,
    fits: Seq<Option<MatchFit>>,
    max_error: Real32,
) -> spec_fn(int) -> bool {
    |i: int|
        matches[i].query_idx < left_features && matches[i].train_idx < right_features
            && fits[i] is Some && fits[i]->0.error.finite() && !max_error.below(fits[i]->0.error)
}

/// Selects the fitting matches that have an angle.
pub open spec fn fits_with_angle(
    q: spec_fn(int) -> bool,
    fits: Seq<Option<MatchFit>>,
) -> spec_fn(int) -> bool {
    |i: int| q(i) && fits[i]->0.angle is Some
}

/// The matches that fit a stored pose.
#[derive(Debug)]
pub struct StoredPoseSelection {
    pub inlier_matches: Vec<Match>,
    pub errors: Vec<Real32>,
    pub angles: Vec<Real32>,
}

/// Selects the matches that fit a stored pose. `None` if none does, or if too
/// few do or too few of them have an angle.
pub fn select_stored_pose_inliers(
    matches: &Vec<Match>,
    left_features: usize,
    right_features: usize,
    fits: &[Option<MatchFit>],
    config: &MapperConfig,
) -> (selection: Option<StoredPoseSelection>)
    requires
        fits@.len() == matches@.len(),
    ensures
        ({
            let q = fits_pose(
                matches@,
                left_features as nat,
                right_features as nat,
                fits@,
                config.max_reprojection_error_px,
            );
            let chosen = indices_where(matches@.len(), q);
            let angled = indices_where(matches@.len(), fits_with_angle(q, fits@));
            &&& selection is Some <==> chosen.len() > 0 && chosen.len() >= config.min_inliers
                && angled.len() >= config.min_triangulated
            &&& selection matches Some(s) ==> {
                &&& s.inlier_matches@ == matches_at(matches@, chosen)
                &&& s.errors@ == Seq::new(
                    chosen.len(),
                    |i: int| fits@[chosen[i] as int]->0.error,
                )
                &&& s.angles@ == Seq::new(
                    angled.len(),
                    |i: int| fits@[angled[i] as int]->0.angle->0,
                )
            }
        }),
{
    let max_error: Real32 = config.max_reprojection_error_px;
    let ghost q = fits_pose(
        matches@,
        left_features as nat,
        right_features as nat,
        fits@,
        max_error,
    );
    let ghost qa = fits_with_angle(q, fits@);
    let mut inlier_matches: Vec<Match> = Vec::new();
    let mut errors: Vec<Real32> = Vec::new();
    let mut angles: Vec<Real32> = Vec::new();
    for i in 0..matches.len()
        invariant
            fits@.len() == matches@.len(),
            q == fits_pose(
                matches@,
                left_features as nat,
                right_features as nat,
                fits@,
                max_error,
            ),
            qa == fits_with_angle(q, fits@),
            inlier_matches@ == matches_at(matches@, indices_where(i as nat, q)),
            errors@ == Seq::new(
                indices_where(i as nat, q).len(),
                |j: int| fits@[indices_where(i as nat, q)[j] as int]->0.error,
            ),
            angles@ == Seq::new(
                indices_where(i as nat, qa).len(),
                |j: int| fits@[indices_where(i as nat, qa)[j] as int]->0.angle->0,
            ),
    {
        let ghost before = indices_where(i as nat, q);
        let ghost before_angled = indices_where(i as nat, qa);
        let m = matches[i];
        if (m.query_idx as usize) < left_features && (m.train_idx as usize) < right_features {
            if let Some(fit) = fits[i] {
                if fit.error.is_finite() && !max_error.lt(&fit.error) {
                    if let Some(angle) = fit.angle {
                        angles.push(angle);
                    }
                    inlier_matches.push(m);
                    errors.push(fit.error);
                }
            }
        }
        proof {
            let after = indices_where((i + 1) as nat, q);
            let after_angled = indices_where((i + 1) as nat, qa);
            assert(inlier_matches@ =~= matches_at(matches@, after));
            assert(errors@ =~= Seq::new(
                after.len(),
                |j: int| fits@[after[j] as int]->0.error,
            ));
            assert(angles@ =~= Seq::new(
                after_angled.len(),
                |j: int| fits@[after_angled[j] as int]->0.angle->0,
            ));
        }
    }
    if inlier_matches.len() == 0 || angles.len() < config.min_triangulated || inlier_matches.len()
        < config.min_inliers {
        return None;
    }
    Some(StoredPoseSelection { inlier_matches, errors, angles })
}

/// How many pairs each image is in.
pub open spec fn degree_upto(pairs: Seq<PairGeometry>, k: nat, image: int) -> nat
    decreases k,
{
    if k == 0 {
        0
    } else {
        degree_upto(pairs, (k - 1) as nat, image) + (if pairs[k - 1].left == image {
            1nat
        } else {
            0
        }) + (if pairs[k - 1].right == image {
            1nat
        } else {
            0
        })
    }
}

/// 4.0
pub const HIGH_ERROR: u32 = 0x4080_0000;

/// 25.0
pub const HIGH_ROTATION: u32 = 0x41c8_0000;

/// Selects the pairs with a high error or a large rotation.
pub open spec fn has_high_error(pairs: Seq<PairGeometry>) -> spec_fn(int) -> bool {
    |i: int|
        (Real32 { bits: HIGH_ERROR }).below(pairs[i].mean_reprojection_error_px) || (Real32 {
            bits: HIGH_ROTATION,
        }).below(pairs[i].rotation_deg)
}

pub fn num_high_error_pairs(pairs: &[PairGeometry]) -> (n: usize)
    ensures
        n == count_where(pairs@.len(), has_high_error(pairs@)),
{
    let mut n: usize = 0;
    for i in 0..pairs.len()
        invariant
            n == count_where(i as nat, has_high_error(pairs@)),
            n <= i,
    {
        if (Real32 { bits: HIGH_ERROR }).lt(&pairs[i].mean_reprojection_error_px) || (Real32 {
            bits: HIGH_ROTATION,
        }).lt(&pairs[i].rotation_deg) {
            n = n + 1;
        }
    }
    n
}

/// Counts how many pairs each image is in.
pub fn pair_degrees(pairs: &[PairGeometry], num_images: usize) -> (degrees: Vec<usize>)
    requires
        2 * pairs@.len() <= usize::MAX,
        forall|k: int|
            0 <= k < pairs@.len() ==> (#[trigger] pairs@[k]).left < num_images && pairs@[k].right
                < num_images,
    ensures
        degrees@.len() == num_images,
        forall|i: int|
            0 <= i < num_images ==> #[trigger] degrees@[i] == degree_upto(
                pairs@,
                pairs@.len(),
                i,
            ),
{
    let mut degrees: Vec<usize> = Vec::new();
    for i in 0..num_images
        invariant
            degrees@.len() == i,
            forall|j: int| 0 <= j < i ==> degrees@[j] == 0,
    {
        degrees.push(0);
    }
    for k in 0..pairs.len()
        invariant
            2 * pairs@.len() <= usize::MAX,
            degrees@.len() == num_images,
            forall|k: int|
                0 <= k < pairs@.len() ==> (#[trigger] pairs@[k]).left < num_images
                    && pairs@[k].right < num_images,
            forall|i: int|
                0 <= i < num_images ==> #[trigger] degrees@[i] == degree_upto(
                    pairs@,
                    k as nat,
                    i,
                ),
    {
        let left: usize = pairs[k].left;
        let right: usize = pairs[k].right;
        proof {
            lemma_degree_bound(pairs@, k as nat, left as int);
            lemma_degree_bound(pairs@, k as nat, right as int);
        }
        degrees[left] = degrees[left] + 1;
        degrees[right] = degrees[right] + 1;
    }
    degrees
}

proof fn lemma_degree_bound(pairs: Seq<PairGeometry>, k: nat, image: int)
    ensures
        degree_upto(pairs, k, image) <= 2 * k,
    decreases k,
{
    if k > 0 {
        lemma_degree_bound(pairs, (k - 1) as nat, image);
    }
}

/// How connected the images are.
#[derive(Debug, Clone, Copy, PartialEq, Eq, Structural)]
pub struct Connectivity {
    pub isolated: usize,
    pub min_degree: usize,
    pub max_degree: usize,
}

/// Selects the images without pairs.
pub open spec fn without_pairs(degrees: Seq<usize>) -> spec_fn(int) -> bool {
    |i: int| degrees[i] == 0
}

/// How connected the images are, by the number of pairs that each is in.
pub fn connectivity(degrees: &Vec<usize>) -> (c: Connectivity)
    ensures
        c.isolated == count_where(degrees@.len(), without_pairs(degrees@)),
        degrees@.len() == 0 ==> c.min_degree == 0 && c.max_degree == 0,
        degrees@.len() > 0 ==> degrees@.contains(c.min_degree) && degrees@.contains(c.max_degree),
        forall|i: int|
            0 <= i < degrees@.len() ==> c.min_degree <= #[trigger] degrees@[i] <= c.max_degree,
{
    let mut c = Connectivity { isolated: 0, min_degree: 0, max_degree: 0 };
    for i in 0..degrees.len()
        invariant
            c.isolated == count_where(i as nat, without_pairs(degrees@)),
            c.isolated <= i,
            i == 0 ==> c.min_degree == 0 && c.max_degree == 0,
            i > 0 ==> degrees@.contains(c.min_degree) && degrees@.contains(c.max_degree),
            forall|j: int| 0 <= j < i ==> c.min_degree <= #[trigger] degrees@[j] <= c.max_degree,
    {
        let d: usize = degrees[i];
        assert(degrees@.contains(degrees@[i as int]));
        if d == 0 {
            c.isolated = c.isolated + 1;
        }
        if i == 0 || d < c.min_degree {
            c.min_degree = d;
        }
        if i == 0 || d > c.max_degree {
            c.max_degree = d;
        }
    }
    c
}

/// Which data the pairs come with.
#[derive(Debug, Clone, Copy, PartialEq, Eq, Structural)]
pub struct PairMetadata {
    pub with_f: usize,
    pub with_e: usize,
    pub with_h: usize,
    pub with_qvec: usize,
    pub with_tvec: usize,
    pub with_pose: usize,
}

/// Counts the pairs by the data they come with.
pub fn pair_metadata(pairs: &[PairGeometry]) -> (m: PairMetadata)
    ensures
        m.with_f == count_where(pairs@.len(), |i: int| pairs@[i].f_matrix is Some),
        m.with_e == count_where(pairs@.len(), |i: int| pairs@[i].e_matrix is Some),
        m.with_h == count_where(pairs@.len(), |i: int| pairs@[i].forward.h_matrix is Some),
        m.with_qvec == count_where(pairs@.len(), |i: int| pairs@[i].forward.qvec is Some),
        m.with_tvec == count_where(pairs@.len(), |i: int| pairs@[i].forward.tvec is Some),
        m.with_pose == count_where(
            pairs@.len(),
            |i: int| pairs@[i].forward.qvec is Some && pairs@[i].forward.tvec is Some,
        ),
{
    let mut m = PairMetadata {
        with_f: 0,
        with_e: 0,
        with_h: 0,
        with_qvec: 0,
        with_tvec: 0,
        with_pose: 0,
    };
    let ghost qf = |i: int| pairs@[i].f_matrix is Some;
    let ghost qe = |i: int| pairs@[i].e_matrix is Some;
    let ghost qh = |i: int| pairs@[i].forward.h_matrix is Some;
    let ghost qq = |i: int| pairs@[i].forward.qvec is Some;
    let ghost qt = |i: int| pairs@[i].forward.tvec is Some;
    let ghost qp = |i: int| pairs@[i].forward.qvec is Some && pairs@[i].forward.tvec is Some;
    for k in 0..pairs.len()
        invariant
            qf == (|i: int| pairs@[i].f_matrix is Some),
            qe == (|i: int| pairs@[i].e_matrix is Some),
            qh == (|i: int| pairs@[i].forward.h_matrix is Some),
            qq == (|i: int| pairs@[i].forward.qvec is Some),
            qt == (|i: int| pairs@[i].forward.tvec is Some),
            qp == (|i: int|
                pairs@[i].forward.qvec is Some && pairs@[i].forward.tvec is Some),
            m.with_f == count_where(k as nat, qf),
            m.with_e == count_where(k as nat, qe),
            m.with_h == count_where(k as nat, qh),
            m.with_qvec == count_where(k as nat, qq),
            m.with_tvec == count_where(k as nat, qt),
            m.with_pose == count_where(k as nat, qp),
            m.with_f <= k,
            m.with_e <= k,
            m.with_h <= k,
            m.with_qvec <= k,
            m.with_tvec <= k,
            m.with_pose <= k,
    {
        let pair = &pairs[k];
        if pair.f_matrix.is_some() {
            m.with_f = m.with_f + 1;
        }
        if pair.e_matrix.is_some() {
            m.with_e = m.with_e + 1;
        }
        if pair.forward.h_matrix.is_some() {
            m.with_h = m.with_h + 1;
        }
        if pair.forward.qvec.is_some() {
            m.with_qvec = m.with_qvec + 1;
        }
        if pair.forward.tvec.is_some() {
            m.with_tvec = m.with_tvec + 1;
        }
        if pair.forward.qvec.is_some() && pair.forward.tvec.is_some() {
            m.with_pose = m.with_pose + 1;
        }
    }
    m
}

impl Ranked for i32 {
    open spec fn before(self, other: i32) -> bool {
        self < other
    }

    proof fn asymmetric(a: i32, b: i32) {
    }

    proof fn negatively_transitive(a: i32, b: i32, c: i32) {
    }

    fn precedes(&self, other: &i32) -> (b: bool) {
        *self < *other
    }
}

/// Selects the pairs of a two-view configuration.
pub open spec fn has_config(pairs: Seq<PairGeometry>, config: i32) -> spec_fn(int) -> bool {
    |i: int| pairs[i].two_view_config == config
}

/// Whether a count is given for a configuration.
pub open spec fn lists_config(counts: Seq<(i32, usize)>, config: i32) -> bool {
    exists|a: int| 0 <= a < counts.len() && (#[trigger] counts[a]).0 == config
}

/// The two-view configurations of some pairs in ascending order, each with the
/// number of pairs that have it.
pub fn pair_config_counts(pairs: &[PairGeometry]) -> (counts: Vec<(i32, usize)>)
    ensures
        forall|a: int, b: int|
            0 <= a < b < counts@.len() ==> (#[trigger] counts@[a]).0 < (#[trigger] counts@[b]).0,
        forall|a: int|
            0 <= a < counts@.len() ==> (#[trigger] counts@[a]).1 > 0 && counts@[a].1
                == count_where(pairs@.len(), has_config(pairs@, counts@[a].0)),
        forall|i: int|
            0 <= i < pairs@.len() ==> lists_config(
                counts@,
                (#[trigger] pairs@[i]).two_view_config,
            ),
{
    let mut configs: Vec<i32> = Vec::new();
    for i in 0..pairs.len()
        invariant
            configs@ == Seq::new(i as nat, |j: int| pairs@[j].two_view_config),
    {
        configs.push(pairs[i].two_view_config);
        assert(configs@ =~= Seq::new((i + 1) as nat, |j: int| pairs@[j].two_view_config));
    }
    let ghost given = configs@;
    assert(crate::sorting::ranks_all::<i32>());
    let distinct: Vec<i32> = crate::sorting::sort_distinct(configs);
    let n: usize = pairs.len();
    let mut counts: Vec<(i32, usize)> = Vec::new();
    for a in 0..distinct.len()
        invariant
            n == pairs@.len(),
            given == Seq::new(n as nat, |j: int| pairs@[j].two_view_config),
            forall|x: i32| #[trigger] distinct@.contains(x) <==> given.contains(x),
            counts@.len() == a,
            forall|b: int| 0 <= b < a ==> (#[trigger] counts@[b]).0 == distinct@[b],
            forall|b: int|
                0 <= b < a ==> (#[trigger] counts@[b]).1 > 0 && counts@[b].1 == count_where(
                    n as nat,
                    has_config(pairs@, counts@[b].0),
                ),
    {
        let config: i32 = distinct[a];
        let ghost q = has_config(pairs@, config);
        let mut count: usize = 0;
        for i in 0..n
            invariant
                n == pairs@.len(),
                q == has_config(pairs@, config),
                count == count_where(i as nat, q),
                count <= i,
        {
            if pairs[i].two_view_config == config {
                count = count + 1;
            }
        }
        proof {
            assert(distinct@.contains(distinct@[a as int]));
            assert(given.contains(config));
            let i = choose|i: int| 0 <= i < given.len() && given[i] == config;
            assert(q(i));
            crate::indices::lemma_count_positive(n as nat, q);
        }
        counts.push((config, count));
    }
    proof {
        assert forall|a: int, b: int| 0 <= a < b < counts@.len() implies (#[trigger] counts@[a]).0
            < (#[trigger] counts@[b]).0 by {
            assert(distinct@[a].before(distinct@[b]));
        }
        assert forall|i: int| 0 <= i < pairs@.len() implies lists_config(
            counts@,
            (#[trigger] pairs@[i]).two_view_config,
        ) by {
            assert(given[i] == pairs@[i].two_view_config);
            assert(given.contains(given[i]));
            assert(distinct@.contains(given[i]));
            let a = choose|a: int| 0 <= a < distinct@.len() && distinct@[a] == given[i];
            assert(counts@[a].0 == distinct@[a]);
        }
    }
    counts
}

} // verus!
