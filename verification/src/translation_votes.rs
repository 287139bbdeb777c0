//! Which pairs have a say in the direction of motion between neighbors.
//!
//! The translation between neighboring images is poorly known where points are
//! seen under small angles. Neighbors and longer pairs then vote on it.

use crate::indices::indices_where;
use crate::pair_candidates::{closes_ring, is_ring_bridge_candidate};
use crate::pair_graph::{offset_of, ONE, THREE_QUARTERS};
use crate::scalar::Real32;
use crate::sorting::{is_sorting_of, sort, Ranked};
use crate::types::PairGeometry;
use vstd::prelude::*;

verus! {

/// 0.5
pub const HALF: u32 = 0x3f00_0000;

/// 8.0
pub const SETTLED_VOTE_ANGLE: u32 = 0x4100_0000;

/// 3.0
pub const SETTLED_ANCHOR_ANGLE: u32 = 0x4040_0000;

/// 18.0
pub const FAR_OUTLIER_ANGLE: u32 = 0x4190_0000;

/// 24.0
pub const MEDIUM_OUTLIER_ANGLE: u32 = 0x41c0_0000;

/// 28.0
pub const NEAR_OUTLIER_ANGLE: u32 = 0x41e0_0000;

/// Whether a pair joins an image and the next one.
pub open spec fn joins_next(pair: PairGeometry, image: int) -> bool {
    pair.left == image && pair.right == image + 1
}

/// The first pair from position `from` on that joins an image and the next one.
pub open spec fn adjacent_from(pairs: Seq<PairGeometry>, image: int, from: int) -> Option<usize>
    decreases pairs.len() - from,
{
    if from < 0 || from >= pairs.len() {
        None
    } else if joins_next(pairs[from], image) {
        Some(from as usize)
    } else {
        adjacent_from(pairs, image, from + 1)
    }
}

pub fn find_adjacent(pairs: &[PairGeometry], image: usize) -> (index: Option<usize>)
    ensures
        index == adjacent_from(pairs@, image as int, 0),
        index matches Some(i) ==> i < pairs@.len() && joins_next(pairs@[i as int], image as int),
{
    let n: usize = pairs.len();
    let mut k: usize = 0;
    while k < n
        invariant
            n == pairs@.len(),
            k <= n,
            adjacent_from(pairs@, image as int, 0) == adjacent_from(
                pairs@,
                image as int,
                k as int,
            ),
        decreases n - k,
    {
        if pairs[k].left == image && image < usize::MAX && pairs[k].right == image + 1 {
            return Some(k);
        }
        k = k + 1;
    }
    None
}

/// Who votes on a direction: the pair of an image and the next one, or a pair
/// that spans several images.
#[derive(Debug, Clone, Copy, PartialEq, Eq, Structural)]
pub enum VoteSource {
    Adjacent(usize),
    Spanning(usize),
}

/// The angle under which the first pair of an image and the next one sees its
/// points.
pub open spec fn adjacent_angle(pairs: Seq<PairGeometry>, image: int) -> Option<Real32> {
    match adjacent_from(pairs, image, 0) {
        Some(i) => Some(pairs[i as int].median_triangulation_angle_deg),
        None => None,
    }
}

/// Whether the direction from an image to the next one is known and reliable.
pub open spec fn reliable(
    pairs: Seq<PairGeometry>,
    known: Seq<bool>,
    image: int,
    least: u32,
) -> bool {
    &&& 0 <= image < known.len()
    &&& known[image]
    &&& adjacent_angle(pairs, image) is Some
    &&& (Real32 { bits: least }).at_most(adjacent_angle(pairs, image)->0)
}

/// Whether an image asks its neighbors: the pair with the next one exists and
/// sees its points under a small angle.
pub open spec fn asks_neighbors(pairs: Seq<PairGeometry>, known: Seq<bool>, image: int) -> bool {
    &&& 0 <= image < known.len()
    &&& adjacent_angle(pairs, image) is Some
    &&& !(Real32 { bits: THREE_QUARTERS }).below(adjacent_angle(pairs, image)->0)
}

/// The vote of an image on itself.
pub open spec fn own_vote(pairs: Seq<PairGeometry>, known: Seq<bool>, image: int) -> Seq<
    VoteSource,
> {
    if reliable(pairs, known, image, ONE) {
        seq![VoteSource::Adjacent(image as usize)]
    } else {
        Seq::empty()
    }
}

/// The vote of the nearest reliable one of three earlier images.
pub open spec fn earlier_vote(pairs: Seq<PairGeometry>, known: Seq<bool>, image: int) -> Seq<
    VoteSource,
> {
    if !asks_neighbors(pairs, known, image) {
        Seq::empty()
    } else if reliable(pairs, known, image - 1, THREE_QUARTERS) {
        seq![VoteSource::Adjacent((image - 1) as usize)]
    } else if reliable(pairs, known, image - 2, THREE_QUARTERS) {
        seq![VoteSource::Adjacent((image - 2) as usize)]
    } else if reliable(pairs, known, image - 3, THREE_QUARTERS) {
        seq![VoteSource::Adjacent((image - 3) as usize)]
    } else {
        Seq::empty()
    }
}

/// The vote of the nearest reliable one of three later images.
pub open spec fn later_vote(pairs: Seq<PairGeometry>, known: Seq<bool>, image: int) -> Seq<
    VoteSource,
> {
    if !asks_neighbors(pairs, known, image) {
        Seq::empty()
    } else if reliable(pairs, known, image + 1, THREE_QUARTERS) {
        seq![VoteSource::Adjacent((image + 1) as usize)]
    } else if reliable(pairs, known, image + 2, THREE_QUARTERS) {
        seq![VoteSource::Adjacent((image + 2) as usize)]
    } else if reliable(pairs, known, image + 3, THREE_QUARTERS) {
        seq![VoteSource::Adjacent((image + 3) as usize)]
    } else {
        Seq::empty()
    }
}

/// Whether a pair over two to five images votes on an image.
pub open spec fn spans(pair: PairGeometry, known: bool, image: int) -> bool {
    &&& 2 <= offset_of(pair.left, pair.right) <= 5
    &&& !pair.median_triangulation_angle_deg.below(Real32 { bits: HALF })
    &&& known
    &&& pair.left <= image < pair.right
}

/// The votes of the first `k` pairs that span an image.
pub open spec fn spanning_votes(
    pairs: Seq<PairGeometry>,
    pair_known: Seq<bool>,
    image: int,
    k: nat,
) -> Seq<VoteSource>
    decreases k,
{
    if k == 0 {
        Seq::empty()
    } else {
        let rest = spanning_votes(pairs, pair_known, image, (k - 1) as nat);
        if spans(pairs[k - 1], pair_known[k - 1], image) {
            rest.push(VoteSource::Spanning((k - 1) as usize))
        } else {
            rest
        }
    }
}

/// All votes on the direction from an image to the next one.
pub open spec fn votes_on(
    pairs: Seq<PairGeometry>,
    known: Seq<bool>,
    pair_known: Seq<bool>,
    image: int,
) -> Seq<VoteSource> {
    own_vote(pairs, known, image) + earlier_vote(pairs, known, image) + later_vote(
        pairs,
        known,
        image,
    ) + spanning_votes(pairs, pair_known, image, pairs.len())
}

fn is_reliable(pairs: &[PairGeometry], known: &[bool], image: usize, least: u32) -> (b: bool)
    ensures
        b == reliable(pairs@, known@, image as int, least),
{
    if image >= known.len() || !known[image] {
        return false;
    }
    match find_adjacent(pairs, image) {
        Some(i) => (Real32 { bits: least }).le(&pairs[i].median_triangulation_angle_deg),
        None => false,
    }
}

/// Collects the votes on the direction from an image to the next one. `known`
/// tells of each image, `pair_known` of each pair, whether it has a direction.
pub fn translation_votes(
    pairs: &[PairGeometry],
    known: &[bool],
    pair_known: &[bool],
    image: usize,
) -> (votes: Vec<VoteSource>)
    requires
        pair_known@.len() == pairs@.len(),
        image < usize::MAX - 3,
    ensures
        votes@ == votes_on(pairs@, known@, pair_known@, image as int),
{
    let ghost at = image as int;
    let mut votes: Vec<VoteSource> = Vec::new();
    if is_reliable(pairs, known, image, ONE) {
        votes.push(VoteSource::Adjacent(image));
    }
    assert(votes@ =~= own_vote(pairs@, known@, at));
    let asks: bool = image < known.len() && match find_adjacent(pairs, image) {
        Some(i) => !(Real32 { bits: THREE_QUARTERS }).lt(
            &pairs[i].median_triangulation_angle_deg,
        ),
        None => false,
    };
    assert(asks == asks_neighbors(pairs@, known@, at));
    if asks {
        if image >= 1 && is_reliable(pairs, known, image - 1, THREE_QUARTERS) {
            votes.push(VoteSource::Adjacent(image - 1));
        } else if image >= 2 && is_reliable(pairs, known, image - 2, THREE_QUARTERS) {
            votes.push(VoteSource::Adjacent(image - 2));
        } else if image >= 3 && is_reliable(pairs, known, image - 3, THREE_QUARTERS) {
            votes.push(VoteSource::Adjacent(image - 3));
        }
    }
    assert(votes@ =~= own_vote(pairs@, known@, at) + earlier_vote(pairs@, known@, at));
    if asks {
        if is_reliable(pairs, known, image + 1, THREE_QUARTERS) {
            votes.push(VoteSource::Adjacent(image + 1));
        } else if is_reliable(pairs, known, image + 2, THREE_QUARTERS) {
            votes.push(VoteSource::Adjacent(image + 2));
        } else if is_reliable(pairs, known, image + 3, THREE_QUARTERS) {
            votes.push(VoteSource::Adjacent(image + 3));
        }
    }
    let ghost near = own_vote(pairs@, known@, at) + earlier_vote(pairs@, known@, at) + later_vote(
        pairs@,
        known@,
        at,
    );
    assert(votes@ =~= near);
    assert(near + spanning_votes(pairs@, pair_known@, at, 0) =~= near);
    for k in 0..pairs.len()
        invariant
            at == image,
            pair_known@.len() == pairs@.len(),
            votes@ == near + spanning_votes(pairs@, pair_known@, at, k as nat),
    {
        let pair = &pairs[k];
        let offset: usize = if pair.left <= pair.right {
            pair.right - pair.left
        } else {
            pair.left - pair.right
        };
        if offset >= 2 && offset <= 5 && !pair.median_triangulation_angle_deg.lt(
            &Real32 { bits: HALF },
        ) && pair_known[k] && pair.left <= image && image < pair.right {
            votes.push(VoteSource::Spanning(k));
        }
        assert(votes@ =~= near + spanning_votes(pairs@, pair_known@, at, (k + 1) as nat));
    }
    votes
}

/// Whether there are enough images to vote on directions: three at least.
pub fn enough_images_to_vote(pairs: &[PairGeometry]) -> (b: bool)
    ensures
        b <==> exists|k: int|
            0 <= k < pairs@.len() && ((#[trigger] pairs@[k]).left >= 2 || pairs@[k].right >= 2),
{
    for k in 0..pairs.len()
        invariant
            forall|j: int|
                0 <= j < k ==> (#[trigger] pairs@[j]).left < 2 && pairs@[j].right < 2,
    {
        if pairs[k].left >= 2 || pairs[k].right >= 2 {
            assert(pairs@[k as int].left >= 2 || pairs@[k as int].right >= 2);
            return true;
        }
    }
    false
}

/// Whether the direction of a pair of neighbors is put to the vote: its points
/// are seen under a small angle and there are two votes at least.
pub fn takes_vote(pair: &PairGeometry, num_votes: usize) -> (b: bool)
    ensures
        b <==> joins_next(*pair, pair.left as int) && !(Real32 { bits: THREE_QUARTERS }).below(
            pair.median_triangulation_angle_deg,
        ) && num_votes >= 2,
{
    pair.left < usize::MAX && pair.left + 1 == pair.right && !(Real32 {
        bits: THREE_QUARTERS,
    }).lt(&pair.median_triangulation_angle_deg) && num_votes >= 2
}

/// Whether a pair turns to the direction that the votes give: unless the two
/// are close already.
pub fn turns_to_vote(angle: Real32) -> (b: bool)
    ensures
        b <==> !angle.below(Real32 { bits: SETTLED_VOTE_ANGLE }),
{
    !angle.lt(&Real32 { bits: SETTLED_VOTE_ANGLE })
}

/// Whether a pair of neighbors may take over the direction of a longer pair: it
/// does not start at the first image and its points are seen under a small angle.
pub fn takes_anchor(pair: &PairGeometry) -> (b: bool)
    ensures
        b <==> pair.left != 0 && joins_next(*pair, pair.left as int) && !(Real32 {
            bits: THREE_QUARTERS,
        }).below(pair.median_triangulation_angle_deg),
{
    pair.left != 0 && pair.left < usize::MAX && pair.left + 1 == pair.right && !(Real32 {
        bits: THREE_QUARTERS,
    }).lt(&pair.median_triangulation_angle_deg)
}

/// Whether a pair turns to the direction of its anchor: unless the two are close
/// already and the points of the pair are seen under a large angle.
pub fn turns_to_anchor(pair: &PairGeometry, angle: Real32) -> (b: bool)
    ensures
        b <==> !(angle.below(Real32 { bits: SETTLED_ANCHOR_ANGLE }) && (Real32 {
            bits: THREE_QUARTERS,
        }).below(pair.median_triangulation_angle_deg)),
{
    !(angle.lt(&Real32 { bits: SETTLED_ANCHOR_ANGLE }) && (Real32 { bits: THREE_QUARTERS }).lt(
        &pair.median_triangulation_angle_deg,
    ))
}

/// Whether a pair can lend its direction to a pair of neighbors: it ends at the
/// same image, starts one or two images earlier, and is accurate.
pub open spec fn can_anchor(adjacent: PairGeometry, candidate: PairGeometry) -> bool {
    &&& candidate.right == adjacent.right
    &&& 2 <= offset_of(candidate.left, candidate.right) <= 3
    &&& candidate.left < adjacent.left
    &&& (Real32 { bits: ONE }).at_most(candidate.median_triangulation_angle_deg)
    &&& candidate.mean_reprojection_error_px.at_most(Real32 { bits: ONE })
    &&& candidate.inliers >= 60
}

fn anchors(adjacent: &PairGeometry, candidate: &PairGeometry) -> (b: bool)
    ensures
        b == can_anchor(*adjacent, *candidate),
{
    let offset: usize = if candidate.left <= candidate.right {
        candidate.right - candidate.left
    } else {
        candidate.left - candidate.right
    };
    candidate.right == adjacent.right && offset >= 2 && offset <= 3 && candidate.left
        < adjacent.left && (Real32 { bits: ONE }).le(&candidate.median_triangulation_angle_deg)
        && candidate.mean_reprojection_error_px.le(&Real32 { bits: ONE }) && candidate.inliers
        >= 60
}

/// Whether a pair is the last one with the highest score among the first `k`
/// that can lend their direction.
pub open spec fn is_best_anchor(
    adjacent: PairGeometry,
    pairs: Seq<PairGeometry>,
    scores: Seq<Real32>,
    k: int,
    best: int,
) -> bool {
    &&& 0 <= best < k
    &&& can_anchor(adjacent, pairs[best])
    &&& forall|j: int|
        0 <= j < k && can_anchor(adjacent, #[trigger] pairs[j]) ==> scores[j].at_most(
            scores[best],
        ) && (j > best ==> scores[j].below(scores[best]))
}

/// The pair that lends its direction to a pair of neighbors: the one with the
/// highest score, the last one among equals.
pub fn best_local_translation_anchor(
    adjacent: &PairGeometry,
    pairs: &[PairGeometry],
    scores: &[Real32],
) -> (best: Option<usize>)
    requires
        scores@.len() == pairs@.len(),
        forall|i: int| 0 <= i < scores@.len() ==> !(#[trigger] scores@[i]).nan(),
    ensures
        match best {
            Some(b) => is_best_anchor(
                *adjacent,
                pairs@,
                scores@,
                pairs@.len() as int,
                b as int,
            ),
            None => forall|j: int|
                0 <= j < pairs@.len() ==> !can_anchor(*adjacent, #[trigger] pairs@[j]),
        },
{
    let mut best: Option<usize> = None;
    for k in 0..pairs.len()
        invariant
            scores@.len() == pairs@.len(),
            forall|i: int| 0 <= i < scores@.len() ==> !(#[trigger] scores@[i]).nan(),
            match best {
                Some(b) => is_best_anchor(*adjacent, pairs@, scores@, k as int, b as int),
                None => forall|j: int|
                    0 <= j < k ==> !can_anchor(*adjacent, #[trigger] pairs@[j]),
            },
    {
        assert(!scores@[k as int].nan());
        if anchors(adjacent, &pairs[k]) {
            let better: bool = match best {
                Some(b) => !scores[k].lt(&scores[b]),
                None => true,
            };
            if better {
                best = Some(k);
            }
        }
    }
    best
}

/// A pair of neighbors.
#[derive(Debug, Clone, Copy, PartialEq, Eq, Structural)]
pub struct NeighborPair {
    pub left: usize,
    pub index: usize,
}

impl Ranked for NeighborPair {
    /// Ascending by left image, then by position.
    open spec fn before(self, other: NeighborPair) -> bool {
        if self.left != other.left {
            self.left < other.left
        } else {
            self.index < other.index
        }
    }

    proof fn asymmetric(a: NeighborPair, b: NeighborPair) {
    }

    proof fn negatively_transitive(a: NeighborPair, b: NeighborPair, c: NeighborPair) {
    }

    fn precedes(&self, other: &NeighborPair) -> (b: bool) {
        if self.left != other.left {
            self.left < other.left
        } else {
            self.index < other.index
        }
    }
}

/// Selects the pairs of neighbors.
pub open spec fn joins_neighbors(pairs: Seq<PairGeometry>) -> spec_fn(int) -> bool {
    |i: int| joins_next(pairs[i], pairs[i].left as int)
}

pub open spec fn neighbor_pairs(pairs: Seq<PairGeometry>, k: nat) -> Seq<NeighborPair> {
    let chosen = indices_where(k, joins_neighbors(pairs));
    Seq::new(
        chosen.len(),
        |i: int| NeighborPair { left: pairs[chosen[i] as int].left, index: chosen[i] },
    )
}

/// The pairs of neighbors in the order in which the camera moved.
pub fn neighbors_in_order(pairs: &[PairGeometry]) -> (out: Vec<NeighborPair>)
    ensures
        is_sorting_of(out@, neighbor_pairs(pairs@, pairs@.len())),
{
    let mut out: Vec<NeighborPair> = Vec::new();
    for i in 0..pairs.len()
        invariant
            out@ == neighbor_pairs(pairs@, i as nat),
    {
        if pairs[i].left < usize::MAX && pairs[i].right == pairs[i].left + 1 {
            out.push(NeighborPair { left: pairs[i].left, index: i });
        }
        assert(out@ =~= neighbor_pairs(pairs@, (i + 1) as nat));
    }
    sort(&mut out);
    out
}

/// The largest angle between the direction of a pair and that of the images it
/// spans. Pairs of neighbors and pairs that close a turn may point anywhere.
pub open spec fn outlier_angle(pair: PairGeometry) -> Option<Real32> {
    let offset = offset_of(pair.left, pair.right);
    if offset <= 1 || closes_ring(pair.left, pair.right) {
        None
    } else if offset <= 2 {
        Some(Real32 { bits: NEAR_OUTLIER_ANGLE })
    } else if offset <= 4 {
        Some(Real32 { bits: MEDIUM_OUTLIER_ANGLE })
    } else {
        Some(Real32 { bits: FAR_OUTLIER_ANGLE })
    }
}

/// Whether a pair is kept. One without a direction is not; one that spans
/// images without a common direction is.
pub fn keeps_translation(
    pair: &PairGeometry,
    has_direction: bool,
    angle_to_spanned: Option<Real32>,
) -> (b: bool)
    ensures
        b == (match outlier_angle(*pair) {
            None => true,
            Some(limit) => has_direction && match angle_to_spanned {
                Some(angle) => angle.at_most(limit),
                None => true,
            },
        }),
{
    let offset: usize = if pair.left <= pair.right {
        pair.right - pair.left
    } else {
        pair.left - pair.right
    };
    if offset <= 1 || is_ring_bridge_candidate(pair.left, pair.right) {
        return true;
    }
    if !has_direction {
        return false;
    }
    let limit = if offset <= 2 {
        Real32 { bits: NEAR_OUTLIER_ANGLE }
    } else if offset <= 4 {
        Real32 { bits: MEDIUM_OUTLIER_ANGLE }
    } else {
        Real32 { bits: FAR_OUTLIER_ANGLE }
    };
    match angle_to_spanned {
        Some(angle) => angle.le(&limit),
        None => true,
    }
}

} // verus!
