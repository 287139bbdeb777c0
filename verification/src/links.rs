//! Correspondences between features of different images, as directed links.
//!
//! Each inlier match of a verified pair links a feature of the left image to
//! one of the right image and back. All observation statistics are counts of
//! such links.

use crate::indices::{count_where, lemma_count_bound, lemma_where_congruent};
use crate::types::{ImageFrame, Match, PairGeometry, ReconstructionView};
use vstd::prelude::*;

verus! {

/// A feature together with a feature of another image that it matches.
#[derive(Clone, Copy, Debug, PartialEq, Eq, Structural)]
pub struct Link {
    pub image: usize,
    pub feature: usize,
    pub other_image: usize,
    pub other_feature: usize,
}

/// The link of a match from the left to the right image.
pub open spec fn forward_link(pair: PairGeometry, m: Match) -> Link {
    Link {
        image: pair.left,
        feature: m.query_idx as usize,
        other_image: pair.right,
        other_feature: m.train_idx as usize,
    }
}

pub open spec fn backward_link(pair: PairGeometry, m: Match) -> Link {
    Link {
        image: pair.right,
        feature: m.train_idx as usize,
        other_image: pair.left,
        other_feature: m.query_idx as usize,
    }
}

pub open spec fn has_feature(frames: Seq<ImageFrame>, image: int, feature: int) -> bool {
    0 <= image < frames.len() && 0 <= feature < frames[image].keypoints@.len()
}

/// Whether both features of a link exist.
pub open spec fn link_in_bounds(frames: Seq<ImageFrame>, link: Link) -> bool {
    &&& has_feature(frames, link.image as int, link.feature as int)
    &&& has_feature(frames, link.other_image as int, link.other_feature as int)
}

/// The links of the first `k` inlier matches of a pair; matches that name a
/// missing feature have none.
pub open spec fn pair_links(frames: Seq<ImageFrame>, pair: PairGeometry, k: nat) -> Seq<Link>
    decreases k,
{
    if k == 0 {
        Seq::empty()
    } else {
        let rest = pair_links(frames, pair, (k - 1) as nat);
        let m = pair.inlier_matches@[k - 1];
        if link_in_bounds(frames, forward_link(pair, m)) {
            rest.push(forward_link(pair, m)).push(backward_link(pair, m))
        } else {
            rest
        }
    }
}

/// The links of the first `k` pairs.
pub open spec fn links_upto(
    frames: Seq<ImageFrame>,
    pairs: Seq<PairGeometry>,
    k: nat,
) -> Seq<Link>
    decreases k,
{
    if k == 0 {
        Seq::empty()
    } else {
        links_upto(frames, pairs, (k - 1) as nat) + pair_links(
            frames,
            pairs[k - 1],
            pairs[k - 1].inlier_matches@.len(),
        )
    }
}

/// All links between features of `frames`.
pub open spec fn all_links(frames: Seq<ImageFrame>, pairs: Seq<PairGeometry>) -> Seq<Link> {
    links_upto(frames, pairs, pairs.len())
}

/// How many inlier matches the first `k` pairs hold together.
pub open spec fn matches_upto(pairs: Seq<PairGeometry>, k: nat) -> nat
    decreases k,
{
    if k == 0 {
        0
    } else {
        matches_upto(pairs, (k - 1) as nat) + pairs[k - 1].inlier_matches@.len()
    }
}

/// Whether the number of links fits the counters.
pub open spec fn links_fit(pairs: Seq<PairGeometry>) -> bool {
    2 * matches_upto(pairs, pairs.len()) <= usize::MAX
}

/// Lifts a predicate on links to the positions of a sequence.
pub open spec fn at_links(links: Seq<Link>, q: spec_fn(Link) -> bool) -> spec_fn(int) -> bool {
    |k: int| q(links[k])
}

/// How many links satisfy `q`.
pub open spec fn count_links(links: Seq<Link>, q: spec_fn(Link) -> bool) -> nat {
    count_where(links.len(), at_links(links, q))
}

pub open spec fn from_image(image: int) -> spec_fn(Link) -> bool {
    |l: Link| l.image == image
}

pub open spec fn from_feature(image: int, feature: int) -> spec_fn(Link) -> bool {
    |l: Link| l.image == image && l.feature == feature
}

/// Links of an image to a registered one.
pub open spec fn to_registered(r: ReconstructionView, image: int) -> spec_fn(Link) -> bool {
    |l: Link| l.image == image && r.registered(l.other_image as int)
}

/// Links of a feature to one that observes a point in a registered image.
pub open spec fn to_point(r: ReconstructionView, image: int, feature: int) -> spec_fn(
    Link,
) -> bool {
    |l: Link|
        l.image == image && l.feature == feature && r.registered(l.other_image as int)
            && r.observed(l.other_image as int, l.other_feature as int) is Some
}

pub proof fn lemma_count_links_push(links: Seq<Link>, l: Link, q: spec_fn(Link) -> bool)
    ensures
        count_links(links.push(l), q) == count_links(links, q) + (if q(l) {
            1nat
        } else {
            0nat
        }),
        count_links(links, q) <= links.len(),
{
    let after = at_links(links.push(l), q);
    let before = at_links(links, q);
    assert forall|k: int| 0 <= k < links.len() implies #[trigger] after(k) == before(k) by {
        assert(links.push(l)[k] == links[k]);
    }
    lemma_where_congruent(links.len(), after, before);
    assert(after(links.len() as int) == q(l));
    lemma_count_bound(links.len(), before);
}

/// The links of a prefix of the pairs are at most two per match.
pub proof fn lemma_links_upto_len(frames: Seq<ImageFrame>, pairs: Seq<PairGeometry>, k: nat)
    ensures
        links_upto(frames, pairs, k).len() <= 2 * matches_upto(pairs, k),
    decreases k,
{
    if k > 0 {
        lemma_links_upto_len(frames, pairs, (k - 1) as nat);
        lemma_pair_links_len(frames, pairs[k - 1], pairs[k - 1].inlier_matches@.len());
    }
}

pub proof fn lemma_pair_links_len(frames: Seq<ImageFrame>, pair: PairGeometry, k: nat)
    ensures
        pair_links(frames, pair, k).len() <= 2 * k,
    decreases k,
{
    if k > 0 {
        lemma_pair_links_len(frames, pair, (k - 1) as nat);
    }
}

pub proof fn lemma_matches_monotone(pairs: Seq<PairGeometry>, j: nat, k: nat)
    requires
        j <= k,
    ensures
        matches_upto(pairs, j) <= matches_upto(pairs, k),
    decreases k,
{
    if j < k {
        lemma_matches_monotone(pairs, j, (k - 1) as nat);
    }
}

/// A pair that names a missing image has no links.
pub proof fn lemma_pair_links_outside(frames: Seq<ImageFrame>, pair: PairGeometry, k: nat)
    requires
        pair.left >= frames.len() || pair.right >= frames.len(),
    ensures
        pair_links(frames, pair, k) == Seq::<Link>::empty(),
    decreases k,
{
    if k > 0 {
        lemma_pair_links_outside(frames, pair, (k - 1) as nat);
    }
}

} // verus!
