//! The choice of seed pairs, said of inliers, focal lengths and pairs themselves.

use crate::config::MapperConfig;
use crate::indices::lemma_count_positive;
use crate::initial_pair::{
    correspondences_of, inliers_fit, inliers_upto, is_good_seed, oriented, other_end,
    rig_is_non_trivial, seed_holds, shared_correspondences, SeedContext,
};
use crate::pair_ids::law_pair_id_identifies;
use crate::pair_inversion::{inverted, PairView};
use crate::registration_units::{leads_unit, registered_units};
use crate::session::pair_tried;
use crate::sorting::Ranked;
use crate::types::{PairGeometry, ReconstructionView};
use vstd::prelude::*;

verus! {

/// Whether the focal length of an image counts as known: the flag of its camera
/// says so, or there is no flag.
pub open spec fn focal_known(r: ReconstructionView, flags: Seq<bool>, image: usize) -> bool {
    let camera = if image < r.image_camera_indices.len() {
        r.image_camera_indices[image as int] as int
    } else {
        0
    };
    camera >= flags.len() || flags[camera]
}

proof fn lemma_inliers_of_image(pairs: Seq<PairGeometry>, k: nat, image: int)
    ensures
        correspondences_of(pairs, k, image) <= 2 * inliers_upto(pairs, k),
    decreases k,
{
    if k > 0 {
        lemma_inliers_of_image(pairs, (k - 1) as nat, image);
    }
}

proof fn lemma_inliers_shared(pairs: Seq<PairGeometry>, k: nat, first: usize, image: int)
    ensures
        shared_correspondences(pairs, k, first, image) <= inliers_upto(pairs, k),
    decreases k,
{
    if k > 0 {
        lemma_inliers_shared(pairs, (k - 1) as nat, first, image);
    }
}

/// Of two candidates for the first image the one stands ahead whose focal length
/// is known. If that is said of both or of neither, the one with more inliers
/// stands ahead, and of two with as many the one of lower index.
pub proof fn law_first_images_order(c: SeedContext, images: Seq<usize>, i: int, j: int)
    requires
        inliers_fit(c.pairs),
        c.ranks_first(images),
        0 <= i < images.len(),
        0 <= j < images.len(),
    ensures
        ({
            let a = images[i];
            let b = images[j];
            let n = c.pairs.len();
            let inliers_a = correspondences_of(c.pairs, n, a as int);
            let inliers_b = correspondences_of(c.pairs, n, b as int);
            let alike = focal_known(c.r, c.flags, a) == focal_known(c.r, c.flags, b);
            &&& focal_known(c.r, c.flags, a) && !focal_known(c.r, c.flags, b) ==> i < j
            &&& alike && inliers_a > inliers_b ==> i < j
            &&& alike && inliers_a == inliers_b && a < b ==> i < j
            &&& i != j ==> a != b
        }),
{
    let a = images[i];
    let b = images[j];
    lemma_inliers_of_image(c.pairs, c.pairs.len(), a as int);
    lemma_inliers_of_image(c.pairs, c.pairs.len(), b as int);
    if i < j {
        assert(c.first_info(images[i]).before(c.first_info(images[j])));
    }
    if j < i {
        assert(c.first_info(images[j]).before(c.first_info(images[i])));
    }
}

/// Of two candidates for the second image the one stands ahead whose focal length
/// is known, then the one with more inliers shared with the first image, then the
/// one of lower index.
pub proof fn law_second_images_order(
    c: SeedContext,
    first: usize,
    images: Seq<usize>,
    i: int,
    j: int,
)
    requires
        inliers_fit(c.pairs),
        c.ranks_second(first, images),
        0 <= i < images.len(),
        0 <= j < images.len(),
    ensures
        ({
            let a = images[i];
            let b = images[j];
            let n = c.pairs.len();
            let inliers_a = shared_correspondences(c.pairs, n, first, a as int);
            let inliers_b = shared_correspondences(c.pairs, n, first, b as int);
            let alike = focal_known(c.r, c.flags, a) == focal_known(c.r, c.flags, b);
            &&& focal_known(c.r, c.flags, a) && !focal_known(c.r, c.flags, b) ==> i < j
            &&& alike && inliers_a > inliers_b ==> i < j
            &&& alike && inliers_a == inliers_b && a < b ==> i < j
            &&& i != j ==> a != b
        }),
{
    let a = images[i];
    let b = images[j];
    lemma_inliers_shared(c.pairs, c.pairs.len(), first, a as int);
    lemma_inliers_shared(c.pairs, c.pairs.len(), first, b as int);
    if i < j {
        assert(c.second_info(first, images[i]).before(c.second_info(first, images[j])));
    }
    if j < i {
        assert(c.second_info(first, images[j]).before(c.second_info(first, images[i])));
    }
}

/// Whether a pair joins two images, in either order.
pub open spec fn joins(pair: PairGeometry, a: usize, b: usize) -> bool {
    (pair.left == a && pair.right == b) || (pair.left == b && pair.right == a)
}

/// A further pair gives its inliers to both of its images and to no other. Two
/// images share the inliers of the pairs that join them.
pub proof fn law_inliers_add_up(
    pairs: Seq<PairGeometry>,
    pair: PairGeometry,
    first: usize,
    image: usize,
)
    ensures
        ({
            let more = pairs.push(pair);
            let n = pairs.len();
            let before = correspondences_of(pairs, n, image as int);
            let after = correspondences_of(more, n + 1, image as int);
            let shared_before = shared_correspondences(pairs, n, first, image as int);
            let shared_after = shared_correspondences(more, n + 1, first, image as int);
            &&& pair.left != image && pair.right != image ==> after == before
            &&& (pair.left == image) != (pair.right == image) ==> after == before + pair.inliers
            &&& pair.left == image && pair.right == image ==> after == before + 2 * pair.inliers
            &&& joins(pair, first, image) ==> shared_after == shared_before + pair.inliers
            &&& !joins(pair, first, image) ==> shared_after == shared_before
        }),
        correspondences_of(Seq::empty(), 0, image as int) == 0,
        shared_correspondences(Seq::empty(), 0, first, image as int) == 0,
{
    let more = pairs.push(pair);
    lemma_inliers_congruent(pairs, more, pairs.len(), first, image as int);
    assert(more[pairs.len() as int] == pair);
}

proof fn lemma_inliers_congruent(
    a: Seq<PairGeometry>,
    b: Seq<PairGeometry>,
    k: nat,
    first: usize,
    image: int,
)
    requires
        k <= a.len(),
        k <= b.len(),
        forall|i: int| 0 <= i < k ==> a[i] == b[i],
    ensures
        correspondences_of(a, k, image) == correspondences_of(b, k, image),
        shared_correspondences(a, k, first, image) == shared_correspondences(b, k, first, image),
    decreases k,
{
    if k > 0 {
        lemma_inliers_congruent(a, b, (k - 1) as nat, first, image);
    }
}

/// The entry of a list that may be too short.
pub open spec fn entry(counts: Seq<usize>, image: usize) -> int {
    if image < counts.len() {
        counts[image as int] as int
    } else {
        0
    }
}

/// An image can be the first of a seed just if it has inliers, trials left, and is
/// in no kept model. It can be the second just if a pair joins it with the first,
/// the two share enough inliers, and it is in no kept model.
pub proof fn law_seed_members(
    c: SeedContext,
    first: usize,
    image: usize,
    firsts: Seq<usize>,
    seconds: Seq<usize>,
)
    requires
        c.ranks_first(firsts),
        c.ranks_second(first, seconds),
    ensures
        firsts.contains(image) <==> {
            &&& image < c.r.poses.len()
            &&& correspondences_of(c.pairs, c.pairs.len(), image as int) > 0
            &&& entry(c.trials, image) < c.config.init_max_reg_trials
            &&& entry(c.registrations, image) == 0
        },
        seconds.contains(image) <==> {
            &&& image < c.r.poses.len()
            &&& exists|k: int| 0 <= k < c.pairs.len() && joins(#[trigger] c.pairs[k], first, image)
            &&& shared_correspondences(c.pairs, c.pairs.len(), first, image as int)
                >= c.config.init_min_num_inliers
            &&& entry(c.registrations, image) == 0
        },
{
    if exists|k: int| 0 <= k < c.pairs.len() && joins(#[trigger] c.pairs[k], first, image) {
        let k = choose|k: int|
            0 <= k < c.pairs.len() && joins(#[trigger] c.pairs[k], first, image);
        assert(other_end(c.pairs[k], first) == Some(image));
    }
    if c.can_be_second(first, image) {
        let k = choose|k: int|
            0 <= k < c.pairs.len() && other_end(#[trigger] c.pairs[k], first)
                == Some(image);
        assert(joins(c.pairs[k], first, image));
    }
}

/// A good seed has enough inliers and triangulated points, a triangulation angle
/// above the smallest, a forward motion below the largest, images of different
/// frames, and was verified with rigs where rigs have several sensors.
pub proof fn law_good_seeds(pair: PairView, r: ReconstructionView, config: MapperConfig)
    ensures
        pair.inliers < config.init_min_num_inliers ==> !is_good_seed(pair, r, config),
        pair.median_triangulation_angle_deg.at_most(config.init_min_tri_angle_deg)
            ==> !is_good_seed(pair, r, config),
        pair.triangulated < config.min_triangulated ==> !is_good_seed(pair, r, config),
        config.init_max_forward_motion.at_most(pair.forward.forward_motion) ==> !is_good_seed(
            pair,
            r,
            config,
        ),
        pair.median_triangulation_angle_deg.nan() || pair.forward.forward_motion.nan()
            ==> !is_good_seed(pair, r, config),
        pair.left != pair.right && r.frame_of(pair.left as int) is Some && r.frame_of(
            pair.left as int,
        ) == r.frame_of(pair.right as int) ==> !is_good_seed(pair, r, config),
        pair.two_view_config != 9 && (exists|image: int, frame: int, rig: int| #[trigger]
            has_big_rig(r, image, frame, rig) && (image == pair.left || image == pair.right))
            ==> !is_good_seed(pair, r, config),
        pair.inliers >= config.init_min_num_inliers && config.init_min_tri_angle_deg.below(
            pair.median_triangulation_angle_deg,
        ) && pair.triangulated >= config.min_triangulated && pair.forward.forward_motion.below(
            config.init_max_forward_motion,
        ) && (r.frame_of(pair.left as int) != r.frame_of(pair.right as int) || r.frame_of(
            pair.left as int,
        ) is None) && (pair.two_view_config == 9 || r.rigs.len() == 0) ==> is_good_seed(
            pair,
            r,
            config,
        ),
{
    if exists|image: int, frame: int, rig: int| #[trigger]
        has_big_rig(r, image, frame, rig) && (image == pair.left || image == pair.right) {
        let (image, frame, rig) = choose|image: int, frame: int, rig: int| #[trigger]
            has_big_rig(r, image, frame, rig) && (image == pair.left || image == pair.right);
        lemma_big_rig(r, r.frames[frame].rig_id, rig, 0);
    }
}

/// Whether `rig` is the rig of `frame`, which holds the image, and has several
/// sensors.
pub open spec fn has_big_rig(r: ReconstructionView, image: int, frame: int, rig: int) -> bool {
    &&& r.frame_of(image) == Some(frame as usize)
    &&& 0 <= frame < r.frames.len()
    &&& frame <= usize::MAX
    &&& 0 <= rig < r.rigs.len()
    &&& r.rigs[rig].rig_id == r.frames[frame].rig_id
    &&& forall|j: int| 0 <= j < rig ==> (#[trigger] r.rigs[j]).rig_id != r.frames[frame].rig_id
    &&& r.rigs[rig].sensors@.len() > 1
}

proof fn lemma_big_rig(r: ReconstructionView, rig_id: u32, rig: int, from: int)
    requires
        0 <= from <= rig < r.rigs.len(),
        r.rigs[rig].rig_id == rig_id,
        forall|j: int| 0 <= j < rig ==> (#[trigger] r.rigs[j]).rig_id != rig_id,
        r.rigs[rig].sensors@.len() > 1,
    ensures
        rig_is_non_trivial(r.rigs, rig_id, from),
    decreases rig - from,
{
    if from < rig {
        lemma_big_rig(r, rig_id, rig, from + 1);
    }
}

/// A pair is looked at as seen from the first of two images: the first pair that
/// joins them counts, turned round if it names them the other way.
pub proof fn law_oriented_pair(pairs: Seq<PairGeometry>, at: int, left: usize, right: usize)
    requires
        0 <= at < pairs.len(),
        joins(pairs[at], left, right),
        forall|j: int| 0 <= j < at ==> !joins(#[trigger] pairs[j], left, right),
    ensures
        oriented(pairs, pairs.len(), left, right) is Some,
        ({
            let pair = oriented(pairs, pairs.len(), left, right)->0;
            let from = pairs[at];
            &&& pair.left == left && pair.right == right
            &&& pair.inliers == from.inliers
            &&& pair.triangulated == from.triangulated
            &&& pair.two_view_config == from.two_view_config
            &&& pair.median_triangulation_angle_deg == from.median_triangulation_angle_deg
            &&& pair.inlier_matches.len() == from.inlier_matches@.len()
            &&& from.left == left && from.right == right ==> pair.forward == from.forward
                && pair.backward == from.backward && pair.inlier_matches == from.inlier_matches@
            &&& !(from.left == left && from.right == right) ==> pair.forward == from.backward
                && pair.backward == from.forward && forall|m: int|
                0 <= m < pair.inlier_matches.len() ==> {
                    &&& (#[trigger] pair.inlier_matches[m]).query_idx
                        == from.inlier_matches@[m].train_idx
                    &&& pair.inlier_matches[m].train_idx == from.inlier_matches@[m].query_idx
                    &&& pair.inlier_matches[m].distance == from.inlier_matches@[m].distance
                }
        }),
{
    lemma_oriented(pairs, pairs.len(), at, left, right);
}

proof fn lemma_oriented(pairs: Seq<PairGeometry>, k: nat, at: int, left: usize, right: usize)
    requires
        0 <= at < pairs.len(),
        k <= pairs.len(),
        joins(pairs[at], left, right),
        forall|j: int| 0 <= j < at ==> !joins(#[trigger] pairs[j], left, right),
    ensures
        k <= at ==> oriented(pairs, k, left, right) is None,
        k > at ==> oriented(pairs, k, left, right) == Some(
            if pairs[at].left == left && pairs[at].right == right {
                pairs[at]@
            } else {
                inverted(pairs[at]@)
            },
        ),
    decreases k,
{
    if k > 0 {
        lemma_oriented(pairs, (k - 1) as nat, at, left, right);
        if k - 1 < at {
            assert(!joins(pairs[k - 1], left, right));
        }
    }
}

/// Without a pair that joins two images there is nothing to look at.
pub proof fn law_unjoined_images(pairs: Seq<PairGeometry>, k: nat, left: usize, right: usize)
    requires
        k <= pairs.len(),
        forall|j: int| 0 <= j < k ==> !joins(#[trigger] pairs[j], left, right),
    ensures
        oriented(pairs, k, left, right) is None,
    decreases k,
{
    if k > 0 {
        law_unjoined_images(pairs, (k - 1) as nat, left, right);
        assert(!joins(pairs[k - 1], left, right));
    }
}

/// Whether a pair of images could start a reconstruction: it has an identifier
/// that was not tried, and is a good seed.
pub open spec fn is_open_seed(c: SeedContext, tried: Set<u64>, a: usize, b: usize) -> bool {
    &&& c.r.pair_id_of(a, b) is Some
    &&& !tried.contains(c.r.pair_id_of(a, b)->0)
    &&& oriented(c.pairs, c.pairs.len(), a, b) matches Some(pair) && is_good_seed(
        pair,
        c.r,
        c.config,
    )
}

/// The second image is the earliest that makes an open seed with the first, and
/// there is one as soon as any does. The pairs up to it count as tried, and no
/// others.
pub proof fn law_second_image_found(
    c: SeedContext,
    first: usize,
    images: Seq<usize>,
    k: nat,
    tried: Set<u64>,
)
    requires
        forall|i: int, j: int|
            0 <= i < j < images.len() ==> c.r.image_id_of(#[trigger] images[i] as int)
                != c.r.image_id_of(#[trigger] images[j] as int),
    ensures
        ({
            let (found, after) = c.search_second(first, images, k, tried);
            &&& found is None ==> forall|q: int|
                k <= q < images.len() ==> !is_open_seed(c, tried, first, #[trigger] images[q])
            &&& found matches Some(second) ==> exists|p: int|
                k <= p < images.len() && #[trigger] images[p] == second && is_open_seed(
                    c,
                    tried,
                    first,
                    second,
                ) && forall|q: int|
                    k <= q < p ==> !is_open_seed(c, tried, first, #[trigger] images[q])
            &&& tried.subset_of(after)
            &&& found is None ==> forall|q: int|
                k <= q < images.len() && c.r.pair_id_of(first, #[trigger] images[q]) is Some
                    ==> after.contains(c.r.pair_id_of(first, images[q])->0)
            &&& found matches Some(second) ==> after.contains(c.r.pair_id_of(first, second)->0)
        }),
    decreases images.len() - k,
{
    if k < images.len() {
        let second = images[k as int];
        let next = pair_tried(tried, c.r, first, second);
        let open = c.untried(tried, first, second) && c.accepts(first, second);
        assert(open == is_open_seed(c, tried, first, second));
        if open {
            assert(images[k as int] == second);
        } else {
            law_second_image_found(c, first, images, k + 1, next);
            assert forall|q: int| k < q < images.len() implies is_open_seed(
                c,
                tried,
                first,
                #[trigger] images[q],
            ) == is_open_seed(c, next, first, images[q]) by {
                assert(c.r.image_id_of(images[k as int] as int) != c.r.image_id_of(
                    images[q] as int,
                ));
                let ids = (c.r.pair_id_of(first, second), c.r.pair_id_of(first, images[q]));
                if ids.0 is Some && ids.1 is Some {
                    law_pair_id_identifies(
                        c.r.image_id_of(first as int),
                        c.r.image_id_of(second as int),
                        c.r.image_id_of(first as int),
                        c.r.image_id_of(images[q] as int),
                    );
                }
            }
            if c.search_second(first, images, k + 1, next).0 is Some {
                let b = c.search_second(first, images, k + 1, next).0->0;
                let p = choose|p: int|
                    k + 1 <= p < images.len() && #[trigger] images[p] == b && is_open_seed(
                        c,
                        next,
                        first,
                        b,
                    ) && forall|q: int|
                        k + 1 <= q < p ==> !is_open_seed(c, next, first, #[trigger] images[q]);
                assert(images[p] == b);
                assert(is_open_seed(c, tried, first, images[p]));
            }
        }
    }
}

/// The seed comes from the earliest first image that has one: it is an open seed,
/// and every pair of an earlier first image counts as tried. Without a seed every
/// pair of candidates counts as tried.
pub proof fn law_first_image_found(c: SeedContext, images: Seq<usize>, k: nat, tried: Set<u64>)
    requires
        forall|x: usize| c.ranks_second(x, #[trigger] c.second_images(x)),
        inliers_fit(c.pairs),
        forall|a: int, b: int|
            0 <= a < b < c.r.poses.len() ==> #[trigger] c.r.image_id_of(a)
                != #[trigger] c.r.image_id_of(b),
    ensures
        ({
            let (found, after) = c.search_first(images, k, tried);
            &&& tried.subset_of(after)
            &&& found is None ==> forall|q: int, second: usize|
                k <= q < images.len() && c.can_be_second(#[trigger] images[q], second)
                    && c.r.pair_id_of(images[q], second) is Some ==> after.contains(
                    (#[trigger] c.r.pair_id_of(images[q], second))->0,
                )
            &&& found matches Some(pair) ==> exists|p: int|
                k <= p < images.len() && pair.0 == #[trigger] images[p] && c.can_be_second(
                    pair.0,
                    pair.1,
                ) && is_open_seed(c, tried, pair.0, pair.1) && after.contains(
                    c.r.pair_id_of(pair.0, pair.1)->0,
                ) && forall|q: int, second: usize|
                    k <= q < p && c.can_be_second(#[trigger] images[q], second)
                        && c.r.pair_id_of(images[q], second) is Some ==> after.contains(
                        (#[trigger] c.r.pair_id_of(images[q], second))->0,
                    )
        }),
    decreases images.len() - k,
{
    if k < images.len() {
        let first = images[k as int];
        let seconds = c.second_images(first);
        assert(c.ranks_second(first, seconds));
        assert forall|i: int, j: int| 0 <= i < j < seconds.len() implies c.r.image_id_of(
            #[trigger] seconds[i] as int,
        ) != c.r.image_id_of(#[trigger] seconds[j] as int) by {
            law_second_images_order(c, first, seconds, i, j);
            assert(seconds.contains(seconds[i]) && seconds.contains(seconds[j]));
            if seconds[i] < seconds[j] {
                assert(c.r.image_id_of(seconds[i] as int) != c.r.image_id_of(seconds[j] as int));
            } else {
                assert(c.r.image_id_of(seconds[j] as int) != c.r.image_id_of(seconds[i] as int));
            }
        }
        law_second_image_found(c, first, seconds, 0, tried);
        let (found, after) = c.search_second(first, seconds, 0, tried);
        if found is Some {
            assert(seconds.contains(found->0));
            assert(images[k as int] == first);
        } else {
            assert forall|second: usize|
                c.can_be_second(first, second) && c.r.pair_id_of(
                    first,
                    second,
                ) is Some implies after.contains(
                (#[trigger] c.r.pair_id_of(first, second))->0,
            ) by {
                assert(seconds.contains(second));
                let q = choose|q: int| 0 <= q < seconds.len() && seconds[q] == second;
                assert(seconds[q] == second);
            }
            law_first_image_found(c, images, k + 1, after);
        }
    }
}

proof fn lemma_some_image_leads(r: ReconstructionView, image: int)
    requires
        r.registered(image),
    ensures
        exists|i: int| 0 <= i < r.poses.len() && #[trigger] leads_unit(r)(i),
    decreases image,
{
    if leads_unit(r)(image) {
        assert(0 <= image < r.poses.len());
    } else {
        let j = choose|j: int|
            0 <= j < image && #[trigger] r.registered(j) && r.same_unit(j, image);
        lemma_some_image_leads(r, j);
    }
}

/// A model built from a seed is kept just if an image is registered and it has
/// points, no fewer than the inliers that a pose needs.
pub proof fn law_seeds_that_hold(r: ReconstructionView, min_inliers: usize)
    ensures
        seed_holds(r, min_inliers) <==> {
            &&& exists|i: int| #[trigger] r.registered(i)
            &&& r.points.len() > 0
            &&& r.points.len() >= min_inliers
        },
{
    lemma_count_positive(r.poses.len(), leads_unit(r));
    if exists|i: int| #[trigger] r.registered(i) {
        lemma_some_image_leads(r, choose|i: int| #[trigger] r.registered(i));
    }
    if registered_units(r) > 0 {
        let i = choose|i: int| 0 <= i < r.poses.len() && #[trigger] leads_unit(r)(i);
        assert(r.registered(i));
    }
}

} // verus!
