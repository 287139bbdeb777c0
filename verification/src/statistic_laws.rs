//! What holds of observation statistics, however they came about.

use crate::indices::{
    count_where, lemma_count_bound, lemma_count_monotone, lemma_count_turned_on,
    lemma_where_congruent,
};
use crate::links::{
    all_links, at_links, backward_link, count_links, forward_link, from_feature, from_image,
    lemma_count_links_push, link_in_bounds, links_upto, pair_links, to_point, to_registered, Link,
};
use crate::observation_laws::{
    lemma_deleted_prefix, lemma_pair_stats_ignore_positions, table_fits,
};
use crate::observation_manager::{
    deregistered, linked, observations_deleted, observing_features, pair_stats_upto, points_fit,
    sees_point, stat_counts, triangulated, with_pose, Edited, ObservationManager,
};
use crate::pair_inversion::{inverted, swapped_matches};
use crate::types::{ImageFrame, PairGeometry, Pose, ReconstructionView};
use crate::visibility::{law_visibility_monotone, law_visibility_range, visibility_score};
use vstd::prelude::*;

verus! {

/// Whether two pairs have the same images and inlier matches.
pub open spec fn alike(pair: PairGeometry, other: PairGeometry) -> bool {
    &&& other.left == pair.left
    &&& other.right == pair.right
    &&& other.inlier_matches@.len() == pair.inlier_matches@.len()
    &&& forall|j: int|
        0 <= j < pair.inlier_matches@.len() ==> {
            &&& (#[trigger] other.inlier_matches@[j]).query_idx == pair.inlier_matches@[j].query_idx
            &&& other.inlier_matches@[j].train_idx == pair.inlier_matches@[j].train_idx
        }
}

/// Whether two pairs have the same images and inlier matches, seen from the other
/// image.
pub open spec fn opposed(pair: PairGeometry, other: PairGeometry) -> bool {
    &&& other.left == pair.right
    &&& other.right == pair.left
    &&& other.inlier_matches@.len() == pair.inlier_matches@.len()
    &&& forall|j: int|
        0 <= j < pair.inlier_matches@.len() ==> {
            &&& (#[trigger] other.inlier_matches@[j]).query_idx == pair.inlier_matches@[j].train_idx
            &&& other.inlier_matches@[j].train_idx == pair.inlier_matches@[j].query_idx
        }
}

/// Whether two lists of pairs hold the same images and inlier matches, up to the
/// side from which each pair is seen.
pub open spec fn turned(pairs: Seq<PairGeometry>, others: Seq<PairGeometry>) -> bool {
    &&& others.len() == pairs.len()
    &&& forall|k: int|
        0 <= k < pairs.len() ==> alike(pairs[k], #[trigger] others[k]) || opposed(
            pairs[k],
            others[k],
        )
}

/// Inverting a pair turns it round.
pub proof fn law_inversion_turns(pair: PairGeometry, other: PairGeometry)
    requires
        other@ == inverted(pair@),
    ensures
        opposed(pair, other),
{
    let swapped = swapped_matches(pair.inlier_matches@);
    assert(other@.inlier_matches == swapped);
    assert forall|j: int| 0 <= j < pair.inlier_matches@.len() implies {
        &&& (#[trigger] other.inlier_matches@[j]).query_idx == pair.inlier_matches@[j].train_idx
        &&& other.inlier_matches@[j].train_idx == pair.inlier_matches@[j].query_idx
    } by {
        assert(other.inlier_matches@[j] == swapped[j]);
    }
}

proof fn lemma_count_links_add(a: Seq<Link>, b: Seq<Link>, q: spec_fn(Link) -> bool)
    ensures
        count_links(a + b, q) == count_links(a, q) + count_links(b, q),
    decreases b.len(),
{
    if b.len() == 0 {
        assert(a + b =~= a);
    } else {
        let rest = b.drop_last();
        lemma_count_links_add(a, rest, q);
        assert(a + b =~= (a + rest).push(b.last()));
        assert(b =~= rest.push(b.last()));
        lemma_count_links_push(a + rest, b.last(), q);
        lemma_count_links_push(rest, b.last(), q);
    }
}

/// A pair has the same links, from whichever image it is seen.
proof fn lemma_turned_pair(
    frames: Seq<ImageFrame>,
    pair: PairGeometry,
    other: PairGeometry,
    k: nat,
    q: spec_fn(Link) -> bool,
)
    requires
        alike(pair, other) || opposed(pair, other),
        k <= pair.inlier_matches@.len(),
    ensures
        count_links(pair_links(frames, other, k), q) == count_links(
            pair_links(frames, pair, k),
            q,
        ),
    decreases k,
{
    if k > 0 {
        let m = pair.inlier_matches@[k - 1];
        let n = other.inlier_matches@[k - 1];
        lemma_turned_pair(frames, pair, other, (k - 1) as nat, q);
        let ours = pair_links(frames, pair, (k - 1) as nat);
        let theirs = pair_links(frames, other, (k - 1) as nat);
        lemma_count_links_push(ours, forward_link(pair, m), q);
        lemma_count_links_push(ours.push(forward_link(pair, m)), backward_link(pair, m), q);
        lemma_count_links_push(theirs, forward_link(other, n), q);
        lemma_count_links_push(theirs.push(forward_link(other, n)), backward_link(other, n), q);
    }
}

proof fn lemma_turned_links(
    frames: Seq<ImageFrame>,
    pairs: Seq<PairGeometry>,
    others: Seq<PairGeometry>,
    k: nat,
    q: spec_fn(Link) -> bool,
)
    requires
        turned(pairs, others),
        k <= pairs.len(),
    ensures
        count_links(links_upto(frames, others, k), q) == count_links(
            links_upto(frames, pairs, k),
            q,
        ),
    decreases k,
{
    if k > 0 {
        let pair = pairs[k - 1];
        let other = others[k - 1];
        let n = pair.inlier_matches@.len();
        lemma_turned_links(frames, pairs, others, (k - 1) as nat, q);
        assert(alike(pair, others[k - 1]) || opposed(pair, others[k - 1]));
        lemma_turned_pair(frames, pair, other, n, q);
        lemma_count_links_add(
            links_upto(frames, pairs, (k - 1) as nat),
            pair_links(frames, pair, n),
            q,
        );
        lemma_count_links_add(
            links_upto(frames, others, (k - 1) as nat),
            pair_links(frames, other, n),
            q,
        );
    }
}

proof fn lemma_turned_pair_stats(
    frames: Seq<ImageFrame>,
    pairs: Seq<PairGeometry>,
    others: Seq<PairGeometry>,
    r: ReconstructionView,
    k: nat,
)
    requires
        turned(pairs, others),
        k <= pairs.len(),
    ensures
        pair_stats_upto(frames, others, r, k) == pair_stats_upto(frames, pairs, r, k),
    decreases k,
{
    if k > 0 {
        let pair = pairs[k - 1];
        let other = others[k - 1];
        let n = pair.inlier_matches@.len();
        lemma_turned_pair_stats(frames, pairs, others, r, (k - 1) as nat);
        assert(alike(pair, others[k - 1]) || opposed(pair, others[k - 1]));
        let p = triangulated(frames, pair, r);
        let q = triangulated(frames, other, r);
        assert forall|j: int| 0 <= j < n implies #[trigger] p(j) == q(j) by {
            let a = pair.inlier_matches@[j];
            let b = other.inlier_matches@[j];
            assert((b.query_idx == a.query_idx && b.train_idx == a.train_idx) || (b.query_idx
                == a.train_idx && b.train_idx == a.query_idx));
        }
        lemma_where_congruent(n, p, q);
    }
}

/// Of a pair only the images and the inlier matches matter, and not from which
/// of the images it is seen: the statistics stay those of the reconstruction
/// when pairs are turned round or differ in anything else.
pub proof fn law_turned_pairs_keep_statistics(
    manager: ObservationManager,
    frames: Seq<ImageFrame>,
    pairs: Seq<PairGeometry>,
    others: Seq<PairGeometry>,
    r: ReconstructionView,
)
    requires
        manager.reflects(frames, pairs, r),
        turned(pairs, others),
    ensures
        manager.reflects(frames, others, r),
{
    let ours = all_links(frames, pairs);
    let theirs = all_links(frames, others);
    assert forall|q: spec_fn(Link) -> bool| #[trigger] count_links(theirs, q) == count_links(
        ours,
        q,
    ) by {
        lemma_turned_links(frames, pairs, others, pairs.len(), q);
    }
    assert forall|i: int| #[trigger] linked(theirs, i) == linked(ours, i) by {
        assert(linked(theirs, i) =~= linked(ours, i));
    }
    assert forall|i: int| #[trigger] sees_point(theirs, r, i) == sees_point(ours, r, i) by {
        assert(sees_point(theirs, r, i) =~= sees_point(ours, r, i));
    }
    assert forall|i: int| 0 <= i < frames.len() implies {
        &&& stat_counts(#[trigger] manager.image_stats()[i], frames, theirs, r, i)
        &&& manager.image_stats()[i].point3d_visibility_score == visibility_score(
            frames[i],
            sees_point(theirs, r, i),
        )
    } by {
        assert(stat_counts(manager.image_stats()[i], frames, ours, r, i));
        assert(linked(theirs, i) == linked(ours, i));
        assert(sees_point(theirs, r, i) == sees_point(ours, r, i));
    }
    lemma_turned_pair_stats(frames, pairs, others, r, pairs.len());
}

proof fn lemma_count_links_monotone(
    links: Seq<Link>,
    p: spec_fn(Link) -> bool,
    q: spec_fn(Link) -> bool,
)
    requires
        forall|l: Link| #[trigger] p(l) ==> q(l),
    ensures
        count_links(links, p) <= count_links(links, q),
{
    assert forall|k: int| 0 <= k < links.len() && #[trigger] at_links(links, p)(k) implies at_links(
        links,
        q,
    )(k) by {
        assert(p(links[k]));
    }
    lemma_count_monotone(links.len(), at_links(links, p), at_links(links, q));
}

/// The correspondences of the first `n` images together.
pub open spec fn correspondences_upto(manager: ObservationManager, n: nat) -> nat
    decreases n,
{
    if n == 0 {
        0
    } else {
        correspondences_upto(manager, (n - 1) as nat) + manager.image_stats()[n
            - 1].num_correspondences as nat
    }
}

/// Selects the inlier matches of a pair whose features exist.
pub open spec fn counted_match(frames: Seq<ImageFrame>, pair: PairGeometry) -> spec_fn(int) -> bool {
    |j: int| link_in_bounds(frames, forward_link(pair, pair.inlier_matches@[j]))
}

/// How many inlier matches of the first `k` pairs join features that exist.
pub open spec fn counted_matches(
    frames: Seq<ImageFrame>,
    pairs: Seq<PairGeometry>,
    k: nat,
) -> nat
    decreases k,
{
    if k == 0 {
        0
    } else {
        counted_matches(frames, pairs, (k - 1) as nat) + count_where(
            pairs[k - 1].inlier_matches@.len(),
            counted_match(frames, pairs[k - 1]),
        )
    }
}

proof fn lemma_pair_links_counted(frames: Seq<ImageFrame>, pair: PairGeometry, k: nat)
    ensures
        pair_links(frames, pair, k).len() == 2 * count_where(k, counted_match(frames, pair)),
        forall|j: int|
            0 <= j < pair_links(frames, pair, k).len() ==> (#[trigger] pair_links(
                frames,
                pair,
                k,
            )[j]).image < frames.len(),
    decreases k,
{
    if k > 0 {
        lemma_pair_links_counted(frames, pair, (k - 1) as nat);
    }
}

proof fn lemma_links_counted(frames: Seq<ImageFrame>, pairs: Seq<PairGeometry>, k: nat)
    ensures
        links_upto(frames, pairs, k).len() == 2 * counted_matches(frames, pairs, k),
        forall|j: int|
            0 <= j < links_upto(frames, pairs, k).len() ==> (#[trigger] links_upto(
                frames,
                pairs,
                k,
            )[j]).image < frames.len(),
    decreases k,
{
    if k > 0 {
        let m = (k - 1) as nat;
        let pair = pairs[k - 1];
        let n = pair.inlier_matches@.len();
        lemma_links_counted(frames, pairs, m);
        lemma_pair_links_counted(frames, pair, n);
        let front = links_upto(frames, pairs, m);
        let back = pair_links(frames, pair, n);
        let all = links_upto(frames, pairs, k);
        assert forall|j: int| 0 <= j < all.len() implies (#[trigger] all[j]).image < frames.len() by {
            if j < front.len() {
                assert(all[j] == front[j]);
            } else {
                assert(all[j] == back[j - front.len()]);
            }
        }
    }
}

/// How many links leave the first `n` images.
spec fn leaving_upto(links: Seq<Link>, n: nat) -> nat
    decreases n,
{
    if n == 0 {
        0
    } else {
        leaving_upto(links, (n - 1) as nat) + count_links(links, from_image(n - 1))
    }
}

proof fn lemma_leaving_push(links: Seq<Link>, link: Link, n: nat)
    ensures
        leaving_upto(links.push(link), n) == leaving_upto(links, n) + (if link.image < n {
            1nat
        } else {
            0nat
        }),
    decreases n,
{
    if n > 0 {
        lemma_leaving_push(links, link, (n - 1) as nat);
        lemma_count_links_push(links, link, from_image(n - 1));
    }
}

proof fn lemma_leaving_nothing(n: nat)
    ensures
        leaving_upto(Seq::empty(), n) == 0,
    decreases n,
{
    if n > 0 {
        lemma_leaving_nothing((n - 1) as nat);
        assert(count_links(Seq::empty(), from_image(n - 1)) == 0);
    }
}

proof fn lemma_leaving_all(links: Seq<Link>, n: nat)
    requires
        forall|j: int| 0 <= j < links.len() ==> (#[trigger] links[j]).image < n,
    ensures
        leaving_upto(links, n) == links.len(),
    decreases links.len(),
{
    if links.len() == 0 {
        assert(links =~= Seq::<Link>::empty());
        lemma_leaving_nothing(n);
    } else {
        let rest = links.drop_last();
        assert forall|j: int| 0 <= j < rest.len() implies (#[trigger] rest[j]).image < n by {
            assert(rest[j] == links[j]);
        }
        lemma_leaving_all(rest, n);
        lemma_leaving_push(rest, links.last(), n);
        assert(links =~= rest.push(links.last()));
        assert(links[links.len() - 1].image < n);
    }
}

proof fn lemma_correspondences_leave(
    manager: ObservationManager,
    frames: Seq<ImageFrame>,
    pairs: Seq<PairGeometry>,
    r: ReconstructionView,
    n: nat,
)
    requires
        manager.reflects(frames, pairs, r),
        n <= frames.len(),
    ensures
        correspondences_upto(manager, n) == leaving_upto(all_links(frames, pairs), n),
    decreases n,
{
    if n > 0 {
        lemma_correspondences_leave(manager, frames, pairs, r, (n - 1) as nat);
        assert(stat_counts(
            manager.image_stats()[n - 1],
            frames,
            all_links(frames, pairs),
            r,
            n - 1,
        ));
    }
}

/// Each inlier match whose features exist is a correspondence of both its
/// images: the correspondences of all images add up to the number of links,
/// which is twice the number of such matches.
pub proof fn law_correspondences_add_up(
    manager: ObservationManager,
    frames: Seq<ImageFrame>,
    pairs: Seq<PairGeometry>,
    r: ReconstructionView,
)
    requires
        manager.reflects(frames, pairs, r),
    ensures
        correspondences_upto(manager, frames.len()) == all_links(frames, pairs).len(),
        all_links(frames, pairs).len() == 2 * counted_matches(frames, pairs, pairs.len()),
{
    lemma_links_counted(frames, pairs, pairs.len());
    lemma_leaving_all(all_links(frames, pairs), frames.len());
    lemma_correspondences_leave(manager, frames, pairs, r, frames.len());
}

/// Selects the features with a link of their kind.
spec fn reached(links: Seq<Link>, kind: spec_fn(int) -> spec_fn(Link) -> bool) -> spec_fn(
    int,
) -> bool {
    |f: int| count_links(links, kind(f)) > 0
}

/// Each feature reached takes a link of its own.
proof fn lemma_reached(
    n: nat,
    links: Seq<Link>,
    kind: spec_fn(int) -> spec_fn(Link) -> bool,
    q: spec_fn(Link) -> bool,
)
    requires
        forall|f: int, l: Link| #[trigger] kind(f)(l) ==> l.feature == f && q(l),
    ensures
        count_where(n, reached(links, kind)) <= count_links(links, q),
    decreases links.len(),
{
    if links.len() == 0 {
        lemma_nothing_reached(n, links, kind);
    } else {
        let rest = links.drop_last();
        let last = links.last();
        let before = reached(rest, kind);
        let after = reached(links, kind);
        let f = last.feature as int;
        lemma_reached(n, rest, kind, q);
        assert(links =~= rest.push(last));
        lemma_count_links_push(rest, last, q);
        assert forall|g: int| g != f implies #[trigger] before(g) == after(g) by {
            lemma_count_links_push(rest, last, kind(g));
        }
        lemma_count_links_push(rest, last, kind(f));
        if 0 <= f < n && !before(f) && after(f) {
            lemma_count_turned_on(n, before, after, f);
        } else {
            assert forall|g: int| 0 <= g < n implies #[trigger] before(g) == after(g) by {}
            lemma_where_congruent(n, before, after);
        }
    }
}

proof fn lemma_nothing_reached(
    n: nat,
    links: Seq<Link>,
    kind: spec_fn(int) -> spec_fn(Link) -> bool,
)
    requires
        links.len() == 0,
    ensures
        count_where(n, reached(links, kind)) == 0,
    decreases n,
{
    if n > 0 {
        lemma_nothing_reached((n - 1) as nat, links, kind);
    }
}

/// The counts of an image bound each other. Features that see a point are among
/// those with a correspondence, which are among the features of the image.
/// Correspondences to registered images are among all correspondences. There is
/// a correspondence for each feature that has one. The visibility score is zero
/// just if no feature sees a point, or the image has no size.
pub proof fn law_counts_of_an_image(
    manager: ObservationManager,
    frames: Seq<ImageFrame>,
    pairs: Seq<PairGeometry>,
    r: ReconstructionView,
    image: int,
)
    requires
        manager.reflects(frames, pairs, r),
        0 <= image < frames.len(),
    ensures
        ({
            let stat = manager.image_stats()[image];
            let frame = frames[image];
            &&& stat.num_visible_points3d <= stat.num_observations <= frame.keypoints@.len()
            &&& stat.num_visible_correspondences <= stat.num_correspondences
            &&& stat.num_observations <= stat.num_correspondences
            &&& stat.num_visible_points3d <= stat.num_visible_correspondences
            &&& stat.point3d_visibility_score == 0 <==> stat.num_visible_points3d == 0
                || frame.width == 0 || frame.height == 0
        }),
{
    let links = all_links(frames, pairs);
    let stat = manager.image_stats()[image];
    let n = frames[image].keypoints@.len();
    assert(stat_counts(stat, frames, links, r, image));
    assert forall|f: int| #[trigger] sees_point(links, r, image)(f) implies linked(links, image)(
        f,
    ) by {
        lemma_count_links_monotone(links, to_point(r, image, f), from_feature(image, f));
    }
    lemma_count_monotone(n, sees_point(links, r, image), linked(links, image));
    lemma_count_bound(n, linked(links, image));
    lemma_count_links_monotone(links, to_registered(r, image), from_image(image));
    let leaving = |f: int| from_feature(image, f);
    lemma_reached(n, links, leaving, from_image(image));
    assert(reached(links, leaving) =~= linked(links, image));
    let seeing = |f: int| to_point(r, image, f);
    lemma_reached(n, links, seeing, to_registered(r, image));
    assert(reached(links, seeing) =~= sees_point(links, r, image));
    law_visibility_range(frames[image], sees_point(links, r, image));
}

proof fn lemma_pair_stats_bounded(
    frames: Seq<ImageFrame>,
    pairs: Seq<PairGeometry>,
    r: ReconstructionView,
    k: nat,
    key: (usize, usize),
)
    requires
        k <= pairs.len(),
        pair_stats_upto(frames, pairs, r, k).contains_key(key),
    ensures
        ({
            let stat = pair_stats_upto(frames, pairs, r, k)[key];
            stat.num_tri_corrs <= stat.num_total_corrs
        }),
    decreases k,
{
    if k > 0 {
        let pair = pairs[k - 1];
        assert(pair.inlier_matches@.len() == pair.inlier_matches.len());
        lemma_count_bound(pair.inlier_matches@.len(), triangulated(frames, pair, r));
        let rest = pair_stats_upto(frames, pairs, r, (k - 1) as nat);
        if rest.contains_key(key) {
            lemma_pair_stats_bounded(frames, pairs, r, (k - 1) as nat, key);
        }
    }
}

/// A pair has no more triangulated correspondences than correspondences.
pub proof fn law_counts_of_a_pair(
    manager: ObservationManager,
    frames: Seq<ImageFrame>,
    pairs: Seq<PairGeometry>,
    r: ReconstructionView,
    key: (usize, usize),
)
    requires
        manager.reflects(frames, pairs, r),
        manager.pair_stats().contains_key(key),
    ensures
        manager.pair_stats()[key].num_tri_corrs <= manager.pair_stats()[key].num_total_corrs,
{
    lemma_pair_stats_bounded(frames, pairs, r, pairs.len(), key);
}

/// Whether no count of an image is lower in the second statistics.
pub open spec fn no_count_lower(
    first: ObservationManager,
    second: ObservationManager,
    frames: Seq<ImageFrame>,
) -> bool {
    &&& forall|i: int|
        0 <= i < frames.len() ==> {
            let a = first.image_stats()[i];
            let b = #[trigger] second.image_stats()[i];
            &&& b.num_observations == a.num_observations
            &&& b.num_correspondences == a.num_correspondences
            &&& b.num_visible_correspondences >= a.num_visible_correspondences
            &&& b.num_visible_points3d >= a.num_visible_points3d
            &&& b.point3d_visibility_score >= a.point3d_visibility_score
        }
    &&& forall|i: int, f: int|
        0 <= i < frames.len() && 0 <= f < frames[i].keypoints@.len()
            ==> #[trigger] second.point_counts()[i][f] >= first.point_counts()[i][f]
}

/// A model that registers every image and gives a point to every feature that
/// another one does has no lower count.
pub proof fn law_more_model_lowers_no_count(
    first: ObservationManager,
    second: ObservationManager,
    frames: Seq<ImageFrame>,
    pairs: Seq<PairGeometry>,
    r: ReconstructionView,
    s: ReconstructionView,
)
    requires
        first.reflects(frames, pairs, r),
        second.reflects(frames, pairs, s),
        forall|i: int| #[trigger] r.registered(i) ==> s.registered(i),
        forall|i: int, f: int| #[trigger] r.observed(i, f) is Some ==> s.observed(i, f) is Some,
    ensures
        no_count_lower(first, second, frames),
{
    let links = all_links(frames, pairs);
    assert forall|i: int, f: int| #[trigger] count_links(links, to_point(s, i, f)) >= count_links(
        links,
        to_point(r, i, f),
    ) by {
        lemma_count_links_monotone(links, to_point(r, i, f), to_point(s, i, f));
    }
    assert forall|i: int| 0 <= i < frames.len() implies {
        let a = first.image_stats()[i];
        let b = #[trigger] second.image_stats()[i];
        &&& b.num_observations == a.num_observations
        &&& b.num_correspondences == a.num_correspondences
        &&& b.num_visible_correspondences >= a.num_visible_correspondences
        &&& b.num_visible_points3d >= a.num_visible_points3d
        &&& b.point3d_visibility_score >= a.point3d_visibility_score
    } by {
        assert(stat_counts(first.image_stats()[i], frames, links, r, i));
        assert(stat_counts(second.image_stats()[i], frames, links, s, i));
        lemma_count_links_monotone(links, to_registered(r, i), to_registered(s, i));
        let p = sees_point(links, r, i);
        let q = sees_point(links, s, i);
        assert forall|f: int| #[trigger] p(f) implies q(f) by {
            assert(count_links(links, to_point(s, i, f)) >= count_links(links, to_point(r, i, f)));
        }
        lemma_count_monotone(frames[i].keypoints@.len(), p, q);
        law_visibility_monotone(frames[i], p, q);
    }
    assert forall|i: int, f: int|
        0 <= i < frames.len() && 0 <= f < frames[i].keypoints@.len() implies #[trigger]
        second.point_counts()[i][f] >= first.point_counts()[i][f] by {
        assert(count_links(links, to_point(s, i, f)) >= count_links(links, to_point(r, i, f)));
        assert(first.point_counts()[i][f] == count_links(links, to_point(r, i, f)));
    }
}

/// Registering an image lowers no count of any image, and leaves the counts of
/// the pairs as they are.
pub proof fn law_register_lowers_no_count(
    before: ObservationManager,
    after: ObservationManager,
    frames: Seq<ImageFrame>,
    pairs: Seq<PairGeometry>,
    r: ReconstructionView,
    image: usize,
    pose: Pose,
)
    requires
        image < r.poses.len(),
        before.reflects(frames, pairs, r),
        after.reflects(frames, pairs, with_pose(r, image, Some(pose))),
    ensures
        no_count_lower(before, after, frames),
        after.pair_stats() == before.pair_stats(),
{
    let s = with_pose(r, image, Some(pose));
    law_more_model_lowers_no_count(before, after, frames, pairs, r, s);
    lemma_pair_stats_ignore_positions(frames, pairs, r, s, pairs.len());
}

/// Taking an image out of the model raises no count of any image.
pub proof fn law_deregister_raises_no_count(
    before: ObservationManager,
    after: ObservationManager,
    frames: Seq<ImageFrame>,
    pairs: Seq<PairGeometry>,
    s: Edited,
    image: usize,
)
    requires
        table_fits(s.r),
        points_fit(s.r),
        image < s.r.poses.len(),
        before.reflects(frames, pairs, s.r),
        after.reflects(frames, pairs, deregistered(s, image).r),
    ensures
        no_count_lower(after, before, frames),
{
    let features = observing_features(s.r, image);
    let cleared = observations_deleted(s, image, features, features.len()).r;
    let t = deregistered(s, image).r;
    lemma_deleted_prefix(s, image, features, features.len());
    assert forall|i: int, f: int| #[trigger] t.observed(i, f) is Some implies s.r.observed(
        i,
        f,
    ) is Some by {
        assert(t.observed(i, f) == cleared.observed(i, f));
    }
    law_more_model_lowers_no_count(after, before, frames, pairs, t, s.r);
}

} // verus!
