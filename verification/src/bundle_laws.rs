//! What a local refinement moves, holds fixed and leaves out, said of the model
//! itself.

use crate::ascending::ascending;
use crate::config::MapperConfig;
use crate::indices::{filtered, lemma_filtered, lemma_indices_where};
use crate::local_bundle::{
    constant_points, desired_neighbors, eligible, images_at, is_neighbor,
    law_desired_neighbors_are_picked, neighbor_rank, not_in, picked_neighbors, picks_after_rounds,
    picks_upto, point_varies, query_points, refinement_required, seen_by, shared_points, sightings,
    stable_ids, variable_points, LocalBundleRound, LocalNeighbor, LocalNeighborhood,
};
use crate::registration_units::lemma_take_contains;
use crate::scalar::Real32;
use crate::types::{ReconstructionView, TrackObservation};
use vstd::prelude::*;

verus! {

/// Whether a point exists and has an observation in an image.
pub open spec fn is_seen(r: ReconstructionView, point: usize, image: usize) -> bool {
    point < r.points.len() && exists|k: int|
        0 <= k < r.points[point as int].track.len() && (
        #[trigger] r.points[point as int].track[k]).image == image
}

/// Whether a point is free to move: its track is short, or it has no error yet.
pub open spec fn is_free(r: ReconstructionView, point: usize, max_track_length: usize) -> bool {
    r.points[point as int].track.len() <= max_track_length || r.points[point as int].error.at_most(
        Real32 { bits: 0 },
    )
}

proof fn lemma_filtered_ascending(list: Seq<usize>, k: nat, q: spec_fn(usize) -> bool)
    requires
        k <= list.len(),
        ascending(list),
    ensures
        ascending(filtered(list, k, q)),
        filtered(list, k, q).no_duplicates(),
    decreases k,
{
    if k > 0 {
        lemma_filtered_ascending(list, (k - 1) as nat, q);
        lemma_filtered(list, (k - 1) as nat, q);
        let rest = filtered(list, (k - 1) as nat, q);
        assert forall|i: int| 0 <= i < rest.len() implies #[trigger] rest[i] < list[k - 1] by {
            assert(rest.contains(rest[i]));
            let front = list.take(k - 1);
            let j = choose|j: int| 0 <= j < front.len() && front[j] == rest[i];
            assert(list[j] < list[k - 1]);
        }
    }
}

proof fn lemma_distinct_len(some: Seq<usize>, all: Seq<usize>)
    requires
        some.no_duplicates(),
        forall|x: usize| #[trigger] some.contains(x) ==> all.contains(x),
    ensures
        some.len() <= all.len(),
{
    some.unique_seq_to_set();
    all.lemma_cardinality_of_set();
    vstd::seq_lib::seq_to_set_is_finite(all);
    assert(some.to_set().subset_of(all.to_set())) by {
        assert forall|x: usize| some.to_set().contains(x) implies all.to_set().contains(x) by {
            assert(some.contains(x));
        }
    }
    vstd::set_lib::lemma_len_subset(some.to_set(), all.to_set());
}

/// The points that an image sees are listed in ascending order.
pub proof fn law_seen_points_are_listed(r: ReconstructionView, image: usize)
    requires
        r.points.len() <= usize::MAX,
    ensures
        ascending(query_points(r, image)),
        forall|p: usize| #[trigger] query_points(r, image).contains(p) <==> is_seen(r, p, image),
{
    lemma_indices_where(r.points.len(), seen_by(r, image));
    assert forall|p: usize| #[trigger] query_points(r, image).contains(p) <==> is_seen(
        r,
        p,
        image,
    ) by {
        if is_seen(r, p, image) {
            assert(seen_by(r, image)(p as int));
        }
    }
}

/// A local refinement moves every point seen by the registered image that has a
/// short track or no error yet. It holds a point fixed only if neither is true of
/// it, and does so as soon as enough others move.
pub proof fn law_local_points(
    r: ReconstructionView,
    image: usize,
    min_shared_points: usize,
    max_track_length: usize,
    some: Seq<usize>,
)
    requires
        r.points.len() <= usize::MAX,
    ensures
        ({
            let points = query_points(r, image);
            let moving = variable_points(r, points, min_shared_points, max_track_length);
            let fixed = constant_points(points, moving);
            &&& ascending(moving)
            &&& ascending(fixed)
            &&& forall|p: usize|
                is_seen(r, p, image) && r.points[p as int].track.len() <= max_track_length
                    ==> #[trigger] moving.contains(p)
            &&& forall|p: usize|
                is_seen(r, p, image) && r.points[p as int].error.at_most(Real32 { bits: 0 })
                    ==> #[trigger] moving.contains(p)
            &&& forall|p: usize| #[trigger] moving.contains(p) ==> is_seen(r, p, image)
            &&& forall|p: usize| #[trigger]
                fixed.contains(p) ==> is_seen(r, p, image) && !r.points[p as int].error.at_most(
                    Real32 { bits: 0 },
                ) && r.points[p as int].track.len() > max_track_length
            &&& forall|p: usize|
                is_seen(r, p, image) ==> (#[trigger] moving.contains(p)) != fixed.contains(p)
            &&& fixed.len() > 0 ==> moving.len() >= 2 && moving.len() >= min_shared_points
            &&& some.no_duplicates() && some.len() >= 2 && some.len() >= min_shared_points && (
            forall|p: usize| #[trigger]
                some.contains(p) ==> is_seen(r, p, image) && is_free(r, p, max_track_length))
                ==> forall|p: usize|
                is_seen(r, p, image) && !is_free(r, p, max_track_length)
                    ==> #[trigger] fixed.contains(p)
        }),
{
    let points = query_points(r, image);
    let varies = point_varies(r, max_track_length);
    let moving = variable_points(r, points, min_shared_points, max_track_length);
    let fixed = constant_points(points, moving);
    let few = filtered(points, points.len(), varies);
    law_seen_points_are_listed(r, image);
    lemma_filtered(points, points.len(), varies);
    lemma_filtered_ascending(points, points.len(), varies);
    lemma_filtered(points, points.len(), not_in(moving));
    lemma_filtered_ascending(points, points.len(), not_in(moving));
    assert(points.take(points.len() as int) =~= points);
    if fixed.len() > 0 {
        assert(fixed.contains(fixed[0]));
    }
    if some.no_duplicates() && (forall|p: usize| #[trigger]
        some.contains(p) ==> is_seen(r, p, image) && is_free(r, p, max_track_length)) {
        lemma_distinct_len(some, few);
    }
}

proof fn lemma_sightings(track: Seq<TrackObservation>, k: nat, image: usize)
    requires
        k <= track.len(),
    ensures
        sightings(track, k, image) > 0 <==> exists|j: int|
            0 <= j < k && (#[trigger] track[j]).image == image,
    decreases k,
{
    if k > 0 {
        lemma_sightings(track, (k - 1) as nat, image);
        if exists|j: int| 0 <= j < k && (#[trigger] track[j]).image == image {
            let j = choose|j: int| 0 <= j < k && (#[trigger] track[j]).image == image;
            if j < k - 1 {
                assert(0 <= j < k - 1 && track[j].image == image);
            }
        }
        if track[k - 1].image == image {
            assert(0 <= k - 1 < k && track[k - 1].image == image);
        }
        if sightings(track, (k - 1) as nat, image) > 0 {
            let j = choose|j: int| 0 <= j < k - 1 && (#[trigger] track[j]).image == image;
            assert(0 <= j < k && track[j].image == image);
        }
    }
}

proof fn lemma_shared(r: ReconstructionView, points: Seq<usize>, k: nat, image: usize, p: usize)
    requires
        k <= points.len(),
        forall|i: int| 0 <= i < points.len() ==> #[trigger] points[i] < r.points.len(),
    ensures
        shared_points(r, points, k, image).contains(p) <==> points.take(k as int).contains(p)
            && is_seen(r, p, image),
    decreases k,
{
    let before = points.take(k as int);
    if k > 0 {
        let m = (k - 1) as nat;
        lemma_shared(r, points, m, image, p);
        let q = points[k - 1];
        let track = r.points[q as int].track;
        let n = sightings(track, track.len(), image);
        lemma_sightings(track, track.len(), image);
        let rest = shared_points(r, points, m, image);
        let all = shared_points(r, points, k, image);
        lemma_take_contains(points, k - 1);
        assert(points.take(k - 1 + 1) == before);
        assert(before.contains(p) <==> points.take(m as int).contains(p) || p == q);
        assert(is_seen(r, q, image) <==> n > 0);
        if rest.contains(p) {
            let j = choose|j: int| 0 <= j < rest.len() && rest[j] == p;
            assert(all[j] == p);
        }
        if n > 0 {
            assert(all[rest.len() as int] == q);
            assert(all.contains(q));
        }
        if all.contains(p) {
            let j = choose|j: int| 0 <= j < all.len() && all[j] == p;
            if j < rest.len() {
                assert(rest[j] == p);
            } else {
                assert(p == q);
            }
        }
    } else {
        assert(before =~= Seq::<usize>::empty());
    }
}

/// The neighbors of a registered image are the other registered images, but for
/// the gauge image, that see one of its points. Each is listed once with the
/// points that both see. Those with more shared points come first, and of those
/// with as many the one of lower index.
pub proof fn law_neighbors(
    n: LocalNeighborhood,
    r: ReconstructionView,
    registered_image: usize,
    gauge_image: usize,
)
    requires
        r.points.len() <= usize::MAX,
        n.surrounds(r, registered_image, gauge_image),
    ensures
        forall|p: usize| #[trigger]
            n.query_point_ids@.contains(p) <==> is_seen(r, p, registered_image),
        forall|k: int|
            0 <= k < n.neighbors@.len() ==> {
                let image = (#[trigger] n.neighbors@[k]).image;
                &&& image != registered_image
                &&& image != gauge_image
                &&& image < r.poses.len()
                &&& r.poses[image as int] is Some
                &&& forall|p: usize| #[trigger]
                    n.neighbors@[k].shared_points@.contains(p) <==> is_seen(
                        r,
                        p,
                        registered_image,
                    ) && is_seen(r, p, image)
            },
        forall|image: usize, p: usize|
            image != registered_image && image != gauge_image && r.registered(image as int)
                && #[trigger] is_seen(r, p, registered_image) && #[trigger] is_seen(r, p, image)
                ==> exists|k: int|
                0 <= k < n.neighbors@.len() && (#[trigger] n.neighbors@[k]).image == image,
        forall|i: int, j: int|
            0 <= i < j < n.neighbors@.len() ==> {
                let a = #[trigger] n.neighbors@[i];
                let b = #[trigger] n.neighbors@[j];
                &&& a.shared_points@.len() >= b.shared_points@.len()
                &&& a.shared_points@.len() == b.shared_points@.len() ==> a.image < b.image
            },
{
    let points = n.query_point_ids@;
    law_seen_points_are_listed(r, registered_image);
    assert forall|i: int| 0 <= i < points.len() implies #[trigger] points[i] < r.points.len() by {
        assert(points.contains(points[i]));
    }
    assert(points.take(points.len() as int) =~= points);
    assert forall|k: int| 0 <= k < n.neighbors@.len() implies {
        let image = (#[trigger] n.neighbors@[k]).image;
        &&& image != registered_image
        &&& image != gauge_image
        &&& image < r.poses.len()
        &&& r.poses[image as int] is Some
        &&& forall|p: usize| #[trigger]
            n.neighbors@[k].shared_points@.contains(p) <==> is_seen(r, p, registered_image)
                && is_seen(r, p, image)
    } by {
        let image = n.neighbors@[k].image;
        assert(is_neighbor(r, registered_image, gauge_image, points, image));
        assert forall|p: usize| #[trigger]
            n.neighbors@[k].shared_points@.contains(p) <==> is_seen(r, p, registered_image)
                && is_seen(r, p, image) by {
            lemma_shared(r, points, points.len(), image, p);
        }
    }
    assert forall|image: usize, p: usize|
        image != registered_image && image != gauge_image && r.registered(image as int)
            && #[trigger] is_seen(r, p, registered_image) && #[trigger] is_seen(
            r,
            p,
            image,
        ) implies exists|k: int|
        0 <= k < n.neighbors@.len() && (#[trigger] n.neighbors@[k]).image == image by {
        lemma_shared(r, points, points.len(), image, p);
        let shared = shared_points(r, points, points.len(), image);
        assert(shared.contains(p));
        assert(shared.len() > 0);
        assert(is_neighbor(r, registered_image, gauge_image, points, image));
    }
    assert forall|i: int, j: int| 0 <= i < j < n.neighbors@.len() implies {
        let a = #[trigger] n.neighbors@[i];
        let b = #[trigger] n.neighbors@[j];
        &&& a.shared_points@.len() >= b.shared_points@.len()
        &&& a.shared_points@.len() == b.shared_points@.len() ==> a.image < b.image
    } by {
        let a = n.neighbors@[i];
        let b = n.neighbors@[j];
        assert(a.shared_points@.len() == a.shared_points.len());
        assert(b.shared_points@.len() == b.shared_points.len());
        assert(neighbor_rank(a).shared == a.shared_points@.len());
        assert(neighbor_rank(b).shared == b.shared_points@.len());
    }
}

/// Whether a neighbor shares enough points and is seen under a wide enough angle.
pub open spec fn passes_round(
    neighbors: Seq<LocalNeighbor>,
    angles: Seq<Option<Real32>>,
    round: LocalBundleRound,
    i: int,
) -> bool {
    &&& neighbors[i].shared_points@.len() >= round.min_shared
    &&& i < angles.len()
    &&& angles[i] is Some
    &&& round.min_angle.at_most(angles[i]->0)
}

proof fn lemma_picks(start: Seq<usize>, e: spec_fn(int) -> bool, desired: nat, n: nat, x: usize)
    requires
        n <= usize::MAX + 1,
    ensures
        start.is_prefix_of(picks_upto(start, e, desired, n)),
        picks_upto(start, e, desired, n).contains(x) ==> start.contains(x) || (x < n && e(
            x as int,
        )),
        x < n && e(x as int) && !picks_upto(start, e, desired, n).contains(x) ==> picks_upto(
            start,
            e,
            desired,
            n,
        ).len() >= desired && forall|y: usize| #[trigger]
            picks_upto(start, e, desired, n).contains(y) ==> start.contains(y) || y < x,
        start.len() >= desired ==> picks_upto(start, e, desired, n) == start,
    decreases n,
{
    if n > 0 {
        let m = (n - 1) as nat;
        lemma_picks(start, e, desired, m, x);
        let rest = picks_upto(start, e, desired, m);
        let all = picks_upto(start, e, desired, n);
        assert(rest.is_prefix_of(all));
        if rest.contains(x) {
            let j = choose|j: int| 0 <= j < rest.len() && rest[j] == x;
            assert(all[j] == x);
        }
        if all.contains(x) && !rest.contains(x) {
            let j = choose|j: int| 0 <= j < all.len() && all[j] == x;
            if j < rest.len() {
                assert(rest[j] == x);
            }
        }
        if x < n && e(x as int) && !all.contains(x) {
            if x == m as usize {
                assert(rest.len() >= desired || rest.contains(x) || all.contains(x)) by {
                    if rest.len() < desired && !rest.contains(x) {
                        assert(all[rest.len() as int] == x);
                    }
                }
                assert(all == rest);
                assert forall|y: usize| #[trigger] all.contains(y) implies start.contains(y) || y
                    < x by {
                    lemma_picks(start, e, desired, m, y);
                }
            } else {
                assert(all == rest);
            }
        }
    }
}

proof fn lemma_round_picks(
    neighbors: Seq<LocalNeighbor>,
    angles: Seq<Option<Real32>>,
    rounds: Seq<LocalBundleRound>,
    desired: nat,
    k: nat,
    x: usize,
)
    requires
        neighbors.len() <= usize::MAX,
        k <= rounds.len(),
        picks_after_rounds(neighbors, angles, rounds, desired, k).contains(x),
    ensures
        x < neighbors.len(),
        exists|m: int| 0 <= m < k && passes_round(neighbors, angles, #[trigger] rounds[m], x as int),
    decreases k,
{
    if k > 0 {
        let start = picks_after_rounds(neighbors, angles, rounds, desired, (k - 1) as nat);
        let e = eligible(neighbors, angles, Some(rounds[k - 1]));
        lemma_picks(start, e, desired, neighbors.len(), x);
        if start.contains(x) {
            lemma_round_picks(neighbors, angles, rounds, desired, (k - 1) as nat, x);
            let m = choose|m: int|
                0 <= m < k - 1 && passes_round(neighbors, angles, #[trigger] rounds[m], x as int);
            assert(0 <= m < k && passes_round(neighbors, angles, rounds[m], x as int));
        } else {
            assert(passes_round(neighbors, angles, rounds[k - 1], x as int));
        }
    }
}

proof fn lemma_rounds_full(
    neighbors: Seq<LocalNeighbor>,
    angles: Seq<Option<Real32>>,
    rounds: Seq<LocalBundleRound>,
    desired: nat,
    j: nat,
    k: nat,
)
    requires
        neighbors.len() <= usize::MAX,
        j <= k <= rounds.len(),
    ensures
        picks_after_rounds(neighbors, angles, rounds, desired, j).is_prefix_of(
            picks_after_rounds(neighbors, angles, rounds, desired, k),
        ),
        picks_after_rounds(neighbors, angles, rounds, desired, j).len() >= desired
            ==> picks_after_rounds(neighbors, angles, rounds, desired, k) == picks_after_rounds(
            neighbors,
            angles,
            rounds,
            desired,
            j,
        ),
    decreases k,
{
    if j < k {
        let m = (k - 1) as nat;
        lemma_rounds_full(neighbors, angles, rounds, desired, j, m);
        lemma_picks(
            picks_after_rounds(neighbors, angles, rounds, desired, m),
            eligible(neighbors, angles, Some(rounds[k - 1])),
            desired,
            neighbors.len(),
            0,
        );
    }
}

/// No neighbor is passed over for a worse one: where one that passes a round is
/// not picked, every neighbor that is picked passes that round or an earlier one.
/// A neighbor that passes no round is picked only if none of lower rank is left
/// out before it.
pub proof fn law_better_neighbors_first(
    neighbors: Seq<LocalNeighbor>,
    angles: Seq<Option<Real32>>,
    rounds: Seq<LocalBundleRound>,
    desired: nat,
    k: int,
    left_out: usize,
    picked: usize,
)
    requires
        desired <= neighbors.len() <= usize::MAX,
        left_out < neighbors.len(),
        !picked_neighbors(neighbors, angles, rounds, desired).contains(left_out),
        picked_neighbors(neighbors, angles, rounds, desired).contains(picked),
    ensures
        0 <= k < rounds.len() && passes_round(neighbors, angles, rounds[k], left_out as int)
            ==> exists|m: int|
            0 <= m <= k && passes_round(neighbors, angles, #[trigger] rounds[m], picked as int),
        (forall|m: int|
            0 <= m < rounds.len() ==> !passes_round(
                neighbors,
                angles,
                #[trigger] rounds[m],
                picked as int,
            )) ==> picked < left_out,
{
    let n = neighbors.len();
    let ruled = picks_after_rounds(neighbors, angles, rounds, desired, rounds.len());
    let all = eligible(neighbors, angles, None);
    let out = picked_neighbors(neighbors, angles, rounds, desired);
    lemma_picks(ruled, all, desired, n, left_out);
    lemma_picks(ruled, all, desired, n, picked);
    assert(all(left_out as int));
    if ruled.contains(picked) {
        lemma_round_picks(neighbors, angles, rounds, desired, rounds.len(), picked);
    }
    assert(!ruled.contains(left_out)) by {
        if ruled.contains(left_out) {
            let j = choose|j: int| 0 <= j < ruled.len() && ruled[j] == left_out;
            assert(out[j] == left_out);
        }
    }
    if 0 <= k < rounds.len() && passes_round(neighbors, angles, rounds[k], left_out as int) {
        let before = picks_after_rounds(neighbors, angles, rounds, desired, k as nat);
        let after = picks_after_rounds(neighbors, angles, rounds, desired, (k + 1) as nat);
        let e = eligible(neighbors, angles, Some(rounds[k]));
        lemma_picks(before, e, desired, n, left_out);
        assert(e(left_out as int));
        lemma_rounds_full(neighbors, angles, rounds, desired, (k + 1) as nat, rounds.len());
        assert(!after.contains(left_out)) by {
            if after.contains(left_out) {
                let j = choose|j: int| 0 <= j < after.len() && after[j] == left_out;
                assert(ruled[j] == left_out);
            }
        }
        assert(after.len() >= desired);
        assert(ruled == after);
        assert(out == ruled);
        lemma_round_picks(neighbors, angles, rounds, desired, (k + 1) as nat, picked);
        let m = choose|m: int|
            0 <= m < k + 1 && passes_round(
                neighbors,
                angles,
                #[trigger] rounds[m],
                picked as int,
            );
        assert(0 <= m <= k && passes_round(neighbors, angles, rounds[m], picked as int));
    }
}

/// One image less than allowed is refined along with the registered one, or all
/// neighbors there are; each is the image of its neighbor, and a point keeps its
/// identifier in the list of refined points.
pub proof fn law_local_lists(
    r: ReconstructionView,
    neighbors: Seq<LocalNeighbor>,
    angles: Seq<Option<Real32>>,
    rounds: Seq<LocalBundleRound>,
    max_num_images: usize,
    points: Seq<usize>,
)
    requires
        max_num_images > 0,
        neighbors.len() <= usize::MAX,
    ensures
        ({
            let desired = desired_neighbors(max_num_images, neighbors.len());
            let picks = picked_neighbors(neighbors, angles, rounds, desired);
            let images = images_at(neighbors, picks);
            &&& images.len() <= neighbors.len()
            &&& images.len() < max_num_images
            &&& images.len() == neighbors.len() || images.len() == max_num_images - 1
            &&& forall|i: int|
                0 <= i < images.len() ==> #[trigger] images[i] == neighbors[picks[i] as int].image
        }),
        stable_ids(r, points).len() == points.len(),
        forall|i: int|
            0 <= i < points.len() ==> #[trigger] stable_ids(r, points)[i] == r.point_id_of(
                points[i] as int,
            ),
{
    law_desired_neighbors_are_picked(
        neighbors,
        angles,
        rounds,
        desired_neighbors(max_num_images, neighbors.len()),
    );
}

/// A registration calls for a local refinement just if refinement is asked for,
/// the image sees two points at least and the least number to share, and another
/// registered image than the gauge sees one of them.
pub proof fn law_refinement_required(
    r: ReconstructionView,
    registered_image: usize,
    gauge_image: usize,
    config: MapperConfig,
    seen: Seq<usize>,
)
    requires
        r.points.len() <= usize::MAX,
        r.poses.len() <= usize::MAX,
        seen.no_duplicates(),
        forall|p: usize| #[trigger] seen.contains(p) <==> is_seen(r, p, registered_image),
    ensures
        refinement_required(r, registered_image, gauge_image, config) <==> {
            &&& config.local_ba
            &&& config.local_ba_iterations > 0
            &&& config.local_ba_num_images > 1
            &&& r.registered(registered_image as int)
            &&& seen.len() >= 2
            &&& seen.len() >= config.local_ba_min_shared_points
            &&& exists|image: usize, p: usize|
                image != registered_image && image != gauge_image && r.registered(image as int)
                    && #[trigger] is_seen(r, p, registered_image) && #[trigger] is_seen(
                    r,
                    p,
                    image,
                )
        },
{
    let points = query_points(r, registered_image);
    law_seen_points_are_listed(r, registered_image);
    assert(points.no_duplicates()) by {
        assert forall|i: int, j: int|
            0 <= i < points.len() && 0 <= j < points.len() && i != j implies points[i]
            != points[j] by {
            if i < j {
                assert(points[i] < points[j]);
            } else {
                assert(points[j] < points[i]);
            }
        }
    }
    lemma_distinct_len(seen, points);
    lemma_distinct_len(points, seen);
    assert forall|i: int| 0 <= i < points.len() implies #[trigger] points[i] < r.points.len() by {
        assert(points.contains(points[i]));
    }
    assert(points.take(points.len() as int) =~= points);
    if refinement_required(r, registered_image, gauge_image, config) {
        let image = choose|image: usize| #[trigger]
            is_neighbor(r, registered_image, gauge_image, points, image);
        let shared = shared_points(r, points, points.len(), image);
        lemma_shared(r, points, points.len(), image, shared[0]);
        assert(shared.contains(shared[0]));
        assert(is_seen(r, shared[0], registered_image) && is_seen(r, shared[0], image));
    }
    if exists|image: usize, p: usize|
        image != registered_image && image != gauge_image && r.registered(image as int)
            && #[trigger] is_seen(r, p, registered_image) && #[trigger] is_seen(r, p, image) {
        let (image, p) = choose|image: usize, p: usize|
            image != registered_image && image != gauge_image && r.registered(image as int)
                && #[trigger] is_seen(r, p, registered_image) && #[trigger] is_seen(r, p, image);
        lemma_shared(r, points, points.len(), image, p);
        assert(shared_points(r, points, points.len(), image).contains(p));
        assert(is_neighbor(r, registered_image, gauge_image, points, image));
    }
}

} // verus!
