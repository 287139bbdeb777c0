//! Selection of the images and points that are refined after a registration.
//!
//! The selection has two parts. The first finds the points seen by the new
//! image and the images that share them. The second picks among those images,
//! given how wide they see the shared points.

use crate::ascending::{ascending, insert_ascending, lists};
use crate::config::MapperConfig;
use crate::indices::{filtered, indices_where, lemma_filtered};
use crate::scalar::Real32;
use crate::sorting::{lemma_sorting_contains, sort, Ranked};
use crate::types::{Reconstruction, ReconstructionView, TrackObservation};
use std::collections::HashSet;
use vstd::prelude::*;

verus! {

/// Whether a track has an observation in an image.
pub open spec fn sees_image(track: Seq<TrackObservation>, image: usize) -> bool {
    exists|k: int| 0 <= k < track.len() && (#[trigger] track[k]).image == image
}

/// Selects the points seen by an image.
pub open spec fn seen_by(r: ReconstructionView, image: usize) -> spec_fn(int) -> bool {
    |p: int| sees_image(r.points[p].track, image)
}

/// How many of the first `k` observations of a track are in an image.
pub open spec fn sightings(track: Seq<TrackObservation>, k: nat, image: usize) -> nat
    decreases k,
{
    if k == 0 {
        0
    } else {
        sightings(track, (k - 1) as nat, image) + (if track[k - 1].image == image {
            1nat
        } else {
            0nat
        })
    }
}

pub open spec fn repeated(x: usize, n: nat) -> Seq<usize> {
    Seq::new(n, |i: int| x)
}

/// The points among the first `k` of a list that an image sees, one entry per
/// observation.
pub open spec fn shared_points(
    r: ReconstructionView,
    points: Seq<usize>,
    k: nat,
    image: usize,
) -> Seq<usize>
    decreases k,
{
    if k == 0 {
        Seq::empty()
    } else {
        let track = r.points[points[k - 1] as int].track;
        shared_points(r, points, (k - 1) as nat, image) + repeated(
            points[k - 1],
            sightings(track, track.len(), image),
        )
    }
}

/// How a neighbor ranks: more shared points first, then the smaller index.
#[derive(Debug, Clone, Copy, PartialEq, Eq, Structural)]
pub struct NeighborRank {
    pub shared: usize,
    pub image: usize,
}

impl Ranked for NeighborRank {
    open spec fn before(self, other: NeighborRank) -> bool {
        if self.shared != other.shared {
            self.shared > other.shared
        } else {
            self.image < other.image
        }
    }

    proof fn asymmetric(a: NeighborRank, b: NeighborRank) {
    }

    proof fn negatively_transitive(a: NeighborRank, b: NeighborRank, c: NeighborRank) {
    }

    fn precedes(&self, other: &NeighborRank) -> (b: bool) {
        if self.shared != other.shared {
            self.shared > other.shared
        } else {
            self.image < other.image
        }
    }
}

/// An image and the points it shares with the registered one.
#[derive(Debug)]
pub struct LocalNeighbor {
    pub image: usize,
    pub shared_points: Vec<usize>,
}

/// The surroundings of a registered image.
#[derive(Debug)]
pub struct LocalNeighborhood {
    pub query_point_ids: Vec<usize>,
    pub neighbors: Vec<LocalNeighbor>,
}

/// Whether an image is a neighbor: registered, neither the registered nor the
/// gauge image, and with a shared point.
pub open spec fn is_neighbor(
    r: ReconstructionView,
    registered_image: usize,
    gauge_image: usize,
    points: Seq<usize>,
    image: usize,
) -> bool {
    &&& image != registered_image
    &&& image != gauge_image
    &&& r.registered(image as int)
    &&& shared_points(r, points, points.len(), image).len() > 0
}

/// The points seen by an image.
pub open spec fn query_points(r: ReconstructionView, registered_image: usize) -> Seq<usize> {
    indices_where(r.points.len(), seen_by(r, registered_image))
}

pub open spec fn at_least_two(n: usize) -> usize {
    if n >= 2 {
        n
    } else {
        2
    }
}

/// Whether an image has surroundings to refine.
pub open spec fn has_neighborhood(
    r: ReconstructionView,
    registered_image: usize,
    max_num_images: usize,
    min_shared_points: usize,
) -> bool {
    &&& r.registered(registered_image as int)
    &&& max_num_images > 0
    &&& query_points(r, registered_image).len() >= at_least_two(min_shared_points)
}

impl LocalNeighborhood {
    /// Whether this is the neighborhood of an image.
    pub open spec fn surrounds(
        self,
        r: ReconstructionView,
        registered_image: usize,
        gauge_image: usize,
    ) -> bool {
        let points = self.query_point_ids@;
        &&& points == query_points(r, registered_image)
        &&& forall|k: int|
            0 <= k < self.neighbors@.len() ==> {
                &&& is_neighbor(
                    r,
                    registered_image,
                    gauge_image,
                    points,
                    (#[trigger] self.neighbors@[k]).image,
                )
                &&& self.neighbors@[k].shared_points@ == shared_points(
                    r,
                    points,
                    points.len(),
                    self.neighbors@[k].image,
                )
            }
        &&& forall|image: usize| #[trigger]
            is_neighbor(r, registered_image, gauge_image, points, image) ==> exists|k: int|
                0 <= k < self.neighbors@.len() && (#[trigger] self.neighbors@[k]).image == image
        &&& forall|i: int, j: int|
            0 <= i < j < self.neighbors@.len() ==> neighbor_rank(#[trigger] self.neighbors@[i]).before(
                neighbor_rank(#[trigger] self.neighbors@[j]),
            )
    }
}

pub open spec fn neighbor_rank(n: LocalNeighbor) -> NeighborRank {
    NeighborRank { shared: n.shared_points@.len() as usize, image: n.image }
}

fn track_sees_image(track: &Vec<TrackObservation>, image: usize) -> (b: bool)
    ensures
        b == sees_image(track@, image),
{
    for k in 0..track.len()
        invariant
            forall|j: int| 0 <= j < k ==> (#[trigger] track@[j]).image != image,
    {
        if track[k].image == image {
            assert(track@[k as int].image == image);
            return true;
        }
    }
    false
}

/// The points seen by an image, in ascending order.
pub fn points_seen_by(reconstruction: &Reconstruction, image: usize) -> (points: Vec<usize>)
    ensures
        points@ == query_points(reconstruction@, image),
{
    let mut points: Vec<usize> = Vec::new();
    for p in 0..reconstruction.points.len()
        invariant
            points@ == indices_where(p as nat, seen_by(reconstruction@, image)),
    {
        assert(reconstruction@.points[p as int].track == reconstruction.points@[p as int].track@);
        if track_sees_image(&reconstruction.points[p].track, image) {
            points.push(p);
        }
    }
    points
}

/// For each image the points of a list that it sees.
fn shared_point_lists(reconstruction: &Reconstruction, points: &Vec<usize>) -> (lists: Vec<
    Vec<usize>,
>)
    requires
        forall|k: int|
            0 <= k < points@.len() ==> #[trigger] points@[k] < reconstruction@.points.len(),
    ensures
        lists@.len() == reconstruction@.poses.len(),
        forall|i: int|
            0 <= i < lists@.len() ==> (#[trigger] lists@[i])@ == shared_points(
                reconstruction@,
                points@,
                points@.len(),
                i as usize,
            ),
{
    let ghost r = reconstruction@;
    let n: usize = reconstruction.poses.len();
    let mut lists: Vec<Vec<usize>> = Vec::new();
    for i in 0..n
        invariant
            lists@.len() == i,
            forall|j: int| 0 <= j < i ==> (#[trigger] lists@[j])@ == Seq::<usize>::empty(),
    {
        lists.push(Vec::new());
    }
    for k in 0..points.len()
        invariant
            r == reconstruction@,
            n == r.poses.len(),
            lists@.len() == n,
            forall|j: int|
                0 <= j < points@.len() ==> #[trigger] points@[j] < reconstruction@.points.len(),
            forall|i: int|
                0 <= i < n ==> (#[trigger] lists@[i])@ == shared_points(
                    r,
                    points@,
                    k as nat,
                    i as usize,
                ),
    {
        let point: usize = points[k];
        assert(points@[k as int] < r.points.len());
        let track_len: usize = reconstruction.points[point].track.len();
        let ghost track = r.points[point as int].track;
        assert(track == reconstruction.points@[point as int].track@);
        let ghost before = lists@;
        assert forall|i: int| 0 <= i < n implies (#[trigger] lists@[i])@ =~= before[i]@ + repeated(
            point,
            sightings(track, 0, i as usize),
        ) by {}
        for t in 0..track_len
            invariant
                point < reconstruction.points@.len(),
                track == reconstruction.points@[point as int].track@,
                track_len == track.len(),
                lists@.len() == n,
                before.len() == n,
                forall|i: int|
                    0 <= i < n ==> (#[trigger] lists@[i])@ == before[i]@ + repeated(
                        point,
                        sightings(track, t as nat, i as usize),
                    ),
        {
            let image: usize = reconstruction.points[point].track[t].image;
            if image < n {
                let ghost entry = lists@;
                let mut list: Vec<usize> = Vec::new();
                core::mem::swap(&mut list, &mut lists[image]);
                list.push(point);
                lists[image] = list;
                proof {
                    let s = sightings(track, t as nat, image);
                    assert(repeated(point, s).push(point) =~= repeated(point, s + 1));
                    assert(lists@[image as int]@ =~= before[image as int]@ + repeated(
                        point,
                        sightings(track, (t + 1) as nat, image),
                    ));
                    assert forall|i: int| 0 <= i < n implies (#[trigger] lists@[i])@ == before[i]@
                        + repeated(point, sightings(track, (t + 1) as nat, i as usize)) by {
                        if i != image {
                            assert(lists@[i] == entry[i]);
                        }
                    }
                }
            }
        }
        proof {
            assert forall|i: int| 0 <= i < n implies (#[trigger] lists@[i])@ == shared_points(
                r,
                points@,
                (k + 1) as nat,
                i as usize,
            ) by {
                assert(before[i]@ == shared_points(r, points@, k as nat, i as usize));
            }
        }
    }
    lists
}

/// Finds the points seen by a newly registered image and the images that share
/// them. There is nothing to find if the image is not registered, no image may
/// be refined, or the image sees too few points.
#[verifier::spinoff_prover]
pub fn local_neighborhood(
    reconstruction: &Reconstruction,
    registered_image: usize,
    gauge_image: usize,
    max_num_images: usize,
    min_shared_points: usize,
) -> (out: Option<LocalNeighborhood>)
    ensures
        out is Some <==> has_neighborhood(
            reconstruction@,
            registered_image,
            max_num_images,
            min_shared_points,
        ),
        out matches Some(n) ==> n.surrounds(reconstruction@, registered_image, gauge_image),
{
    let ghost r = reconstruction@;
    if registered_image >= reconstruction.poses.len()
        || reconstruction.poses[registered_image].is_none() || max_num_images == 0 {
        return None;
    }
    let query_point_ids: Vec<usize> = points_seen_by(reconstruction, registered_image);
    let least: usize = if min_shared_points >= 2 {
        min_shared_points
    } else {
        2
    };
    if query_point_ids.len() < least {
        return None;
    }
    let num_points: usize = reconstruction.points.len();
    proof {
        assert(num_points == r.points.len());
        crate::indices::lemma_indices_where(r.points.len(), seen_by(r, registered_image));
        assert forall|k: int| 0 <= k < query_point_ids@.len() implies #[trigger] query_point_ids@[k]
            < r.points.len() by {
            assert(query_point_ids@.contains(query_point_ids@[k]));
        }
    }
    let mut lists: Vec<Vec<usize>> = shared_point_lists(reconstruction, &query_point_ids);
    let n: usize = reconstruction.poses.len();
    let ghost points = query_point_ids@;
    let mut ranks: Vec<NeighborRank> = Vec::new();
    for image in 0..n
        invariant
            r == reconstruction@,
            n == r.poses.len(),
            points == query_point_ids@,
            lists@.len() == n,
            forall|i: int|
                0 <= i < n ==> (#[trigger] lists@[i])@ == shared_points(
                    r,
                    points,
                    points.len(),
                    i as usize,
                ),
            forall|k: int|
                0 <= k < ranks@.len() ==> {
                    &&& (#[trigger] ranks@[k]).image < image
                    &&& ranks@[k].shared == shared_points(
                        r,
                        points,
                        points.len(),
                        ranks@[k].image,
                    ).len()
                    &&& is_neighbor(r, registered_image, gauge_image, points, ranks@[k].image)
                },
            forall|x: usize|
                x < image && #[trigger] is_neighbor(r, registered_image, gauge_image, points, x)
                    ==> exists|k: int| 0 <= k < ranks@.len() && (#[trigger] ranks@[k]).image == x,
            forall|i: int, j: int|
                0 <= i < j < ranks@.len() ==> (#[trigger] ranks@[i]).image
                    < (#[trigger] ranks@[j]).image,
    {
        let ghost before = ranks@;
        assert(lists@[image as int]@ == shared_points(r, points, points.len(), image));
        if image != registered_image && image != gauge_image && reconstruction.poses[image].is_some()
            && lists[image].len() > 0 {
            ranks.push(NeighborRank { shared: lists[image].len(), image });
            assert(ranks@[before.len() as int].image == image);
        }
        proof {
            assert forall|x: usize|
                x < image + 1 && #[trigger] is_neighbor(
                    r,
                    registered_image,
                    gauge_image,
                    points,
                    x,
                ) implies exists|k: int|
                0 <= k < ranks@.len() && (#[trigger] ranks@[k]).image == x by {
                if x < image {
                    let k = choose|k: int| 0 <= k < before.len() && (#[trigger] before[k]).image == x;
                    assert(ranks@[k].image == x);
                }
            }
        }
    }
    let ghost listed = ranks@;
    sort(&mut ranks);
    proof {
        lemma_sorting_contains(ranks@, listed);
        lemma_ranks_distinct(ranks@, listed);
        assert forall|k: int| 0 <= k < ranks@.len() implies (#[trigger] ranks@[k]).image < n
            && is_neighbor(r, registered_image, gauge_image, points, ranks@[k].image)
            && ranks@[k].shared == shared_points(
            r,
            points,
            points.len(),
            ranks@[k].image,
        ).len() by {
            assert(ranks@.contains(ranks@[k]));
            let j = choose|j: int| 0 <= j < listed.len() && listed[j] == ranks@[k];
            assert(listed[j].image == ranks@[k].image);
        }
    }
    let mut neighbors: Vec<LocalNeighbor> = Vec::new();
    for k in 0..ranks.len()
        invariant
            n == r.poses.len(),
            lists@.len() == n,
            forall|i: int|
                0 <= i < ranks@.len() ==> {
                    &&& (#[trigger] ranks@[i]).image < n
                    &&& is_neighbor(r, registered_image, gauge_image, points, ranks@[i].image)
                    &&& ranks@[i].shared == shared_points(
                        r,
                        points,
                        points.len(),
                        ranks@[i].image,
                    ).len()
                },
            forall|i: int, j: int|
                0 <= i < ranks@.len() && 0 <= j < ranks@.len() && i != j
                    ==> (#[trigger] ranks@[i]).image != (#[trigger] ranks@[j]).image,
            forall|i: int|
                k <= i < ranks@.len() ==> lists@[(#[trigger] ranks@[i]).image as int]@
                    == shared_points(r, points, points.len(), ranks@[i].image),
            neighbors@.len() == k,
            forall|i: int|
                0 <= i < k ==> {
                    &&& (#[trigger] neighbors@[i]).image == ranks@[i].image
                    &&& neighbors@[i].shared_points@ == shared_points(
                        r,
                        points,
                        points.len(),
                        ranks@[i].image,
                    )
                },
    {
        let image: usize = ranks[k].image;
        assert(ranks@[k as int].image == image);
        let ghost entry = lists@;
        let mut list: Vec<usize> = Vec::new();
        core::mem::swap(&mut list, &mut lists[image]);
        neighbors.push(LocalNeighbor { image, shared_points: list });
        proof {
            assert forall|i: int| k + 1 <= i < ranks@.len() implies lists@[(#[trigger] ranks@[i]).image as int]@
                == shared_points(r, points, points.len(), ranks@[i].image) by {
                assert(ranks@[i].image != ranks@[k as int].image);
                assert(lists@[ranks@[i].image as int] == entry[ranks@[i].image as int]);
            }
        }
    }
    let found = LocalNeighborhood { query_point_ids, neighbors };
    proof {
        assert(found.query_point_ids@ == points);
        assert(points == query_points(r, registered_image));
        assert forall|k: int| 0 <= k < found.neighbors@.len() implies is_neighbor(
            r,
            registered_image,
            gauge_image,
            points,
            (#[trigger] found.neighbors@[k]).image,
        ) && found.neighbors@[k].shared_points@ == shared_points(
            r,
            points,
            points.len(),
            found.neighbors@[k].image,
        ) by {
            assert(found.neighbors@[k].image == ranks@[k].image);
        }
        assert forall|image: usize| #[trigger]
            is_neighbor(r, registered_image, gauge_image, points, image) implies exists|k: int|
            0 <= k < found.neighbors@.len() && (#[trigger] found.neighbors@[k]).image == image by {
            assert(image < n);
            let j = choose|j: int| 0 <= j < listed.len() && (#[trigger] listed[j]).image == image;
            assert(listed.contains(listed[j]));
            assert(ranks@.contains(listed[j]));
            let k = choose|k: int| 0 <= k < ranks@.len() && ranks@[k] == listed[j];
            assert(found.neighbors@[k].image == image);
        }
        assert forall|i: int, j: int| 0 <= i < j < found.neighbors@.len() implies neighbor_rank(
            #[trigger] found.neighbors@[i],
        ).before(neighbor_rank(#[trigger] found.neighbors@[j])) by {
            assert(neighbor_rank(found.neighbors@[i]) == ranks@[i]);
            assert(neighbor_rank(found.neighbors@[j]) == ranks@[j]);
            assert(!ranks@[j].before(ranks@[i]));
        }
    }
    Some(found)
}

proof fn lemma_ranks_distinct(sorted: Seq<NeighborRank>, listed: Seq<NeighborRank>)
    requires
        sorted.to_multiset() == listed.to_multiset(),
        forall|i: int, j: int|
            0 <= i < j < listed.len() ==> (#[trigger] listed[i]).image < (#[trigger] listed[j]).image,
    ensures
        forall|i: int, j: int|
            0 <= i < sorted.len() && 0 <= j < sorted.len() && i != j
                ==> (#[trigger] sorted[i]).image != (#[trigger] sorted[j]).image,
{
    lemma_sorting_contains(sorted, listed);
    assert(listed.no_duplicates());
    listed.lemma_multiset_has_no_duplicates();
    sorted.lemma_multiset_has_no_duplicates_conv();
    assert forall|i: int, j: int|
        0 <= i < sorted.len() && 0 <= j < sorted.len() && i != j implies (#[trigger] sorted[i]).image
        != (#[trigger] sorted[j]).image by {
        assert(sorted.contains(sorted[i]));
        assert(sorted.contains(sorted[j]));
        let a = choose|a: int| 0 <= a < listed.len() && listed[a] == sorted[i];
        let b = choose|b: int| 0 <= b < listed.len() && listed[b] == sorted[j];
        assert(sorted[i] != sorted[j]);
        if a < b {
            assert(listed[a].image < listed[b].image);
        } else {
            assert(listed[b].image < listed[a].image);
        }
    }
}

/// One round of picking neighbors: the angle and the number of shared points
/// that a neighbor must reach.
#[derive(Debug, Clone, Copy, PartialEq, Eq, Structural)]
pub struct LocalBundleRound {
    pub min_angle: Real32,
    pub min_shared: usize,
}

/// The images and points to refine.
#[derive(Debug)]
pub struct LocalBundleSelection {
    pub variable_images: Vec<usize>,
    pub point_ids: Vec<usize>,
    pub constant_point_ids: Vec<usize>,
    pub stable_point_ids: Vec<u64>,
    pub local_images: Vec<usize>,
}

/// Selects the neighbors that satisfy a round; without a round all do.
pub open spec fn eligible(
    neighbors: Seq<LocalNeighbor>,
    angles: Seq<Option<Real32>>,
    round: Option<LocalBundleRound>,
) -> spec_fn(int) -> bool {
    |i: int|
        match round {
            Some(round) => neighbors[i].shared_points@.len() >= round.min_shared && i < angles.len()
                && match angles[i] {
                Some(angle) => round.min_angle.at_most(angle),
                None => false,
            },
            None => true,
        }
}

/// The picks once the first `k` neighbors have been visited: eligible ones are
/// added in order until `desired` are picked.
pub open spec fn picks_upto(
    start: Seq<usize>,
    e: spec_fn(int) -> bool,
    desired: nat,
    k: nat,
) -> Seq<usize>
    decreases k,
{
    if k == 0 {
        start
    } else {
        let rest = picks_upto(start, e, desired, (k - 1) as nat);
        if rest.len() < desired && !rest.contains((k - 1) as usize) && e(k - 1) {
            rest.push((k - 1) as usize)
        } else {
            rest
        }
    }
}

/// The picks after the first `k` rounds.
pub open spec fn picks_after_rounds(
    neighbors: Seq<LocalNeighbor>,
    angles: Seq<Option<Real32>>,
    rounds: Seq<LocalBundleRound>,
    desired: nat,
    k: nat,
) -> Seq<usize>
    decreases k,
{
    if k == 0 {
        Seq::empty()
    } else {
        picks_upto(
            picks_after_rounds(neighbors, angles, rounds, desired, (k - 1) as nat),
            eligible(neighbors, angles, Some(rounds[k - 1])),
            desired,
            neighbors.len(),
        )
    }
}

/// The picked neighbors: by rounds first, then in order until enough.
pub open spec fn picked_neighbors(
    neighbors: Seq<LocalNeighbor>,
    angles: Seq<Option<Real32>>,
    rounds: Seq<LocalBundleRound>,
    desired: nat,
) -> Seq<usize> {
    picks_upto(
        picks_after_rounds(neighbors, angles, rounds, desired, rounds.len()),
        eligible(neighbors, angles, None),
        desired,
        neighbors.len(),
    )
}

/// How many neighbors are refined along with the registered image.
pub open spec fn desired_neighbors(max_num_images: usize, neighbors: nat) -> nat {
    if max_num_images == 0 {
        0
    } else if max_num_images - 1 <= neighbors {
        (max_num_images - 1) as nat
    } else {
        neighbors
    }
}

pub open spec fn images_at(neighbors: Seq<LocalNeighbor>, picks: Seq<usize>) -> Seq<usize> {
    Seq::new(picks.len(), |i: int| neighbors[picks[i] as int].image)
}

/// Whether a point moves in a local refinement: it was not refined yet, or its
/// track is short.
pub open spec fn point_varies(r: ReconstructionView, max_track_length: usize) -> spec_fn(
    usize,
) -> bool {
    |p: usize|
        p < r.points.len() && (r.points[p as int].error.at_most(Real32 { bits: 0 })
            || r.points[p as int].track.len() <= max_track_length)
}

/// The points that move; all, if too few would.
pub open spec fn variable_points(
    r: ReconstructionView,
    points: Seq<usize>,
    min_shared_points: usize,
    max_track_length: usize,
) -> Seq<usize> {
    let some = filtered(points, points.len(), point_varies(r, max_track_length));
    if some.len() < at_least_two(min_shared_points) {
        points
    } else {
        some
    }
}

pub open spec fn not_in(list: Seq<usize>) -> spec_fn(usize) -> bool {
    |p: usize| !list.contains(p)
}

/// The points that stay fixed.
pub open spec fn constant_points(points: Seq<usize>, variable: Seq<usize>) -> Seq<usize> {
    filtered(points, points.len(), not_in(variable))
}

pub open spec fn stable_ids(r: ReconstructionView, points: Seq<usize>) -> Seq<u64> {
    Seq::new(points.len(), |i: int| r.point_id_of(points[i] as int))
}

spec fn always(e: spec_fn(int) -> bool) -> bool {
    forall|i: int| #[trigger] e(i)
}

spec fn holds_all_below(picks: Seq<usize>, k: nat) -> bool {
    forall|x: usize| x < k ==> #[trigger] picks.contains(x)
}

proof fn lemma_picks(start: Seq<usize>, e: spec_fn(int) -> bool, desired: nat, k: nat, n: nat)
    requires
        k <= n <= usize::MAX,
        start.no_duplicates(),
        start.len() <= desired,
        forall|i: int| 0 <= i < start.len() ==> #[trigger] start[i] < n,
    ensures
        picks_upto(start, e, desired, k).no_duplicates(),
        picks_upto(start, e, desired, k).len() <= desired,
        forall|i: int|
            0 <= i < picks_upto(start, e, desired, k).len() ==> #[trigger] picks_upto(
                start,
                e,
                desired,
                k,
            )[i] < n,
        always(e) && picks_upto(start, e, desired, k).len() < desired ==> holds_all_below(
            picks_upto(start, e, desired, k),
            k,
        ),
    decreases k,
{
    if k > 0 {
        let m = (k - 1) as nat;
        lemma_picks(start, e, desired, m, n);
        let rest = picks_upto(start, e, desired, m);
        let all = picks_upto(start, e, desired, k);
        if always(e) && all.len() < desired {
            assert forall|x: usize| x < k implies #[trigger] all.contains(x) by {
                if x < m {
                    assert(rest.contains(x));
                    let i = choose|i: int| 0 <= i < rest.len() && rest[i] == x;
                    assert(all[i] == x);
                } else if !rest.contains(x) {
                    assert(e(x as int));
                    assert(all[rest.len() as int] == x);
                }
            }
        }
    }
}

proof fn lemma_round_picks(
    neighbors: Seq<LocalNeighbor>,
    angles: Seq<Option<Real32>>,
    rounds: Seq<LocalBundleRound>,
    desired: nat,
    k: nat,
)
    requires
        neighbors.len() <= usize::MAX,
    ensures
        picks_after_rounds(neighbors, angles, rounds, desired, k).no_duplicates(),
        picks_after_rounds(neighbors, angles, rounds, desired, k).len() <= desired,
        forall|i: int|
            0 <= i < picks_after_rounds(neighbors, angles, rounds, desired, k).len()
                ==> #[trigger] picks_after_rounds(neighbors, angles, rounds, desired, k)[i]
                < neighbors.len(),
    decreases k,
{
    if k > 0 {
        lemma_round_picks(neighbors, angles, rounds, desired, (k - 1) as nat);
        lemma_picks(
            picks_after_rounds(neighbors, angles, rounds, desired, (k - 1) as nat),
            eligible(neighbors, angles, Some(rounds[k - 1])),
            desired,
            neighbors.len(),
            neighbors.len(),
        );
    }
}

/// Whatever the angles are, exactly the desired number of neighbors is picked,
/// each at most once.
pub proof fn law_desired_neighbors_are_picked(
    neighbors: Seq<LocalNeighbor>,
    angles: Seq<Option<Real32>>,
    rounds: Seq<LocalBundleRound>,
    desired: nat,
)
    requires
        neighbors.len() <= usize::MAX,
        desired <= neighbors.len(),
    ensures
        picked_neighbors(neighbors, angles, rounds, desired).len() == desired,
        picked_neighbors(neighbors, angles, rounds, desired).no_duplicates(),
        forall|i: int|
            0 <= i < desired ==> #[trigger] picked_neighbors(neighbors, angles, rounds, desired)[i]
                < neighbors.len(),
{
    lemma_round_picks(neighbors, angles, rounds, desired, rounds.len());
    let start = picks_after_rounds(neighbors, angles, rounds, desired, rounds.len());
    let e = eligible(neighbors, angles, None);
    let n = neighbors.len();
    lemma_picks(start, e, desired, n, n);
    let picks = picks_upto(start, e, desired, n);
    if picks.len() < desired {
        let all = Seq::new(n, |i: int| i as usize);
        assert(all.no_duplicates());
        all.unique_seq_to_set();
        picks.lemma_cardinality_of_set();
        assert(all.to_set().subset_of(picks.to_set())) by {
            assert forall|x: usize| all.to_set().contains(x) implies picks.to_set().contains(x) by {
                let i = choose|i: int| 0 <= i < all.len() && all[i] == x;
                assert(picks.contains(x));
            }
        }
        vstd::seq_lib::seq_to_set_is_finite(picks);
        vstd::set_lib::lemma_len_subset(all.to_set(), picks.to_set());
    }
}

/// Visits the neighbors once and picks the eligible ones.
fn pick_neighbors(
    neighbors: &Vec<LocalNeighbor>,
    angles: &[Option<Real32>],
    round: Option<LocalBundleRound>,
    desired: usize,
    picks: &mut Vec<usize>,
    used: &mut Vec<bool>,
)
    requires
        old(used)@.len() == neighbors@.len(),
        forall|i: int|
            0 <= i < neighbors@.len() ==> #[trigger] old(used)@[i] == old(picks)@.contains(
                i as usize,
            ),
    ensures
        final(picks)@ == picks_upto(
            old(picks)@,
            eligible(neighbors@, angles@, round),
            desired as nat,
            neighbors@.len(),
        ),
        final(used)@.len() == neighbors@.len(),
        forall|i: int|
            0 <= i < neighbors@.len() ==> #[trigger] final(used)@[i] == final(picks)@.contains(
                i as usize,
            ),
{
    let ghost e = eligible(neighbors@, angles@, round);
    let n: usize = neighbors.len();
    for k in 0..n
        invariant
            n == neighbors@.len(),
            e == eligible(neighbors@, angles@, round),
            used@.len() == n,
            picks@ == picks_upto(old(picks)@, e, desired as nat, k as nat),
            forall|i: int|
                0 <= i < n ==> #[trigger] used@[i] == picks@.contains(i as usize),
    {
        let ghost before = picks@;
        assert(used@[k as int] == picks@.contains(k as usize));
        if picks.len() < desired && !used[k] {
            let good: bool = match round {
                Some(round) => {
                    if neighbors[k].shared_points.len() >= round.min_shared && k < angles.len() {
                        match angles[k] {
                            Some(angle) => round.min_angle.le(&angle),
                            None => false,
                        }
                    } else {
                        false
                    }
                },
                None => true,
            };
            assert(good == e(k as int));
            if good {
                picks.push(k);
                used[k] = true;
                proof {
                    assert forall|i: int| 0 <= i < n implies #[trigger] used@[i] == picks@.contains(
                        i as usize,
                    ) by {
                        if before.contains(i as usize) {
                            let j = choose|j: int| 0 <= j < before.len() && before[j] == i as usize;
                            assert(picks@[j] == i as usize);
                        }
                        assert(picks@[before.len() as int] == k);
                        if picks@.contains(i as usize) && i != k {
                            let j = choose|j: int| 0 <= j < picks@.len() && picks@[j] == i as usize;
                            assert(before[j] == i as usize);
                        }
                    }
                }
            }
        }
    }
}

fn select_picks(
    neighbors: &Vec<LocalNeighbor>,
    angles: &[Option<Real32>],
    rounds: &[LocalBundleRound],
    desired: usize,
) -> (picks: Vec<usize>)
    ensures
        picks@ == picked_neighbors(neighbors@, angles@, rounds@, desired as nat),
{
    let mut picks: Vec<usize> = Vec::new();
    let mut used: Vec<bool> = Vec::new();
    for i in 0..neighbors.len()
        invariant
            used@.len() == i,
            forall|j: int| 0 <= j < i ==> !used@[j],
    {
        used.push(false);
    }
    for k in 0..rounds.len()
        invariant
            used@.len() == neighbors@.len(),
            forall|i: int|
                0 <= i < neighbors@.len() ==> #[trigger] used@[i] == picks@.contains(i as usize),
            picks@ == picks_after_rounds(
                neighbors@,
                angles@,
                rounds@,
                desired as nat,
                k as nat,
            ),
    {
        pick_neighbors(neighbors, angles, Some(rounds[k]), desired, &mut picks, &mut used);
    }
    pick_neighbors(neighbors, angles, None, desired, &mut picks, &mut used);
    picks
}

fn stable_point_ids(reconstruction: &Reconstruction, first: &Vec<usize>, second: &Vec<usize>) -> (ids:
    Vec<u64>)
    ensures
        ids@ == stable_ids(reconstruction@, first@ + second@),
{
    let mut ids: Vec<u64> = Vec::new();
    for i in 0..first.len()
        invariant
            ids@ == stable_ids(reconstruction@, first@.take(i as int)),
    {
        ids.push(reconstruction.point3d_id(first[i]));
        assert(ids@ =~= stable_ids(reconstruction@, first@.take(i + 1)));
    }
    for i in 0..second.len()
        invariant
            ids@ == stable_ids(reconstruction@, first@ + second@.take(i as int)),
    {
        ids.push(reconstruction.point3d_id(second[i]));
        assert(ids@ =~= stable_ids(reconstruction@, first@ + second@.take(i + 1)));
    }
    assert(ids@ =~= stable_ids(reconstruction@, first@ + second@));
    ids
}

/// Picks the images and points to refine. There is nothing to refine without
/// a neighbor.
pub fn select_local_bundle(
    reconstruction: &Reconstruction,
    neighborhood: LocalNeighborhood,
    registered_image: usize,
    gauge_image: usize,
    max_num_images: usize,
    min_shared_points: usize,
    angles: &[Option<Real32>],
    rounds: &[LocalBundleRound],
    max_variable_track_length: usize,
) -> (out: Option<LocalBundleSelection>)
    requires
        neighborhood.surrounds(reconstruction@, registered_image, gauge_image),
    ensures
        out is Some <==> max_num_images > 1 && neighborhood.neighbors@.len() > 0,
        out matches Some(s) ==> {
            let neighbors = neighborhood.neighbors@;
            let points = neighborhood.query_point_ids@;
            let desired = desired_neighbors(max_num_images, neighbors.len());
            &&& s.local_images@ == images_at(
                neighbors,
                picked_neighbors(neighbors, angles@, rounds@, desired),
            )
            &&& lists(s.variable_images@, s.local_images@.to_set().insert(registered_image))
            &&& s.point_ids@ == variable_points(
                reconstruction@,
                points,
                min_shared_points,
                max_variable_track_length,
            )
            &&& s.constant_point_ids@ == constant_points(points, s.point_ids@)
            &&& s.stable_point_ids@ == stable_ids(
                reconstruction@,
                s.point_ids@ + s.constant_point_ids@,
            )
        },
{
    let LocalNeighborhood { query_point_ids, neighbors } = neighborhood;
    let ghost r = reconstruction@;
    let ghost points = query_point_ids@;
    let n: usize = neighbors.len();
    let desired: usize = if max_num_images == 0 {
        0
    } else if max_num_images - 1 <= n {
        max_num_images - 1
    } else {
        n
    };
    if desired == 0 {
        return None;
    }
    let picks: Vec<usize> = select_picks(&neighbors, angles, rounds, desired);
    proof {
        law_desired_neighbors_are_picked(neighbors@, angles@, rounds@, desired as nat);
    }
    let mut local_images: Vec<usize> = Vec::new();
    let mut variable_images: Vec<usize> = Vec::new();
    insert_ascending(&mut variable_images, registered_image);
    for i in 0..picks.len()
        invariant
            picks@.len() == desired,
            n == neighbors@.len(),
            picks@ == picked_neighbors(neighbors@, angles@, rounds@, desired as nat),
            forall|j: int|
                0 <= j < desired ==> #[trigger] picked_neighbors(
                    neighbors@,
                    angles@,
                    rounds@,
                    desired as nat,
                )[j] < n,
            local_images@ == images_at(neighbors@, picks@).take(i as int),
            ascending(variable_images@),
            forall|x: usize| #[trigger]
                variable_images@.contains(x) <==> x == registered_image || local_images@.contains(
                    x,
                ),
    {
        let ghost before = local_images@;
        assert(picks@[i as int] < n);
        let image: usize = neighbors[picks[i]].image;
        local_images.push(image);
        insert_ascending(&mut variable_images, image);
        proof {
            assert(local_images@ =~= images_at(neighbors@, picks@).take(i + 1));
            assert forall|x: usize| #[trigger]
                variable_images@.contains(x) <==> x == registered_image || local_images@.contains(
                    x,
                ) by {
                if before.contains(x) {
                    let j = choose|j: int| 0 <= j < before.len() && before[j] == x;
                    assert(local_images@[j] == x);
                }
                assert(local_images@[i as int] == image);
                if local_images@.contains(x) && x != image {
                    let j = choose|j: int| 0 <= j < local_images@.len() && local_images@[j] == x;
                    assert(before[j] == x);
                }
            }
        }
    }
    assert(local_images@ =~= images_at(neighbors@, picks@));
    let mut varying: Vec<usize> = Vec::new();
    for i in 0..query_point_ids.len()
        invariant
            r == reconstruction@,
            points == query_point_ids@,
            varying@ == filtered(points, i as nat, point_varies(r, max_variable_track_length)),
    {
        let p: usize = query_point_ids[i];
        if p < reconstruction.points.len() {
            let point = &reconstruction.points[p];
            assert(r.points[p as int].track == point.track@);
            if point.error.le(&Real32 { bits: 0 }) || point.track.len()
                <= max_variable_track_length {
                varying.push(p);
            }
        }
    }
    let least: usize = if min_shared_points >= 2 {
        min_shared_points
    } else {
        2
    };
    let mut constant_point_ids: Vec<usize> = Vec::new();
    let point_ids: Vec<usize> = if varying.len() < least {
        proof {
            lemma_nothing_filtered(points, points.len(), points);
        }
        query_point_ids
    } else {
        for i in 0..query_point_ids.len()
            invariant
                points == query_point_ids@,
                constant_point_ids@ == filtered(points, i as nat, not_in(varying@)),
        {
            if !crate::ascending::holds(varying.as_slice(), query_point_ids[i]) {
                constant_point_ids.push(query_point_ids[i]);
            }
        }
        varying
    };
    let stable_point_ids: Vec<u64> = stable_point_ids(
        reconstruction,
        &point_ids,
        &constant_point_ids,
    );
    Some(
        LocalBundleSelection {
            variable_images,
            point_ids,
            constant_point_ids,
            stable_point_ids,
            local_images,
        },
    )
}

proof fn lemma_nothing_filtered(points: Seq<usize>, k: nat, all: Seq<usize>)
    requires
        k <= points.len(),
        points == all,
    ensures
        filtered(points, k, not_in(all)) == Seq::<usize>::empty(),
    decreases k,
{
    if k > 0 {
        lemma_nothing_filtered(points, (k - 1) as nat, all);
        assert(all.contains(points[k - 1]));
    }
}

/// Every point seen by the registered image is refined or kept fixed, never both.
pub proof fn law_points_split(
    r: ReconstructionView,
    points: Seq<usize>,
    min_shared_points: usize,
    max_track_length: usize,
    p: usize,
)
    requires
        points.contains(p),
    ensures
        ({
            let variable = variable_points(r, points, min_shared_points, max_track_length);
            variable.contains(p) != constant_points(points, variable).contains(p)
        }),
{
    let variable = variable_points(r, points, min_shared_points, max_track_length);
    lemma_filtered(points, points.len(), point_varies(r, max_track_length));
    lemma_filtered(points, points.len(), not_in(variable));
    assert(points.take(points.len() as int) =~= points);
}

/// Whether a registration has to be followed by a local refinement.
pub open spec fn refinement_required(
    r: ReconstructionView,
    registered_image: usize,
    gauge_image: usize,
    config: MapperConfig,
) -> bool {
    &&& config.local_ba
    &&& config.local_ba_iterations > 0
    &&& config.local_ba_num_images > 1
    &&& has_neighborhood(
        r,
        registered_image,
        config.local_ba_num_images,
        config.local_ba_min_shared_points,
    )
    &&& exists|image: usize| #[trigger]
        is_neighbor(
            r,
            registered_image,
            gauge_image,
            query_points(r, registered_image),
            image,
        )
}

pub fn local_bundle_refinement_required(
    reconstruction: &Reconstruction,
    registered_image: usize,
    gauge_image: usize,
    config: &MapperConfig,
) -> (b: bool)
    ensures
        b == refinement_required(reconstruction@, registered_image, gauge_image, *config),
{
    if !config.local_ba || config.local_ba_iterations == 0 {
        return false;
    }
    match local_neighborhood(
        reconstruction,
        registered_image,
        gauge_image,
        config.local_ba_num_images,
        config.local_ba_min_shared_points,
    ) {
        Some(neighborhood) => {
            let b: bool = config.local_ba_num_images > 1 && neighborhood.neighbors.len() > 0;
            proof {
                let points = neighborhood.query_point_ids@;
                if neighborhood.neighbors@.len() > 0 {
                    assert(is_neighbor(
                        reconstruction@,
                        registered_image,
                        gauge_image,
                        points,
                        neighborhood.neighbors@[0].image,
                    ));
                }
            }
            b
        },
        None => false,
    }
}

/// Why a registration is undone.
#[derive(Debug, Clone, Copy, PartialEq, Eq, Structural)]
pub enum RollbackReason {
    LocalBaFailed,
    BogusCamera,
}

impl RollbackReason {
    pub open spec fn text(self) -> Seq<char> {
        match self {
            RollbackReason::LocalBaFailed => "local_ba_failed"@,
            RollbackReason::BogusCamera => "bogus_camera"@,
        }
    }

    pub fn as_str(&self) -> (text: &'static str)
        ensures
            text@ == self.text(),
    {
        match self {
            RollbackReason::LocalBaFailed => "local_ba_failed",
            RollbackReason::BogusCamera => "bogus_camera",
        }
    }
}

/// Whether a registered image has a camera with implausible parameters.
pub open spec fn has_bogus_camera(r: ReconstructionView, image: usize) -> bool {
    r.registered(image as int) && r.camera_of(image as int).bogus
}

pub fn registration_state_has_bogus_camera(reconstruction: &Reconstruction, image: usize) -> (b:
    bool)
    ensures
        b == has_bogus_camera(reconstruction@, image),
{
    reconstruction.is_registered(image) && reconstruction.camera_for_image(image).bogus
}

/// Why a registration has to be undone, if it has to.
pub fn registration_rollback_reason(
    reconstruction: &Reconstruction,
    image: usize,
    local_ba_required: bool,
    local_ba_succeeded: bool,
) -> (reason: Option<RollbackReason>)
    ensures
        reason == (if local_ba_required && !local_ba_succeeded {
            Some(RollbackReason::LocalBaFailed)
        } else if has_bogus_camera(reconstruction@, image) {
            Some(RollbackReason::BogusCamera)
        } else {
            None
        }),
{
    if local_ba_required && !local_ba_succeeded {
        Some(RollbackReason::LocalBaFailed)
    } else if registration_state_has_bogus_camera(reconstruction, image) {
        Some(RollbackReason::BogusCamera)
    } else {
        None
    }
}

/// Selects the points whose identifier is in a set.
pub open spec fn has_stable_id(r: ReconstructionView, ids: Seq<u64>) -> spec_fn(int) -> bool {
    |p: int| ids.contains(r.point_id_of(p))
}

/// The points with the given identifiers, in ascending order.
pub fn point_indices_for_stable_point_ids(
    reconstruction: &Reconstruction,
    stable_point_ids: &[u64],
) -> (points: Vec<usize>)
    ensures
        points@ == indices_where(
            reconstruction@.points.len(),
            has_stable_id(reconstruction@, stable_point_ids@),
        ),
{
    broadcast use vstd::std_specs::hash::group_hash_axioms;

    let mut ids: HashSet<u64> = HashSet::new();
    assert(ids@ =~= stable_point_ids@.take(0).to_set());
    for k in 0..stable_point_ids.len()
        invariant
            ids@ == stable_point_ids@.take(k as int).to_set(),
    {
        ids.insert(stable_point_ids[k]);
        proof {
            let a = stable_point_ids@.take(k as int);
            let b = stable_point_ids@.take(k + 1);
            assert forall|x: u64| b.to_set().contains(x) <==> a.to_set().insert(
                stable_point_ids@[k as int],
            ).contains(x) by {
                if a.contains(x) {
                    let j = choose|j: int| 0 <= j < a.len() && a[j] == x;
                    assert(b[j] == x);
                }
                assert(b[k as int] == stable_point_ids@[k as int]);
                if b.contains(x) && x != stable_point_ids@[k as int] {
                    let j = choose|j: int| 0 <= j < b.len() && b[j] == x;
                    assert(a[j] == x);
                }
            }
            assert(b.to_set() =~= a.to_set().insert(stable_point_ids@[k as int]));
        }
    }
    assert(stable_point_ids@.take(stable_point_ids@.len() as int) =~= stable_point_ids@);
    let mut points: Vec<usize> = Vec::new();
    for p in 0..reconstruction.points.len()
        invariant
            ids@ == stable_point_ids@.to_set(),
            points@ == indices_where(
                p as nat,
                has_stable_id(reconstruction@, stable_point_ids@),
            ),
    {
        let id: u64 = reconstruction.point3d_id(p);
        assert(ids@.contains(id) <==> stable_point_ids@.contains(id));
        if ids.contains(&id) {
            points.push(p);
        }
    }
    points
}

/// Whether a new image is refined together with its neighborhood.
pub fn local_refinement_enabled(config: &MapperConfig) -> (b: bool)
    ensures
        b == (config.local_ba && config.local_ba_iterations > 0),
{
    config.local_ba && config.local_ba_iterations > 0
}

/// The points to complete after a local refinement: those that were refined, as
/// far as they are still there, and those that changed since.
pub fn points_to_complete(
    reconstruction: &Reconstruction,
    stable_point_ids: &[u64],
    modified: &Vec<usize>,
) -> (points: Vec<usize>)
    ensures
        crate::ascending::lists(
            points@,
            Set::new(
                |p: usize|
                    (p < reconstruction@.points.len() && stable_point_ids@.contains(
                        reconstruction@.point_id_of(p as int),
                    )) || modified@.contains(p),
            ),
        ),
{
    let ghost r = reconstruction@;
    let ghost q = has_stable_id(r, stable_point_ids@);
    let n: usize = reconstruction.points.len();
    let mut points: Vec<usize> = point_indices_for_stable_point_ids(
        reconstruction,
        stable_point_ids,
    );
    let ghost refined = points@;
    proof {
        crate::indices::lemma_indices_where(r.points.len(), q);
        assert forall|p: usize| #[trigger] refined.contains(p) <==> p < n && q(p as int) by {
            if p < n && q(p as int) {
                assert(refined.contains(p as int as usize));
            }
        }
    }
    for k in 0..modified.len()
        invariant
            crate::ascending::ascending(points@),
            forall|p: usize| #[trigger]
                points@.contains(p) <==> refined.contains(p) || modified@.take(
                    k as int,
                ).contains(p),
    {
        crate::ascending::insert_ascending(&mut points, modified[k]);
        proof {
            crate::registration_units::lemma_take_contains(modified@, k as int);
        }
    }
    assert(modified@.take(modified@.len() as int) =~= modified@);
    points
}

} // verus!
