//! Tracks as connected components of the matches between registered images.

use crate::disjoint_set::{lemma_partition_step, linked, DisjointSet};
use crate::links::{forward_link, has_feature, link_in_bounds, Link};
use crate::types::{ImageFrame, PairGeometry, Reconstruction, ReconstructionView, TrackObservation};
use vstd::prelude::*;

verus! {

/// No two observations share an image, and images ascend.
pub open spec fn ascends_by_image(track: Seq<TrackObservation>) -> bool {
    forall|i: int, j: int|
        0 <= i < j < track.len() ==> (#[trigger] track[i]).image < (#[trigger] track[j]).image
}

/// Whether two positions of a list name the same image.
pub open spec fn repeats_image(observations: Seq<TrackObservation>) -> bool {
    exists|i: int, j: int|
        0 <= i < j < observations.len() && (#[trigger] observations[i]).image == (
        #[trigger] observations[j]).image
}

/// Orders the observations of a track by image; there is no track if an image
/// occurs twice.
pub fn unique_track_observations(observations: Vec<TrackObservation>) -> (track: Option<
    Vec<TrackObservation>,
>)
    ensures
        track is None <==> repeats_image(observations@),
        track matches Some(t) ==> {
            &&& ascends_by_image(t@)
            &&& t@.len() == observations@.len()
            &&& forall|x: TrackObservation| #[trigger]
                t@.contains(x) <==> observations@.contains(x)
        },
{
    let mut track: Vec<TrackObservation> = Vec::new();
    for k in 0..observations.len()
        invariant
            ascends_by_image(track@),
            track@.len() == k,
            forall|i: int, j: int|
                0 <= i < j < k ==> (#[trigger] observations@[i]).image
                    != (#[trigger] observations@[j]).image,
            forall|x: TrackObservation| #[trigger]
                track@.contains(x) <==> observations@.take(k as int).contains(x),
    {
        let obs = observations[k];
        let mut p: usize = track.len();
        while p > 0 && track[p - 1].image > obs.image
            invariant
                p <= track@.len(),
                forall|j: int| p <= j < track@.len() ==> (#[trigger] track@[j]).image > obs.image,
            decreases p,
        {
            p = p - 1;
        }
        if p > 0 && track[p - 1].image == obs.image {
            proof {
                assert(track@.contains(track@[p - 1]));
                let t = observations@.take(k as int);
                assert(t.contains(track@[p - 1]));
                let i = choose|i: int| 0 <= i < t.len() && t[i] == track@[p - 1];
                assert(observations@[i].image == observations@[k as int].image);
                assert(repeats_image(observations@));
            }
            return None;
        }
        let ghost before = track@;
        track.insert(p, obs);
        proof {
            let after = track@;
            assert forall|j: int| 0 <= j < before.len() implies (#[trigger] before[j]).image
                != obs.image by {
                if j < p {
                    assert(before[p - 1].image < obs.image);
                    if j < p - 1 {
                        assert(before[j].image < before[p - 1].image);
                    }
                }
            }
            assert forall|j: int| 0 <= j < k implies (#[trigger] observations@[j]).image
                != observations@[k as int].image by {
                let t = observations@.take(k as int);
                assert(t[j] == observations@[j]);
                assert(t.contains(observations@[j]));
                assert(before.contains(observations@[j]));
                let i = choose|i: int| 0 <= i < before.len() && before[i] == observations@[j];
                assert(before[i].image != obs.image);
            }
            assert forall|i: int, j: int| 0 <= i < j < after.len() implies (#[trigger] after[i]).image
                < (#[trigger] after[j]).image by {
                let a = if i < p { i } else { i - 1 };
                let b = if j < p { j } else { j - 1 };
                if i != p && j != p {
                    assert(before[a].image < before[b].image);
                } else if j == p {
                    assert(before[i].image <= before[p - 1].image);
                    assert(before[i].image != obs.image);
                    assert(before[p - 1].image != obs.image);
                } else {
                    assert(before[b].image > obs.image);
                }
            }
            assert forall|x: TrackObservation| #[trigger] after.contains(x) <==> observations@.take(
                k + 1,
            ).contains(x) by {
                let s = observations@.take(k as int);
                let t = observations@.take(k + 1);
                assert(t =~= s.push(obs));
                assert(before.contains(x) <==> s.contains(x));
                if before.contains(x) {
                    let i = choose|i: int| 0 <= i < before.len() && before[i] == x;
                    if i < p {
                        assert(after[i] == x);
                    } else {
                        assert(after[i + 1] == x);
                    }
                }
                assert(after[p as int] == obs);
                if after.contains(x) && x != obs {
                    let i = choose|i: int| 0 <= i < after.len() && after[i] == x;
                    if i < p {
                        assert(before[i] == x);
                    } else {
                        assert(before[i - 1] == x);
                    }
                }
                if s.contains(x) {
                    let i = choose|i: int| 0 <= i < s.len() && s[i] == x;
                    assert(t[i] == x);
                }
                assert(t[k as int] == obs);
                if t.contains(x) && x != obs {
                    let i = choose|i: int| 0 <= i < t.len() && t[i] == x;
                    assert(s[i] == x);
                }
            }
        }
    }
    assert(observations@.take(observations@.len() as int) =~= observations@);
    Some(track)
}

/// The number of features of the first `n` images.
pub open spec fn feature_offset(frames: Seq<ImageFrame>, n: nat) -> nat
    decreases n,
{
    if n == 0 {
        0
    } else {
        feature_offset(frames, (n - 1) as nat) + frames[n - 1].keypoints@.len()
    }
}

/// The position of a feature among all features.
pub open spec fn feature_position(frames: Seq<ImageFrame>, image: int, feature: int) -> int {
    feature_offset(frames, image as nat) + feature
}

pub open spec fn features_fit(frames: Seq<ImageFrame>) -> bool {
    feature_offset(frames, frames.len()) <= usize::MAX
}

pub open spec fn link_edge(frames: Seq<ImageFrame>, link: Link) -> (usize, usize) {
    (
        feature_position(frames, link.image as int, link.feature as int) as usize,
        feature_position(frames, link.other_image as int, link.other_feature as int) as usize,
    )
}

/// The edges of the first `k` inlier matches of a pair.
pub open spec fn pair_edges(frames: Seq<ImageFrame>, pair: PairGeometry, k: nat) -> Seq<
    (usize, usize),
>
    decreases k,
{
    if k == 0 {
        Seq::empty()
    } else {
        let rest = pair_edges(frames, pair, (k - 1) as nat);
        let link = forward_link(pair, pair.inlier_matches@[k - 1]);
        if link_in_bounds(frames, link) {
            rest.push(link_edge(frames, link))
        } else {
            rest
        }
    }
}

/// The edges of the first `k` pairs whose images are both registered.
pub open spec fn edges_upto(
    frames: Seq<ImageFrame>,
    pairs: Seq<PairGeometry>,
    r: ReconstructionView,
    k: nat,
) -> Seq<(usize, usize)>
    decreases k,
{
    if k == 0 {
        Seq::empty()
    } else {
        let rest = edges_upto(frames, pairs, r, (k - 1) as nat);
        let pair = pairs[k - 1];
        if r.registered(pair.left as int) && r.registered(pair.right as int) {
            rest + pair_edges(frames, pair, pair.inlier_matches@.len())
        } else {
            rest
        }
    }
}

pub open spec fn is_end(edges: Seq<(usize, usize)>, position: int) -> bool {
    exists|e: int|
        0 <= e < edges.len() && ((#[trigger] edges[e]).0 == position || edges[e].1 == position)
}

/// Whether a feature of a registered image has an edge.
pub open spec fn is_active(
    frames: Seq<ImageFrame>,
    r: ReconstructionView,
    edges: Seq<(usize, usize)>,
    obs: TrackObservation,
) -> bool {
    &&& r.registered(obs.image as int)
    &&& has_feature(frames, obs.image as int, obs.feature as int)
    &&& is_end(edges, feature_position(frames, obs.image as int, obs.feature as int))
}

/// Whether two active features are connected.
pub open spec fn connected(
    frames: Seq<ImageFrame>,
    r: ReconstructionView,
    edges: Seq<(usize, usize)>,
    a: TrackObservation,
    b: TrackObservation,
) -> bool {
    &&& is_active(frames, r, edges, a)
    &&& is_active(frames, r, edges, b)
    &&& linked(
        edges,
        edges.len(),
        feature_position(frames, a.image as int, a.feature as int),
        feature_position(frames, b.image as int, b.feature as int),
    )
}

/// Whether the component of a feature makes a track: no image occurs twice,
/// and there are two features at least.
pub open spec fn makes_track(
    frames: Seq<ImageFrame>,
    r: ReconstructionView,
    edges: Seq<(usize, usize)>,
    obs: TrackObservation,
) -> bool {
    &&& is_active(frames, r, edges, obs)
    &&& forall|a: TrackObservation, b: TrackObservation| #[trigger]
        connected(frames, r, edges, obs, a) && #[trigger] connected(frames, r, edges, obs, b)
            && a.image == b.image ==> a == b
    &&& exists|a: TrackObservation| #[trigger] connected(frames, r, edges, obs, a) && a != obs
}

/// `tracks` are the components that make a track, each ordered by image.
pub open spec fn are_component_tracks(
    tracks: Seq<Vec<TrackObservation>>,
    frames: Seq<ImageFrame>,
    r: ReconstructionView,
    edges: Seq<(usize, usize)>,
) -> bool {
    &&& forall|t: int|
        0 <= t < tracks.len() ==> ascends_by_image((#[trigger] tracks[t])@) && tracks[t]@.len()
            >= 2
    &&& forall|t: int, a: TrackObservation, b: TrackObservation|
        0 <= t < tracks.len() && #[trigger] tracks[t]@.contains(a) ==> (#[trigger] tracks[t]@.contains(
            b,
        ) <==> connected(frames, r, edges, a, b))
    &&& forall|obs: TrackObservation| #[trigger]
        makes_track(frames, r, edges, obs) ==> exists|t: int|
            0 <= t < tracks.len() && (#[trigger] tracks[t])@.contains(obs)
    &&& forall|t: int, u: int, a: TrackObservation|
        0 <= t < u < tracks.len() && #[trigger] tracks[t]@.contains(a)
            ==> !(#[trigger] tracks[u]@.contains(a))
}

proof fn lemma_offset_monotone(frames: Seq<ImageFrame>, j: nat, k: nat)
    requires
        j <= k,
    ensures
        feature_offset(frames, j) <= feature_offset(frames, k),
    decreases k,
{
    if j < k {
        lemma_offset_monotone(frames, j, (k - 1) as nat);
    }
}

/// A feature's position is below the number of features.
proof fn lemma_position_bound(frames: Seq<ImageFrame>, image: int, feature: int)
    requires
        has_feature(frames, image, feature),
    ensures
        0 <= feature_position(frames, image, feature) < feature_offset(frames, frames.len()),
{
    lemma_offset_monotone(frames, (image + 1) as nat, frames.len());
}

fn feature_offsets(frames: &[ImageFrame]) -> (offsets: Vec<usize>)
    requires
        features_fit(frames@),
    ensures
        offsets@.len() == frames@.len() + 1,
        forall|i: int| 0 <= i <= frames@.len() ==> #[trigger] offsets@[i] == feature_offset(frames@, i as nat),
{
    let mut offsets: Vec<usize> = Vec::new();
    let mut total: usize = 0;
    offsets.push(0);
    for i in 0..frames.len()
        invariant
            features_fit(frames@),
            offsets@.len() == i + 1,
            total == feature_offset(frames@, i as nat),
            forall|j: int| 0 <= j <= i ==> #[trigger] offsets@[j] == feature_offset(frames@, j as nat),
    {
        proof {
            lemma_offset_monotone(frames@, (i + 1) as nat, frames@.len());
        }
        total = total + frames[i].keypoints.len();
        offsets.push(total);
    }
    offsets
}

/// Partition and active features after some edges.
struct Components {
    set: DisjointSet,
    active: Vec<bool>,
}

impl Components {
    spec fn holds(self, edges: Seq<(usize, usize)>, total: nat) -> bool {
        &&& self.set.well_formed()
        &&& self.set.size() == total
        &&& self.set.partitions(edges, edges.len())
        &&& self.active@.len() == total
        &&& forall|g: int| 0 <= g < total ==> #[trigger] self.active@[g] == is_end(edges, g)
    }

    fn add_edge(&mut self, a: usize, b: usize, Ghost(edges): Ghost<Seq<(usize, usize)>>)
        requires
            old(self).holds(edges, old(self).set.size()),
            a < old(self).set.size(),
            b < old(self).set.size(),
        ensures
            final(self).holds(edges.push((a, b)), old(self).set.size()),
            final(self).set.size() == old(self).set.size(),
    {
        let ghost before = self.set;
        let ghost flags = self.active@;
        let ghost more = edges.push((a, b));
        proof {
            lemma_linked_prefix(edges, more, edges.len());
        }
        self.set.union(a, b);
        self.active[a] = true;
        self.active[b] = true;
        proof {
            assert(before.partitions(more, edges.len()));
            lemma_partition_step(before, self.set, more, edges.len());
            assert forall|g: int| 0 <= g < flags.len() implies #[trigger] self.active@[g] == is_end(
                more,
                g,
            ) by {
                assert(flags[g] == is_end(edges, g));
                if is_end(edges, g) {
                    let e = choose|e: int|
                        0 <= e < edges.len() && ((#[trigger] edges[e]).0 == g || edges[e].1 == g);
                    assert(more[e] == edges[e]);
                }
                assert(more[edges.len() as int] == (a, b));
                if is_end(more, g) && g != a && g != b {
                    let e = choose|e: int|
                        0 <= e < more.len() && ((#[trigger] more[e]).0 == g || more[e].1 == g);
                    assert(edges[e] == more[e]);
                }
            }
        }
    }
}

/// Links depend only on the edges used.
proof fn lemma_linked_prefix(a: Seq<(usize, usize)>, b: Seq<(usize, usize)>, k: nat)
    requires
        k <= a.len(),
        k <= b.len(),
        forall|e: int| 0 <= e < k ==> a[e] == b[e],
    ensures
        forall|x: int, y: int| #[trigger] linked(a, k, x, y) == linked(b, k, x, y),
    decreases k,
{
    if k > 0 {
        lemma_linked_prefix(a, b, (k - 1) as nat);
        let m = (k - 1) as nat;
        assert forall|x: int, y: int| #[trigger] linked(a, k, x, y) == linked(b, k, x, y) by {
            let (u, v) = a[k - 1];
            assert(linked(a, m, x, y) == linked(b, m, x, y));
            assert(linked(a, m, x, u as int) == linked(b, m, x, u as int));
            assert(linked(a, m, x, v as int) == linked(b, m, x, v as int));
            assert(linked(a, m, u as int, y) == linked(b, m, u as int, y));
            assert(linked(a, m, v as int, y) == linked(b, m, v as int, y));
        }
    }
}

fn connect_pairs(
    frames: &[ImageFrame],
    pairs: &[PairGeometry],
    reconstruction: &Reconstruction,
    offsets: &Vec<usize>,
    total: usize,
) -> (components: Components)
    requires
        features_fit(frames@),
        total == feature_offset(frames@, frames@.len()),
        offsets@.len() == frames@.len() + 1,
        forall|i: int| 0 <= i <= frames@.len() ==> #[trigger] offsets@[i] == feature_offset(frames@, i as nat),
    ensures
        components.holds(
            edges_upto(frames@, pairs@, reconstruction@, pairs@.len()),
            total as nat,
        ),
{
    let ghost r = reconstruction@;
    let mut active: Vec<bool> = Vec::new();
    for g in 0..total
        invariant
            active@.len() == g,
            forall|h: int| 0 <= h < g ==> !active@[h],
    {
        active.push(false);
    }
    let mut components = Components { set: DisjointSet::new(total), active };
    for p in 0..pairs.len()
        invariant
            r == reconstruction@,
            features_fit(frames@),
            total == feature_offset(frames@, frames@.len()),
            offsets@.len() == frames@.len() + 1,
            forall|i: int|
                0 <= i <= frames@.len() ==> #[trigger] offsets@[i] == feature_offset(frames@, i as nat),
            components.holds(edges_upto(frames@, pairs@, r, p as nat), total as nat),
    {
        let pair = &pairs[p];
        let ghost start = edges_upto(frames@, pairs@, r, p as nat);
        if reconstruction.is_registered(pair.left) && reconstruction.is_registered(pair.right) {
            proof {
                assert(start + pair_edges(frames@, *pair, 0) =~= start);
            }
            for k in 0..pair.inlier_matches.len()
                invariant
                    features_fit(frames@),
                    total == feature_offset(frames@, frames@.len()),
                    offsets@.len() == frames@.len() + 1,
                    forall|i: int|
                        0 <= i <= frames@.len() ==> #[trigger] offsets@[i] == feature_offset(
                            frames@,
                            i as nat,
                        ),
                    components.holds(start + pair_edges(frames@, *pair, k as nat), total as nat),
            {
                let m = pair.inlier_matches[k];
                let li: usize = m.query_idx as usize;
                let ri: usize = m.train_idx as usize;
                let ghost edges = start + pair_edges(frames@, *pair, k as nat);
                if pair.left < frames.len() && pair.right < frames.len() && li
                    < frames[pair.left].keypoints.len() && ri < frames[pair.right].keypoints.len() {
                    proof {
                        lemma_position_bound(frames@, pair.left as int, li as int);
                        lemma_position_bound(frames@, pair.right as int, ri as int);
                        assert(offsets@[pair.left as int] == feature_offset(
                            frames@,
                            pair.left as nat,
                        ));
                        assert(offsets@[pair.right as int] == feature_offset(
                            frames@,
                            pair.right as nat,
                        ));
                    }
                    let a: usize = offsets[pair.left] + li;
                    let b: usize = offsets[pair.right] + ri;
                    components.add_edge(a, b, Ghost(edges));
                    proof {
                        assert(edges.push((a, b)) =~= start + pair_edges(
                            frames@,
                            *pair,
                            (k + 1) as nat,
                        ));
                    }
                } else {
                    proof {
                        assert(!link_in_bounds(
                            frames@,
                            forward_link(*pair, pair.inlier_matches@[k as int]),
                        ));
                    }
                }
            }
        }
    }
    components
}

/// Groups of active features by component, while features are visited.
spec fn groups_hold(
    groups: Seq<Vec<TrackObservation>>,
    frames: Seq<ImageFrame>,
    r: ReconstructionView,
    edges: Seq<(usize, usize)>,
    set: DisjointSet,
    image: int,
    feature: int,
) -> bool {
    &&& forall|g: int, obs: TrackObservation|
        0 <= g < groups.len() ==> (#[trigger] groups[g]@.contains(obs) <==> {
            &&& is_active(frames, r, edges, obs)
            &&& set.root(feature_position(frames, obs.image as int, obs.feature as int)) == g
            &&& visited(obs, image, feature)
        })
    &&& forall|g: int, i: int, j: int|
        0 <= g < groups.len() && 0 <= i < j < groups[g]@.len() ==> (#[trigger] groups[g]@[i])
            != (#[trigger] groups[g]@[j])
}

/// Whether a feature comes before a position in the order of visits.
spec fn visited(obs: TrackObservation, image: int, feature: int) -> bool {
    obs.image < image || (obs.image == image && obs.feature < feature)
}

/// The tracks of the matches between registered images.
pub fn pair_graph_tracks(
    frames: &[ImageFrame],
    pairs: &[PairGeometry],
    reconstruction: &Reconstruction,
) -> (tracks: Vec<Vec<TrackObservation>>)
    requires
        features_fit(frames@),
    ensures
        are_component_tracks(
            tracks@,
            frames@,
            reconstruction@,
            edges_upto(frames@, pairs@, reconstruction@, pairs@.len()),
        ),
{
    let ghost r = reconstruction@;
    let ghost edges = edges_upto(frames@, pairs@, r, pairs@.len());
    let offsets: Vec<usize> = feature_offsets(frames);
    let total: usize = offsets[frames.len()];
    let mut components: Components = connect_pairs(frames, pairs, reconstruction, &offsets, total);
    let ghost base = components.set;
    proof {
        base.lemma_roots_in_range();
    }
    let mut groups: Vec<Vec<TrackObservation>> = Vec::new();
    for g in 0..total
        invariant
            groups@.len() == g,
            forall|h: int| 0 <= h < g ==> (#[trigger] groups@[h])@ == Seq::<TrackObservation>::empty(),
    {
        groups.push(Vec::new());
    }
    for image in 0..frames.len()
        invariant
            r == reconstruction@,
            features_fit(frames@),
            total == feature_offset(frames@, frames@.len()),
            offsets@.len() == frames@.len() + 1,
            forall|i: int|
                0 <= i <= frames@.len() ==> #[trigger] offsets@[i] == feature_offset(frames@, i as nat),
            components.holds(edges, total as nat),
            base.size() == total,
            forall|g: int| 0 <= g < total ==> #[trigger] components.set.root(g) == base.root(g),
            groups@.len() == total,
            groups_hold(groups@, frames@, r, edges, base, image as int, 0),
    {
        let width: usize = frames[image].keypoints.len();
        if reconstruction.is_registered(image) {
            for feature in 0..width
                invariant
                    image < frames@.len(),
                    width == frames@[image as int].keypoints@.len(),
                    r.registered(image as int),
                    features_fit(frames@),
                    total == feature_offset(frames@, frames@.len()),
                    offsets@.len() == frames@.len() + 1,
                    forall|i: int|
                        0 <= i <= frames@.len() ==> #[trigger] offsets@[i] == feature_offset(
                            frames@,
                            i as nat,
                        ),
                    components.holds(edges, total as nat),
                    base.size() == total,
                    forall|g: int|
                        0 <= g < total ==> #[trigger] components.set.root(g) == base.root(g),
                    groups@.len() == total,
                    groups_hold(groups@, frames@, r, edges, base, image as int, feature as int),
            {
                proof {
                    lemma_position_bound(frames@, image as int, feature as int);
                    assert(offsets@[image as int] == feature_offset(frames@, image as nat));
                }
                let global: usize = offsets[image] + feature;
                let obs = TrackObservation { image, feature };
                let ghost before = groups@;
                if components.active[global] {
                    let ghost prior = components.set;
                    let root: usize = components.set.find(global);
                    proof {
                        lemma_partition_kept(prior, components.set, edges);
                    }
                    let mut group: Vec<TrackObservation> = Vec::new();
                    core::mem::swap(&mut group, &mut groups[root]);
                    group.push(obs);
                    groups[root] = group;
                    proof {
                        lemma_groups_push(
                            before,
                            groups@,
                            frames@,
                            r,
                            edges,
                            base,
                            image as int,
                            feature as int,
                            root as int,
                        );
                    }
                } else {
                    proof {
                        lemma_groups_skip(
                            before,
                            frames@,
                            r,
                            edges,
                            base,
                            image as int,
                            feature as int,
                        );
                    }
                }
            }
            proof {
                lemma_groups_next_image(
                    groups@,
                    frames@,
                    r,
                    edges,
                    base,
                    image as int,
                    width as int,
                );
            }
        } else {
            proof {
                lemma_groups_next_image(groups@, frames@, r, edges, base, image as int, 0);
            }
        }
    }
    tracks_of_groups(
        groups,
        Ghost(frames@),
        Ghost(r),
        Ghost(edges),
        Ghost(base),
    )
}

proof fn lemma_partition_kept(before: DisjointSet, after: DisjointSet, edges: Seq<(usize, usize)>)
    requires
        before.partitions(edges, edges.len()),
        after.size() == before.size(),
        forall|y: int| 0 <= y < before.size() ==> #[trigger] after.root(y) == before.root(y),
    ensures
        after.partitions(edges, edges.len()),
{
    assert forall|x: int, y: int|
        0 <= x < after.size() && 0 <= y < after.size() implies (#[trigger] after.root(x)
        == #[trigger] after.root(y) <==> linked(edges, edges.len(), x, y)) by {
        assert(after.root(x) == before.root(x));
        assert(after.root(y) == before.root(y));
    }
}

proof fn lemma_groups_push(
    before: Seq<Vec<TrackObservation>>,
    after: Seq<Vec<TrackObservation>>,
    frames: Seq<ImageFrame>,
    r: ReconstructionView,
    edges: Seq<(usize, usize)>,
    set: DisjointSet,
    image: int,
    feature: int,
    root: int,
)
    requires
        groups_hold(before, frames, r, edges, set, image, feature),
        0 <= image <= usize::MAX,
        0 <= feature <= usize::MAX,
        0 <= root < before.len(),
        after.len() == before.len(),
        after[root]@ == before[root]@.push(
            (TrackObservation { image: image as usize, feature: feature as usize }),
        ),
        forall|g: int| 0 <= g < before.len() && g != root ==> #[trigger] after[g] == before[g],
        is_active(
            frames,
            r,
            edges,
            (TrackObservation { image: image as usize, feature: feature as usize }),
        ),
        set.root(feature_position(frames, image, feature)) == root,
    ensures
        groups_hold(after, frames, r, edges, set, image, feature + 1),
{
    let new = TrackObservation { image: image as usize, feature: feature as usize };
    assert forall|g: int, obs: TrackObservation|
        0 <= g < after.len() implies (#[trigger] after[g]@.contains(obs) <==> {
        &&& is_active(frames, r, edges, obs)
        &&& set.root(feature_position(frames, obs.image as int, obs.feature as int)) == g
        &&& visited(obs, image, feature + 1)
    }) by {
        assert(before[g]@.contains(obs) <==> {
            &&& is_active(frames, r, edges, obs)
            &&& set.root(feature_position(frames, obs.image as int, obs.feature as int)) == g
            &&& visited(obs, image, feature)
        });
        if g == root {
            let b = before[root]@;
            let a = after[root]@;
            if b.contains(obs) {
                let i = choose|i: int| 0 <= i < b.len() && b[i] == obs;
                assert(a[i] == obs);
            }
            assert(a[b.len() as int] == new);
            if a.contains(obs) && obs != new {
                let i = choose|i: int| 0 <= i < a.len() && a[i] == obs;
                assert(b[i] == obs);
            }
        }
    }
    assert forall|g: int, i: int, j: int|
        0 <= g < after.len() && 0 <= i < j < after[g]@.len() implies (#[trigger] after[g]@[i]) != (
    #[trigger] after[g]@[j]) by {
        if g == root {
            let b = before[root]@;
            if j < b.len() {
                assert(b[i] != b[j]);
            } else {
                assert(b.contains(b[i]));
                assert(before[root]@.contains(b[i]));
                assert(visited(b[i], image, feature));
            }
        } else {
            assert(before[g]@[i] != before[g]@[j]);
        }
    }
}

proof fn lemma_groups_skip(
    groups: Seq<Vec<TrackObservation>>,
    frames: Seq<ImageFrame>,
    r: ReconstructionView,
    edges: Seq<(usize, usize)>,
    set: DisjointSet,
    image: int,
    feature: int,
)
    requires
        groups_hold(groups, frames, r, edges, set, image, feature),
        0 <= image <= usize::MAX,
        0 <= feature <= usize::MAX,
        !is_active(
            frames,
            r,
            edges,
            (TrackObservation { image: image as usize, feature: feature as usize }),
        ),
    ensures
        groups_hold(groups, frames, r, edges, set, image, feature + 1),
{
    assert forall|g: int, obs: TrackObservation|
        0 <= g < groups.len() implies (#[trigger] groups[g]@.contains(obs) <==> {
        &&& is_active(frames, r, edges, obs)
        &&& set.root(feature_position(frames, obs.image as int, obs.feature as int)) == g
        &&& visited(obs, image, feature + 1)
    }) by {
        if obs.image == image && obs.feature == feature {
            assert(obs == (TrackObservation { image: image as usize, feature: feature as usize }));
        }
    }
}

proof fn lemma_groups_next_image(
    groups: Seq<Vec<TrackObservation>>,
    frames: Seq<ImageFrame>,
    r: ReconstructionView,
    edges: Seq<(usize, usize)>,
    set: DisjointSet,
    image: int,
    feature: int,
)
    requires
        groups_hold(groups, frames, r, edges, set, image, feature),
        0 <= image < frames.len(),
        !r.registered(image) || feature == frames[image].keypoints@.len(),
    ensures
        groups_hold(groups, frames, r, edges, set, image + 1, 0),
{
    assert forall|g: int, obs: TrackObservation|
        0 <= g < groups.len() implies (#[trigger] groups[g]@.contains(obs) <==> {
        &&& is_active(frames, r, edges, obs)
        &&& set.root(feature_position(frames, obs.image as int, obs.feature as int)) == g
        &&& visited(obs, image + 1, 0)
    }) by {}
}

/// Keeps the groups that make a track.
fn tracks_of_groups(
    groups: Vec<Vec<TrackObservation>>,
    Ghost(frames): Ghost<Seq<ImageFrame>>,
    Ghost(r): Ghost<ReconstructionView>,
    Ghost(edges): Ghost<Seq<(usize, usize)>>,
    Ghost(set): Ghost<DisjointSet>,
) -> (tracks: Vec<Vec<TrackObservation>>)
    requires
        groups@.len() == feature_offset(frames, frames.len()),
        set.size() == groups@.len(),
        set.partitions(edges, edges.len()),
        forall|x: int| 0 <= x < set.size() ==> 0 <= #[trigger] set.root(x) < set.size(),
        groups_hold(groups@, frames, r, edges, set, frames.len() as int, 0),
    ensures
        are_component_tracks(tracks@, frames, r, edges),
{
    let mut tracks: Vec<Vec<TrackObservation>> = Vec::new();
    // for each track the group it comes from
    let ghost mut source = Seq::<int>::empty();
    let mut rest: Vec<Vec<TrackObservation>> = groups;
    let n: usize = rest.len();
    let ghost all = rest@;
    for g in 0..n
        invariant
            n == all.len(),
            rest@.len() == n,
            forall|h: int| g <= h < n ==> #[trigger] rest@[h] == all[h],
            groups_hold(all, frames, r, edges, set, frames.len() as int, 0),
            source.len() == tracks@.len(),
            forall|t: int| 0 <= t < source.len() ==> 0 <= #[trigger] source[t] < g,
            forall|t: int, u: int|
                0 <= t < u < source.len() ==> #[trigger] source[t] < #[trigger] source[u],
            forall|t: int|
                0 <= t < tracks@.len() ==> ascends_by_image((#[trigger] tracks@[t])@)
                    && tracks@[t]@.len() >= 2,
            forall|t: int, x: TrackObservation|
                0 <= t < tracks@.len() ==> (#[trigger] tracks@[t]@.contains(x) <==> all[source[t]]@.contains(
                    x,
                )),
            forall|h: int|
                0 <= h < g && !repeats_image((#[trigger] all[h])@) && all[h]@.len() >= 2
                    ==> source.contains(h),
    {
        let mut group: Vec<TrackObservation> = Vec::new();
        core::mem::swap(&mut group, &mut rest[g]);
        let ghost contents = group@;
        let ghost sources_before = source;
        let ghost before = tracks@;
        assert(contents == all[g as int]@);
        if let Some(track) = unique_track_observations(group) {
            if track.len() >= 2 {
                tracks.push(track);
                proof {
                    source = source.push(g as int);
                    assert(source[sources_before.len() as int] == g);
                }
            }
        }
        proof {
            assert forall|h: int|
                0 <= h < g + 1 && !repeats_image((#[trigger] all[h])@) && all[h]@.len()
                    >= 2 implies source.contains(h) by {
                if h < g {
                    assert(sources_before.contains(h));
                    let t = choose|t: int| 0 <= t < sources_before.len() && sources_before[t] == h;
                    assert(source[t] == h);
                }
            }
            assert forall|t: int, x: TrackObservation|
                0 <= t < tracks@.len() implies (#[trigger] tracks@[t]@.contains(x)
                <==> all[source[t]]@.contains(x)) by {
                if t < before.len() {
                    assert(tracks@[t] == before[t]);
                    assert(before[t]@.contains(x) <==> all[sources_before[t]]@.contains(x));
                }
            }
        }
    }
    proof {
        assert forall|t: int, a: TrackObservation, b: TrackObservation|
            0 <= t < tracks@.len() && #[trigger] tracks@[t]@.contains(a) implies (
        #[trigger] tracks@[t]@.contains(b) <==> connected(frames, r, edges, a, b)) by {
            let g = source[t];
            assert(all[g]@.contains(a));
            assert(all[g]@.contains(b) <==> tracks@[t]@.contains(b));
            lemma_group_is_component(all, frames, r, edges, set, g, a, b);
        }
        assert forall|obs: TrackObservation| #[trigger]
            makes_track(frames, r, edges, obs) implies exists|t: int|
            0 <= t < tracks@.len() && (#[trigger] tracks@[t])@.contains(obs) by {
            let x = feature_position(frames, obs.image as int, obs.feature as int);
            lemma_position_bound(frames, obs.image as int, obs.feature as int);
            let g = set.root(x);
            assert(0 <= g < n);
            assert(all[g]@.contains(obs));
            let other = choose|a: TrackObservation| #[trigger]
                connected(frames, r, edges, obs, a) && a != obs;
            lemma_group_is_component(all, frames, r, edges, set, g, obs, other);
            let i = choose|i: int| 0 <= i < all[g]@.len() && all[g]@[i] == obs;
            let j = choose|j: int| 0 <= j < all[g]@.len() && all[g]@[j] == other;
            assert(i != j);
            assert(all[g]@.len() >= 2);
            if repeats_image(all[g]@) {
                let (p, q) = choose|p: int, q: int|
                    0 <= p < q < all[g]@.len() && (#[trigger] all[g]@[p]).image == (
                    #[trigger] all[g]@[q]).image;
                let a = all[g]@[p];
                let b = all[g]@[q];
                assert(all[g]@.contains(a));
                assert(all[g]@.contains(b));
                lemma_group_is_component(all, frames, r, edges, set, g, obs, a);
                lemma_group_is_component(all, frames, r, edges, set, g, obs, b);
                assert(connected(frames, r, edges, obs, a));
                assert(connected(frames, r, edges, obs, b));
                assert(all[g]@[p] != all[g]@[q]);
            }
            assert(source.contains(g));
            let t = choose|t: int| 0 <= t < source.len() && source[t] == g;
            assert(tracks@[t]@.contains(obs) <==> all[source[t]]@.contains(obs));
        }
        assert forall|t: int, u: int, a: TrackObservation|
            0 <= t < u < tracks@.len() && #[trigger] tracks@[t]@.contains(a) implies !(
        #[trigger] tracks@[u]@.contains(a)) by {
            assert(all[source[t]]@.contains(a));
            assert(source[t] < source[u]);
            if tracks@[u]@.contains(a) {
                assert(all[source[u]]@.contains(a));
            }
        }
    }
    tracks
}

proof fn lemma_group_is_component(
    groups: Seq<Vec<TrackObservation>>,
    frames: Seq<ImageFrame>,
    r: ReconstructionView,
    edges: Seq<(usize, usize)>,
    set: DisjointSet,
    g: int,
    a: TrackObservation,
    b: TrackObservation,
)
    requires
        0 <= g < groups.len(),
        groups_hold(groups, frames, r, edges, set, frames.len() as int, 0),
        set.size() == feature_offset(frames, frames.len()),
        set.partitions(edges, edges.len()),
        groups[g]@.contains(a),
    ensures
        groups[g]@.contains(b) <==> connected(frames, r, edges, a, b),
{
    let x = feature_position(frames, a.image as int, a.feature as int);
    let y = feature_position(frames, b.image as int, b.feature as int);
    lemma_position_bound(frames, a.image as int, a.feature as int);
    if is_active(frames, r, edges, b) {
        lemma_position_bound(frames, b.image as int, b.feature as int);
        assert(set.root(x) == set.root(y) <==> linked(edges, edges.len(), x, y));
    }
}

} // verus!
