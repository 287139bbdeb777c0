//! Tracks, colors and models to start from, said of matches and features.

use crate::camera_setup::{last_index, names_view};
use crate::colors::{
    color_total, feature_colored, final_color, image_colored, images_colored, is_black,
    points_colored, row_width, Coloring,
};
use crate::disjoint_set::{law_links_are_an_equivalence, linked};
use crate::indices::{
    count_where, indices_where, lemma_count_bound, lemma_count_positive, lemma_indices_where,
};
use crate::links::{forward_link, has_feature, link_in_bounds};
use crate::pair_laws::law_last_position;
use crate::pair_tracks::{
    connected, edges_upto, feature_offset, feature_position, features_fit, link_edge, pair_edges,
};
use crate::seeding::{
    carries_over, counterpart, existing_track, moved_observation, moved_track, seed_index,
    seed_of, seed_point_ids, seed_points, seeded_points, seeded_poses, slot_claimed, slot_given,
    track_claimed, whole_track,
};
use crate::types::{
    ImageFrame, PairGeometry, Point3DView, Pose, ReconstructionView, TrackObservation,
};
use vstd::prelude::*;

verus! {

proof fn lemma_offsets_grow(frames: Seq<ImageFrame>, j: nat, k: nat)
    requires
        j <= k,
    ensures
        feature_offset(frames, j) <= feature_offset(frames, k),
    decreases k,
{
    if j < k {
        lemma_offsets_grow(frames, j, (k - 1) as nat);
    }
}

/// Different features have different positions.
pub proof fn law_positions_differ(
    frames: Seq<ImageFrame>,
    a: TrackObservation,
    b: TrackObservation,
)
    requires
        has_feature(frames, a.image as int, a.feature as int),
        has_feature(frames, b.image as int, b.feature as int),
    ensures
        feature_position(frames, a.image as int, a.feature as int) == feature_position(
            frames,
            b.image as int,
            b.feature as int,
        ) ==> a == b,
        feature_position(frames, a.image as int, a.feature as int) < feature_offset(
            frames,
            frames.len(),
        ),
{
    lemma_offsets_grow(frames, (a.image + 1) as nat, frames.len());
    if a.image < b.image {
        lemma_offsets_grow(frames, (a.image + 1) as nat, b.image as nat);
    }
    if b.image < a.image {
        lemma_offsets_grow(frames, (b.image + 1) as nat, a.image as nat);
    }
}

/// Whether match `i` of a pair joins two existing features of registered images.
pub open spec fn ties(
    frames: Seq<ImageFrame>,
    r: ReconstructionView,
    pair: PairGeometry,
    i: int,
    a: TrackObservation,
    b: TrackObservation,
) -> bool {
    let m = pair.inlier_matches@[i];
    &&& 0 <= i < pair.inlier_matches@.len()
    &&& a.image == pair.left && a.feature == m.query_idx as usize
    &&& b.image == pair.right && b.feature == m.train_idx as usize
    &&& r.registered(a.image as int) && r.registered(b.image as int)
    &&& a.image < frames.len() && a.feature < frames[a.image as int].keypoints@.len()
    &&& b.image < frames.len() && b.feature < frames[b.image as int].keypoints@.len()
}

proof fn lemma_edge_of_match(frames: Seq<ImageFrame>, pair: PairGeometry, k: nat, i: int)
    requires
        0 <= i < k <= pair.inlier_matches@.len(),
        link_in_bounds(frames, forward_link(pair, pair.inlier_matches@[i])),
    ensures
        pair_edges(frames, pair, k).contains(
            link_edge(frames, forward_link(pair, pair.inlier_matches@[i])),
        ),
    decreases k,
{
    let rest = pair_edges(frames, pair, (k - 1) as nat);
    let all = pair_edges(frames, pair, k);
    let edge = link_edge(frames, forward_link(pair, pair.inlier_matches@[i]));
    if i < k - 1 {
        lemma_edge_of_match(frames, pair, (k - 1) as nat, i);
        let x = choose|x: int| 0 <= x < rest.len() && rest[x] == edge;
        assert(all[x] == edge);
    } else {
        assert(all[rest.len() as int] == edge);
    }
}

proof fn lemma_edge_of_pair(
    frames: Seq<ImageFrame>,
    pairs: Seq<PairGeometry>,
    r: ReconstructionView,
    k: nat,
    j: int,
    edge: (usize, usize),
)
    requires
        0 <= j < k <= pairs.len(),
        r.registered(pairs[j].left as int),
        r.registered(pairs[j].right as int),
        pair_edges(frames, pairs[j], pairs[j].inlier_matches@.len()).contains(edge),
    ensures
        edges_upto(frames, pairs, r, k).contains(edge),
    decreases k,
{
    let rest = edges_upto(frames, pairs, r, (k - 1) as nat);
    let all = edges_upto(frames, pairs, r, k);
    if j < k - 1 {
        lemma_edge_of_pair(frames, pairs, r, (k - 1) as nat, j, edge);
        let x = choose|x: int| 0 <= x < rest.len() && rest[x] == edge;
        assert(all[x] == edge);
    } else {
        let own = pair_edges(frames, pairs[j], pairs[j].inlier_matches@.len());
        let x = choose|x: int| 0 <= x < own.len() && own[x] == edge;
        assert(all[rest.len() + x] == edge);
    }
}

proof fn lemma_edge_links(edges: Seq<(usize, usize)>, k: nat, e: int)
    requires
        0 <= e < k <= edges.len(),
    ensures
        linked(edges, k, edges[e].0 as int, edges[e].1 as int),
    decreases k,
{
    let (a, b) = edges[e];
    if e < k - 1 {
        lemma_edge_links(edges, (k - 1) as nat, e);
    } else {
        law_links_are_an_equivalence(edges, (k - 1) as nat, a as int, a as int, a as int);
        law_links_are_an_equivalence(edges, (k - 1) as nat, b as int, b as int, b as int);
    }
}

/// Two existing features of registered images that a match joins belong to the
/// same track.
pub proof fn law_matched_features_connect(
    frames: Seq<ImageFrame>,
    pairs: Seq<PairGeometry>,
    r: ReconstructionView,
    j: int,
    i: int,
    a: TrackObservation,
    b: TrackObservation,
)
    requires
        features_fit(frames),
        0 <= j < pairs.len(),
        ties(frames, r, pairs[j], i, a, b),
    ensures
        connected(frames, r, edges_upto(frames, pairs, r, pairs.len()), a, b),
{
    let edges = edges_upto(frames, pairs, r, pairs.len());
    let pair = pairs[j];
    let edge = link_edge(frames, forward_link(pair, pair.inlier_matches@[i]));
    lemma_edge_of_match(frames, pair, pair.inlier_matches@.len(), i);
    lemma_edge_of_pair(frames, pairs, r, pairs.len(), j, edge);
    let e = choose|e: int| 0 <= e < edges.len() && edges[e] == edge;
    law_positions_differ(frames, a, a);
    law_positions_differ(frames, b, b);
    assert(edges[e].0 == feature_position(frames, a.image as int, a.feature as int));
    assert(edges[e].1 == feature_position(frames, b.image as int, b.feature as int));
    lemma_edge_links(edges, edges.len(), e);
}

/// Every edge comes from a match that joins two existing features of registered
/// images.
pub proof fn law_edges_are_matches(
    frames: Seq<ImageFrame>,
    pairs: Seq<PairGeometry>,
    r: ReconstructionView,
    k: nat,
    e: int,
)
    requires
        features_fit(frames),
        k <= pairs.len(),
        0 <= e < edges_upto(frames, pairs, r, k).len(),
    ensures
        exists|j: int, i: int, a: TrackObservation, b: TrackObservation| {
            &&& 0 <= j < k
            &&& #[trigger] ties(frames, r, pairs[j], i, a, b)
            &&& edges_upto(frames, pairs, r, k)[e] == (
                feature_position(frames, a.image as int, a.feature as int) as usize,
                feature_position(frames, b.image as int, b.feature as int) as usize,
            )
        },
    decreases k,
{
    let rest = edges_upto(frames, pairs, r, (k - 1) as nat);
    if e < rest.len() {
        law_edges_are_matches(frames, pairs, r, (k - 1) as nat, e);
        let (j, i, a, b) = choose|j: int, i: int, a: TrackObservation, b: TrackObservation| {
            &&& 0 <= j < k - 1
            &&& #[trigger] ties(frames, r, pairs[j], i, a, b)
            &&& rest[e] == (
                feature_position(frames, a.image as int, a.feature as int) as usize,
                feature_position(frames, b.image as int, b.feature as int) as usize,
            )
        };
        assert(ties(frames, r, pairs[j], i, a, b));
    } else {
        let pair = pairs[k - 1];
        lemma_match_of_edge(frames, pair, pair.inlier_matches@.len(), e - rest.len());
        let own = pair_edges(frames, pair, pair.inlier_matches@.len());
        let i = choose|i: int|
            0 <= i < pair.inlier_matches@.len() && link_in_bounds(
                frames,
                forward_link(pair, #[trigger] pair.inlier_matches@[i]),
            ) && own[e - rest.len()] == link_edge(
                frames,
                forward_link(pair, pair.inlier_matches@[i]),
            );
        let link = forward_link(pair, pair.inlier_matches@[i]);
        let a = TrackObservation { image: link.image, feature: link.feature };
        let b = TrackObservation { image: link.other_image, feature: link.other_feature };
        assert(ties(frames, r, pairs[k - 1], i, a, b));
    }
}

proof fn lemma_match_of_edge(frames: Seq<ImageFrame>, pair: PairGeometry, k: nat, e: int)
    requires
        k <= pair.inlier_matches@.len(),
        0 <= e < pair_edges(frames, pair, k).len(),
    ensures
        exists|i: int|
            0 <= i < k && link_in_bounds(
                frames,
                forward_link(pair, #[trigger] pair.inlier_matches@[i]),
            ) && pair_edges(frames, pair, k)[e] == link_edge(
                frames,
                forward_link(pair, pair.inlier_matches@[i]),
            ),
    decreases k,
{
    let rest = pair_edges(frames, pair, (k - 1) as nat);
    if e < rest.len() {
        lemma_match_of_edge(frames, pair, (k - 1) as nat, e);
        let i = choose|i: int|
            0 <= i < k - 1 && link_in_bounds(
                frames,
                forward_link(pair, #[trigger] pair.inlier_matches@[i]),
            ) && rest[e] == link_edge(frames, forward_link(pair, pair.inlier_matches@[i]));
        assert(pair.inlier_matches@[i] == pair.inlier_matches@[i]);
    } else {
        assert(pair.inlier_matches@[k - 1] == pair.inlier_matches@[k - 1]);
    }
}

/// Coloring from an image leaves points with a color alone. A black point gets the
/// color of a feature that observes it, and is black afterwards only if every such
/// feature is.
pub proof fn law_image_colors(
    s: Coloring,
    frames: Seq<ImageFrame>,
    r: ReconstructionView,
    image: usize,
    k: nat,
    p: int,
)
    requires
        0 <= p < s.points.len() <= usize::MAX,
        image < frames.len(),
    ensures
        ({
            let t = image_colored(s, frames, r, image, k);
            &&& t.points.len() == s.points.len()
            &&& !is_black(s.points[p].color) ==> t.points[p] == s.points[p]
            &&& t.points[p].track == s.points[p].track && t.points[p].xyz == s.points[p].xyz
            &&& t.points[p] != s.points[p] ==> exists|f: int|
                0 <= f < k && f < frames[image as int].colors@.len() && #[trigger] r.observed(
                    image as int,
                    f,
                ) == Some(p as usize) && t.points[p].color == frames[image as int].colors@[f]
            &&& is_black(t.points[p].color) ==> forall|f: int|
                0 <= f < k && f < frames[image as int].colors@.len() && #[trigger] r.observed(
                    image as int,
                    f,
                ) == Some(p as usize) ==> is_black(frames[image as int].colors@[f])
            &&& s.updated <= t.updated <= s.updated + k
        }),
    decreases k,
{
    if k > 0 {
        law_image_colors(s, frames, r, image, (k - 1) as nat, p);
        let rest = image_colored(s, frames, r, image, (k - 1) as nat);
        let t = image_colored(s, frames, r, image, k);
        assert(t == feature_colored(rest, frames, r, image, k - 1));
        let f = k - 1;
        if t.points[p] != rest.points[p] {
            assert(r.observed(image as int, f) == Some(p as usize));
        } else if t.points[p] != s.points[p] {
            let g = choose|g: int|
                0 <= g < k - 1 && g < frames[image as int].colors@.len() && #[trigger] r.observed(
                    image as int,
                    g,
                ) == Some(p as usize) && rest.points[p].color == frames[image as int].colors@[g];
            assert(r.observed(image as int, g) == Some(p as usize));
        }
    }
}

/// The colors of a track add up one observation after the other. Those in images
/// that are not registered, or without a color, do not count.
pub proof fn law_colors_add_up(
    frames: Seq<ImageFrame>,
    r: ReconstructionView,
    track: Seq<TrackObservation>,
    obs: TrackObservation,
)
    ensures
        ({
            let before = color_total(frames, r, track, track.len());
            let after = color_total(frames, r, track.push(obs), track.len() + 1);
            let known = obs.image < frames.len() && obs.feature
                < frames[obs.image as int].colors@.len();
            let color = frames[obs.image as int].colors@[obs.feature as int];
            &&& !known || !r.registered(obs.image as int) ==> after == before
            &&& known && r.registered(obs.image as int) ==> {
                &&& after.red == before.red + color@[0]
                &&& after.green == before.green + color@[1]
                &&& after.blue == before.blue + color@[2]
                &&& after.count == before.count + 1
            }
        }),
        color_total(frames, r, Seq::empty(), 0).count == 0,
{
    lemma_colors_congruent(frames, r, track, track.push(obs), track.len());
    assert(track.push(obs)[track.len() as int] == obs);
}

proof fn lemma_colors_congruent(
    frames: Seq<ImageFrame>,
    r: ReconstructionView,
    a: Seq<TrackObservation>,
    b: Seq<TrackObservation>,
    k: nat,
)
    requires
        k <= a.len(),
        k <= b.len(),
        forall|i: int| 0 <= i < k ==> a[i] == b[i],
    ensures
        color_total(frames, r, a, k) == color_total(frames, r, b, k),
    decreases k,
{
    if k > 0 {
        lemma_colors_congruent(frames, r, a, b, (k - 1) as nat);
    }
}

/// In the end a point has its mean color, or is black if no registered image of
/// its track has a color for it. Nothing else of it changes.
pub proof fn law_final_colors(
    frames: Seq<ImageFrame>,
    r: ReconstructionView,
    means: Seq<[u8; 3]>,
    p: int,
)
    requires
        0 <= p < r.points.len(),
    ensures
        ({
            let points = points_colored(frames, r, means, r.points.len() as int);
            let track = r.points[p].track;
            let counted = color_total(frames, r, track, track.len()).count;
            &&& points.len() == r.points.len()
            &&& points[p].track == track && points[p].xyz == r.points[p].xyz && points[p].error
                == r.points[p].error
            &&& counted > 0 ==> forall|i: int|
                0 <= i < 3 ==> #[trigger] points[p].color@[i] == means[p]@[i]
            &&& counted == 0 ==> forall|i: int|
                0 <= i < 3 ==> #[trigger] points[p].color@[i] == 0
        }),
{
    let points = points_colored(frames, r, means, r.points.len() as int);
    let last = final_color(frames, r, means, p);
    assert(points[p].color@[0] == last@[0]);
    assert(points[p].color@[1] == last@[1]);
    assert(points[p].color@[2] == last@[2]);
    assert forall|i: int| 0 <= i < 3 implies #[trigger] points[p].color@[i] == last@[i] by {
        assert(i == 0 || i == 1 || i == 2);
    }
}

/// A file takes over the pose of the last reference image of its name, if there is
/// one and it has a pose.
pub proof fn law_seed_poses(r: ReconstructionView, of: Seq<Option<usize>>, i: int)
    requires
        0 <= i < of.len(),
    ensures
        seed_of(r, of).poses.len() == of.len(),
        of[i] is None ==> seed_of(r, of).poses[i] is None,
        of[i] matches Some(image) ==> image >= r.poses.len() ==> seed_of(r, of).poses[i] is None,
        of[i] matches Some(image) ==> image < r.poses.len() ==> seed_of(r, of).poses[i]
            == r.poses[image as int],
{
}

/// A file stands for the last reference image of its name, and for none without a
/// name.
pub proof fn law_counterparts(r: ReconstructionView, name: String)
    requires
        r.image_names.len() <= usize::MAX,
    ensures
        counterpart(r, None) is None,
        counterpart(r, Some(name)) matches Some(i) ==> i < r.image_names.len()
            && r.image_names[i as int]@ == name@ && forall|j: int|
            i < j < r.image_names.len() ==> (#[trigger] r.image_names[j])@ != name@,
        counterpart(r, Some(name)) is None ==> forall|j: int|
            0 <= j < r.image_names.len() ==> (#[trigger] r.image_names[j])@ != name@,
{
    let names = names_view(r.image_names);
    law_last_position(names, name@);
    assert forall|j: int| 0 <= j < r.image_names.len() implies names[j] == (
    #[trigger] r.image_names[j])@ by {}
    if counterpart(r, Some(name)) is None {
        assert forall|j: int| 0 <= j < r.image_names.len() implies (
        #[trigger] r.image_names[j])@ != name@ by {
            assert(names[j] != name@) by {
                if names[j] == name@ {
                    assert(names.contains(names[j]));
                }
            }
        }
    }
}

/// The observations of a reference track that carry over are those of features
/// that exist in reference images that a file stands for; each moves to the last
/// such file.
pub proof fn law_moved_tracks(
    r: ReconstructionView,
    of: Seq<Option<usize>>,
    track: Seq<TrackObservation>,
    k: nat,
    x: TrackObservation,
)
    requires
        k <= track.len(),
        of.len() <= usize::MAX,
    ensures
        moved_track(r, of, track, k).contains(x) <==> exists|j: int|
            0 <= j < k && moves_to(r, of, #[trigger] track[j], x),
        moved_track(r, of, track, k).len() <= k,
    decreases k,
{
    let all = moved_track(r, of, track, k);
    if k > 0 {
        law_moved_tracks(r, of, track, (k - 1) as nat, x);
        let rest = moved_track(r, of, track, (k - 1) as nat);
        let obs = track[k - 1];
        law_last_position(of, Some(obs.image));
        assert(moved_observation(r, of, obs) == Some(x) <==> moves_to(
            r,
            of,
            obs,
            x,
        )) by {
            if moves_to(r, of, obs, x) {
                assert(of.contains(of[x.image as int]));
                let i = last_index(of, Some(obs.image))->0;
                if i < x.image {
                    assert(of[x.image as int] == Some(obs.image));
                }
                if x.image < i {
                    assert(of[i as int] == Some(obs.image));
                }
            }
        }
        if rest.contains(x) {
            let y = choose|y: int| 0 <= y < rest.len() && rest[y] == x;
            assert(all[y] == x);
            let j = choose|j: int| 0 <= j < k - 1 && moves_to(r, of, #[trigger] track[j], x);
            assert(moves_to(r, of, track[j], x));
        }
        if moves_to(r, of, obs, x) {
            assert(all[rest.len() as int] == x);
            assert(moves_to(r, of, track[k - 1], x));
        }
        if all.contains(x) {
            let y = choose|y: int| 0 <= y < all.len() && all[y] == x;
            if y < rest.len() {
                assert(rest[y] == x);
            }
        }
        if exists|j: int| 0 <= j < k && moves_to(r, of, #[trigger] track[j], x) {
            let j = choose|j: int| 0 <= j < k && moves_to(r, of, #[trigger] track[j], x);
            if j < k - 1 {
                assert(moves_to(r, of, track[j], x));
            }
        }
    }
}

/// Whether an observation of a reference image becomes another one: the feature is
/// the same and exists, and the image is the last that stands for the reference.
pub open spec fn moves_to(
    r: ReconstructionView,
    of: Seq<Option<usize>>,
    obs: TrackObservation,
    x: TrackObservation,
) -> bool {
    &&& x.feature == obs.feature
    &&& obs.image < r.keypoints.len()
    &&& obs.feature < r.keypoints[obs.image as int]@.len()
    &&& x.image < of.len()
    &&& of[x.image as int] == Some(obs.image)
    &&& forall|j: int| x.image < j < of.len() ==> #[trigger] of[j] != Some(obs.image)
}

/// The points of a seed are the reference points of which an observation carries
/// over, in order, with those observations and their identifiers.
pub proof fn law_seed_points(r: ReconstructionView, of: Seq<Option<usize>>, q: int)
    requires
        r.points.len() <= usize::MAX,
        0 <= q < seed_points(r, of, r.points.len()).len(),
    ensures
        seed_point_ids(r, of, r.points.len()).len() == seed_points(r, of, r.points.len()).len(),
        exists|p: int| {
            &&& 0 <= p < r.points.len()
            &&& #[trigger] whole_track(r, of, p) == seed_points(r, of, r.points.len())[q].track
            &&& whole_track(r, of, p).len() > 0
            &&& seed_points(r, of, r.points.len())[q].xyz == r.points[p].xyz
            &&& seed_point_ids(r, of, r.points.len())[q] == r.point_id_of(p)
        },
{
    let chosen = indices_where(r.points.len(), carries_over(r, of));
    lemma_indices_where(r.points.len(), carries_over(r, of));
    assert(chosen.contains(chosen[q]));
    assert(carries_over(r, of)(chosen[q] as int));
    assert(whole_track(r, of, chosen[q] as int) == seed_points(r, of, r.points.len())[q].track);
}

/// A claimed slot keeps a point that it has and else gets the new one. Every other
/// slot stays.
pub proof fn law_claimed_slots(
    table: Seq<Seq<Option<usize>>>,
    obs: TrackObservation,
    point: usize,
    i: int,
    f: int,
)
    requires
        obs.image < table.len(),
        0 <= i < table.len(),
    ensures
        ({
            let t = slot_claimed(table, obs, point);
            let own = table[obs.image as int];
            &&& t.len() == table.len()
            &&& i != obs.image ==> t[i] == table[i]
            &&& obs.feature < t[obs.image as int].len()
            &&& obs.feature < own.len() && own[obs.feature as int] is Some
                ==> t[obs.image as int][obs.feature as int] == own[obs.feature as int]
            &&& obs.feature >= own.len() || own[obs.feature as int] is None
                ==> t[obs.image as int][obs.feature as int] == Some(point)
            &&& 0 <= f < own.len() && f != obs.feature ==> t[obs.image as int][f] == own[f]
        }),
{
}

/// A given slot gets the new point if it exists, and nothing else changes.
pub proof fn law_given_slots(
    table: Seq<Seq<Option<usize>>>,
    obs: TrackObservation,
    point: usize,
    i: int,
    f: int,
)
    requires
        0 <= i < table.len(),
        0 <= f < table[i].len(),
    ensures
        ({
            let t = slot_given(table, obs, point);
            &&& t.len() == table.len() && t[i].len() == table[i].len()
            &&& i == obs.image && f == obs.feature ==> t[i][f] == Some(point)
            &&& i != obs.image || f != obs.feature ==> t[i][f] == table[i][f]
        }),
{
}

/// A model that starts from a seed has its poses. Its points keep the
/// observations whose features exist.
pub proof fn law_seeded_model(
    poses: Seq<Option<Pose>>,
    seed: Seq<Option<Pose>>,
    frames: Seq<ImageFrame>,
    points: Seq<Point3DView>,
    i: int,
    p: int,
    x: TrackObservation,
)
    requires
        0 <= i < poses.len(),
        0 <= p < points.len(),
    ensures
        i < seed.len() ==> seeded_poses(poses, seed)[i] == seed[i],
        i >= seed.len() ==> seeded_poses(poses, seed)[i] == poses[i],
        seeded_points(frames, points).len() == points.len(),
        seeded_points(frames, points)[p].xyz == points[p].xyz,
        seeded_points(frames, points)[p].track.contains(x) <==> points[p].track.contains(x)
            && x.image < frames.len() && x.feature < frames[x.image as int].keypoints@.len(),
{
    let track = points[p].track;
    lemma_existing(frames, track, track.len(), x);
    assert(track.take(track.len() as int) =~= track);
}

proof fn lemma_existing(
    frames: Seq<ImageFrame>,
    track: Seq<TrackObservation>,
    k: nat,
    x: TrackObservation,
)
    requires
        k <= track.len(),
    ensures
        existing_track(frames, track, k).contains(x) <==> track.take(k as int).contains(x)
            && has_feature(frames, x.image as int, x.feature as int),
    decreases k,
{
    let start = track.take(k as int);
    if k > 0 {
        lemma_existing(frames, track, (k - 1) as nat, x);
        let rest = existing_track(frames, track, (k - 1) as nat);
        let all = existing_track(frames, track, k);
        let before = track.take(k - 1);
        assert(start =~= before.push(track[k - 1]));
        if rest.contains(x) {
            let y = choose|y: int| 0 <= y < rest.len() && rest[y] == x;
            assert(all[y] == x);
        }
        if before.contains(x) {
            let y = choose|y: int| 0 <= y < before.len() && before[y] == x;
            assert(start[y] == x);
        }
        if all.contains(x) {
            let y = choose|y: int| 0 <= y < all.len() && all[y] == x;
            if y < rest.len() {
                assert(rest[y] == x);
            } else {
                assert(start[k - 1] == x);
            }
        }
        if start.contains(x) && has_feature(frames, x.image as int, x.feature as int) {
            let y = choose|y: int| 0 <= y < start.len() && start[y] == x;
            if y < k - 1 {
                assert(before[y] == x);
            } else {
                assert(all[rest.len() as int] == x);
            }
        }
    }
}

/// Coloring from several images keeps every point that has a color, and every
/// track and position. A point that one of them would color is not left black.
pub proof fn law_unit_colors(
    s: Coloring,
    frames: Seq<ImageFrame>,
    r: ReconstructionView,
    images: Seq<usize>,
    k: nat,
    p: int,
    at: int,
    f: int,
)
    requires
        k <= images.len(),
        0 <= p < s.points.len() <= usize::MAX,
        forall|j: int| 0 <= j < k ==> #[trigger] images[j] < frames.len(),
        0 <= at < k,
    ensures
        ({
            let t = images_colored(s, frames, r, images, k);
            &&& t.points.len() == s.points.len()
            &&& !is_black(s.points[p].color) ==> t.points[p] == s.points[p]
            &&& t.points[p].track == s.points[p].track && t.points[p].xyz == s.points[p].xyz
            &&& r.observed(images[at] as int, f) == Some(p as usize) && 0 <= f
                < frames[images[at] as int].colors@.len() && !is_black(
                frames[images[at] as int].colors@[f],
            ) ==> !is_black(t.points[p].color)
        }),
    decreases k,
{
    let rest = images_colored(s, frames, r, images, (k - 1) as nat);
    if k > 1 {
        let before = if at < k - 1 {
            at
        } else {
            0
        };
        law_unit_colors(s, frames, r, images, (k - 1) as nat, p, before, f);
    }
    let image = images[k - 1];
    let width = row_width(r, image);
    assert(image < frames.len());
    law_image_colors(rest, frames, r, image, width, p);
    if at == k - 1 && r.observed(image as int, f) == Some(p as usize) {
        assert(0 <= f < width);
    }
}

/// Claiming the tracks of points changes no slot that has a point.
pub proof fn law_claims_keep_slots(
    table: Seq<Seq<Option<usize>>>,
    track: Seq<TrackObservation>,
    point: usize,
    k: nat,
    i: int,
    f: int,
)
    requires
        k <= track.len(),
        0 <= i < table.len(),
        0 <= f < table[i].len(),
    ensures
        ({
            let t = track_claimed(table, track, point, k);
            &&& t.len() == table.len() && t[i].len() >= table[i].len()
            &&& table[i][f] is Some ==> t[i][f] == table[i][f]
            &&& table[i][f] is None ==> (t[i][f] == Some(point) <==> exists|j: int|
                0 <= j < k && (#[trigger] track[j]).image == i && track[j].feature == f)
            &&& t[i][f] != table[i][f] ==> t[i][f] == Some(point)
        }),
    decreases k,
{
    if k > 0 {
        law_claims_keep_slots(table, track, point, (k - 1) as nat, i, f);
        let rest = track_claimed(table, track, point, (k - 1) as nat);
        let obs = track[k - 1];
        let t = track_claimed(table, track, point, k);
        if obs.image < rest.len() {
            law_claimed_slots(rest, obs, point, i, f);
        }
        if exists|j: int| 0 <= j < k - 1 && (#[trigger] track[j]).image == i && track[j].feature
            == f {
            let j = choose|j: int|
                0 <= j < k - 1 && (#[trigger] track[j]).image == i && track[j].feature == f;
            assert(track[j].image == i);
        }
        if obs.image == i && obs.feature == f {
            assert(track[k - 1].image == i);
        }
        if exists|j: int| 0 <= j < k && (#[trigger] track[j]).image == i && track[j].feature == f {
            let j = choose|j: int|
                0 <= j < k && (#[trigger] track[j]).image == i && track[j].feature == f;
            if j < k - 1 {
                assert(track[j].image == i);
            }
        }
    }
}

/// A reference point that carries over has its place among those that do, in
/// order; another one has none.
pub proof fn law_seed_indices(r: ReconstructionView, of: Seq<Option<usize>>, p: usize, q: usize)
    requires
        r.points.len() <= usize::MAX,
        p < q < r.points.len(),
    ensures
        seed_index(r, of, None) is None,
        whole_track(r, of, p as int).len() == 0 ==> seed_index(r, of, Some(p)) is None,
        whole_track(r, of, p as int).len() > 0 ==> seed_index(r, of, Some(p)) is Some,
        whole_track(r, of, p as int).len() > 0 && whole_track(r, of, q as int).len() > 0
            ==> seed_index(r, of, Some(p))->0 < seed_index(r, of, Some(q))->0,
        (forall|x: int| 0 <= x < p ==> #[trigger] whole_track(r, of, x).len() == 0)
            && whole_track(r, of, p as int).len() > 0 ==> seed_index(r, of, Some(p)) == Some(
            0usize,
        ),
{
    let c = carries_over(r, of);
    lemma_count_bound(p as nat, c);
    lemma_count_bound(q as nat, c);
    lemma_counts_grow(p as nat, q as nat, c);
    lemma_count_positive(p as nat, c);
    if (forall|x: int| 0 <= x < p ==> #[trigger] whole_track(r, of, x).len() == 0) && count_where(
        p as nat,
        c,
    ) > 0 {
        let x = choose|x: int| 0 <= x < p && #[trigger] c(x);
        assert(whole_track(r, of, x).len() == 0);
    }
}

proof fn lemma_counts_grow(m: nat, n: nat, c: spec_fn(int) -> bool)
    requires
        m < n,
    ensures
        count_where(m, c) <= count_where(n, c),
        c(m as int) ==> count_where(m, c) < count_where(n, c),
    decreases n,
{
    if m < n - 1 {
        lemma_counts_grow(m, (n - 1) as nat, c);
    }
}

} // verus!
