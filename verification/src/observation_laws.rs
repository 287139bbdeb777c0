//! What the operations on observations keep, and how they undo each other.

use crate::indices::lemma_indices_where;
use crate::links::{all_links, count_links, to_point, to_registered};
use crate::observation_manager::{
    can_add_observation, can_add_point, can_merge, deregistered, observation_added,
    observation_deleted, observations_deleted, observing, observing_features, owned_by,
    pair_stats_upto, point_deleted, points_fit, points_merged, sees_point, spec_ordered_pair,
    stat_counts, triangulated, with_pose, Edited, ObservationManager,
};
use crate::point_ids::{
    completed_ids, ids_fit, lemma_completed_ids, lemma_max_id, max_id, next_free,
};
use crate::track_edits::{
    assigned, lemma_track_without, shifted, shifted_ids, slot, track_valid, track_without,
    with_point, with_point_removed,
};
use crate::types::{ImageFrame, PairGeometry, Point3DView, ReconstructionView, TrackObservation};
use crate::visibility::visibility_score;
use vstd::prelude::*;

verus! {

/// Whether table and points are no larger than memory allows.
pub open spec fn table_fits(r: ReconstructionView) -> bool {
    &&& r.points.len() < usize::MAX
    &&& r.observations.len() <= usize::MAX
    &&& forall|i: int|
        0 <= i < r.observations.len() ==> (#[trigger] r.observations[i]).len() <= usize::MAX
}

/// Tracks and table say the same: every track is valid, its observations are
/// given to its point, and every observation that is given to a point stands
/// in the track of that point.
pub open spec fn tracks_agree(r: ReconstructionView) -> bool {
    &&& forall|p: int| 0 <= p < r.points.len() ==> track_valid(r, (#[trigger] r.points[p]).track)
    &&& forall|p: int, k: int|
        0 <= p < r.points.len() && 0 <= k < r.points[p].track.len() ==> {
            let obs = #[trigger] r.points[p].track[k];
            r.observations[obs.image as int][obs.feature as int] == Some(p as usize)
        }
    &&& forall|i: int, f: int|
        0 <= i < r.observations.len() && 0 <= f < r.observations[i].len() ==> stands_in_track(
            r,
            i,
            f,
            #[trigger] r.observations[i][f],
        )
}

pub open spec fn stands_in_track(
    r: ReconstructionView,
    image: int,
    feature: int,
    point: Option<usize>,
) -> bool {
    match point {
        Some(p) => p < r.points.len() && r.points[p as int].track.contains(slot(image, feature)),
        None => true,
    }
}

/// Every marked point exists.
pub open spec fn marks_exist(s: Edited) -> bool {
    forall|id: usize| #[trigger] s.modified.contains(id) ==> id < s.r.points.len()
}

/// Statistics depend on poses and observations alone: moving points or
/// changing cameras leaves them up to date.
pub proof fn law_statistics_ignore_positions(
    manager: ObservationManager,
    frames: Seq<ImageFrame>,
    pairs: Seq<PairGeometry>,
    r: ReconstructionView,
    s: ReconstructionView,
)
    requires
        manager.reflects(frames, pairs, r),
        s.poses == r.poses,
        s.observations == r.observations,
    ensures
        manager.reflects(frames, pairs, s),
{
    let links = all_links(frames, pairs);
    assert forall|i: int, f: int| #[trigger] to_point(s, i, f) == to_point(r, i, f) by {
        assert(to_point(s, i, f) =~= to_point(r, i, f));
    }
    assert forall|i: int| #[trigger] to_registered(s, i) == to_registered(r, i) by {
        assert(to_registered(s, i) =~= to_registered(r, i));
    }
    assert forall|i: int| #[trigger] sees_point(links, s, i) == sees_point(links, r, i) by {
        assert(sees_point(links, s, i) =~= sees_point(links, r, i));
    }
    assert forall|i: int| 0 <= i < frames.len() implies {
        &&& stat_counts(#[trigger] manager.image_stats()[i], frames, links, s, i)
        &&& manager.image_stats()[i].point3d_visibility_score == visibility_score(
            frames[i],
            sees_point(links, s, i),
        )
    } by {
        assert(stat_counts(manager.image_stats()[i], frames, links, r, i));
        assert(to_registered(s, i) == to_registered(r, i));
        assert(sees_point(links, s, i) == sees_point(links, r, i));
    }
    assert forall|i: int, f: int|
        0 <= i < frames.len() && 0 <= f < frames[i].keypoints@.len() implies #[trigger]
        manager.point_counts()[i][f] == count_links(links, to_point(s, i, f)) by {
        assert(to_point(s, i, f) == to_point(r, i, f));
    }
    lemma_pair_stats_ignore_positions(frames, pairs, r, s, pairs.len());
}

/// The statistics of pairs depend on observations alone.
pub proof fn lemma_pair_stats_ignore_positions(
    frames: Seq<ImageFrame>,
    pairs: Seq<PairGeometry>,
    r: ReconstructionView,
    s: ReconstructionView,
    k: nat,
)
    requires
        k <= pairs.len(),
        s.observations == r.observations,
    ensures
        pair_stats_upto(frames, pairs, s, k) == pair_stats_upto(frames, pairs, r, k),
    decreases k,
{
    if k > 0 {
        lemma_pair_stats_ignore_positions(frames, pairs, r, s, (k - 1) as nat);
        assert(triangulated(frames, pairs[k - 1], s) =~= triangulated(frames, pairs[k - 1], r));
    }
}

/// The statistics are a function of the images, the pairs and the reconstruction.
pub proof fn law_statistics_determined(
    a: ObservationManager,
    b: ObservationManager,
    frames: Seq<ImageFrame>,
    pairs: Seq<PairGeometry>,
    r: ReconstructionView,
)
    requires
        a.reflects(frames, pairs, r),
        b.reflects(frames, pairs, r),
    ensures
        a.image_stats() == b.image_stats(),
        a.pair_stats() == b.pair_stats(),
        a.point_counts() == b.point_counts(),
{
    assert(a.image_stats() =~= b.image_stats()) by {
        assert forall|i: int| 0 <= i < frames.len() implies a.image_stats()[i]
            == b.image_stats()[i] by {
            let x = a.image_stats()[i];
            let y = b.image_stats()[i];
            assert(x.num_observations == y.num_observations);
        }
    }
    assert forall|i: int| 0 <= i < frames.len() implies a.point_counts()[i]
        =~= b.point_counts()[i] by {
        assert forall|f: int| 0 <= f < frames[i].keypoints@.len() implies a.point_counts()[i][f]
            == b.point_counts()[i][f] by {}
    }
    assert(a.point_counts() =~= b.point_counts());
}

/// Adding a point keeps tracks and table in agreement.
pub proof fn law_add_point_keeps_agreement(r: ReconstructionView, point: Point3DView)
    requires
        table_fits(r),
        tracks_agree(r),
        can_add_point(r, point.track),
    ensures
        tracks_agree(with_point(r, point)),
{
    let after = with_point(r, point);
    let n = r.points.len() as int;
    assert forall|p: int| 0 <= p < after.points.len() implies track_valid(
        after,
        (#[trigger] after.points[p]).track,
    ) by {
        if p < n {
            assert(track_valid(r, r.points[p].track));
            assert forall|k: int| 0 <= k < r.points[p].track.len() implies after.has_slot(
                #[trigger] after.points[p].track[k],
            ) by {
                assert(r.has_slot(r.points[p].track[k]));
            }
        } else {
            assert forall|k: int| 0 <= k < point.track.len() implies after.has_slot(
                #[trigger] after.points[p].track[k],
            ) by {
                assert(r.has_slot(point.track[k]));
            }
        }
    }
    assert forall|p: int, k: int|
        0 <= p < after.points.len() && 0 <= k < after.points[p].track.len() implies {
        let obs = #[trigger] after.points[p].track[k];
        after.observations[obs.image as int][obs.feature as int] == Some(p as usize)
    } by {
        let obs = after.points[p].track[k];
        assert(slot(obs.image as int, obs.feature as int) == obs);
        if p < n {
            assert(r.points[p].track[k] == obs);
            assert(r.has_slot(obs));
            if point.track.contains(obs) {
                let j = choose|j: int| 0 <= j < point.track.len() && point.track[j] == obs;
                assert(r.observed(obs.image as int, obs.feature as int) is None);
            }
        } else {
            assert(r.has_slot(point.track[k]));
            assert(point.track.contains(obs));
        }
    }
    assert forall|i: int, f: int|
        0 <= i < after.observations.len() && 0 <= f < after.observations[i].len() implies stands_in_track(
        after,
        i,
        f,
        #[trigger] after.observations[i][f],
    ) by {
        assert(stands_in_track(r, i, f, r.observations[i][f]));
        if point.track.contains(slot(i, f)) {
            assert(after.points[n].track.contains(slot(i, f)));
        }
    }
}

/// Deleting a point keeps tracks and table in agreement.
pub proof fn law_delete_point_keeps_agreement(s: Edited, point: usize)
    requires
        table_fits(s.r),
        points_fit(s.r),
        tracks_agree(s.r),
        point < s.r.points.len(),
    ensures
        tracks_agree(point_deleted(s, point).r),
{
    let r = s.r;
    let after = point_deleted(s, point).r;
    assert forall|p: int| 0 <= p < after.points.len() implies {
        let q = if p < point { p } else { p + 1 };
        #[trigger] after.points[p] == r.points[q]
    } by {}
    assert forall|p: int| 0 <= p < after.points.len() implies track_valid(
        after,
        (#[trigger] after.points[p]).track,
    ) by {
        let q = if p < point { p } else { p + 1 };
        assert(track_valid(r, r.points[q].track));
        assert forall|k: int| 0 <= k < r.points[q].track.len() implies after.has_slot(
            #[trigger] after.points[p].track[k],
        ) by {
            assert(r.has_slot(r.points[q].track[k]));
        }
    }
    assert forall|p: int, k: int|
        0 <= p < after.points.len() && 0 <= k < after.points[p].track.len() implies {
        let obs = #[trigger] after.points[p].track[k];
        after.observations[obs.image as int][obs.feature as int] == Some(p as usize)
    } by {
        let q = if p < point { p } else { p + 1 };
        let obs = r.points[q].track[k];
        assert(track_valid(r, r.points[q].track));
        assert(r.has_slot(obs));
        assert(r.observations[obs.image as int][obs.feature as int] == Some(q as usize));
        assert(after.observations[obs.image as int][obs.feature as int] == shifted(
            Some(q as usize),
            point,
        ));
    }
    assert forall|i: int, f: int|
        0 <= i < after.observations.len() && 0 <= f < after.observations[i].len() implies stands_in_track(
        after,
        i,
        f,
        #[trigger] after.observations[i][f],
    ) by {
        assert(stands_in_track(r, i, f, r.observations[i][f]));
    }
}

/// What a track holds without one of its observations.
pub proof fn lemma_track_without_contains(
    track: Seq<TrackObservation>,
    obs: TrackObservation,
)
    ensures
        forall|x: TrackObservation| x != obs ==> (#[trigger] track_without(track, obs).contains(x)
            <==> track.contains(x)),
        (forall|a: int, b: int|
            0 <= a < b < track.len() ==> #[trigger] track[a].image != #[trigger] track[b].image)
            ==> {
            &&& !track_without(track, obs).contains(obs)
            &&& forall|a: int, b: int|
                0 <= a < b < track_without(track, obs).len() ==> #[trigger] track_without(
                    track,
                    obs,
                )[a].image != #[trigger] track_without(track, obs)[b].image
        },
        forall|x: TrackObservation| #[trigger]
            track_without(track, obs).contains(x) ==> track.contains(x),
        track.len() - 1 <= track_without(track, obs).len() <= track.len(),
    decreases track.len(),
{
    if track.len() == 0 {
    } else {
        let rest = track.skip(1);
        let out = track_without(track, obs);
        assert forall|x: TrackObservation| track.contains(x) <==> (track[0] == x || #[trigger] rest.contains(x)) by {
            if track.contains(x) && track[0] != x {
                let j = choose|j: int| 0 <= j < track.len() && track[j] == x;
                assert(rest[j - 1] == x);
            }
            if rest.contains(x) {
                let j = choose|j: int| 0 <= j < rest.len() && rest[j] == x;
                assert(track[j + 1] == x);
            }
        }
        let distinct = forall|a: int, b: int|
            0 <= a < b < track.len() ==> #[trigger] track[a].image != #[trigger] track[b].image;
        if distinct {
            assert forall|a: int, b: int| 0 <= a < b < rest.len() implies #[trigger] rest[a].image
                != #[trigger] rest[b].image by {
                assert(track[a + 1].image != track[b + 1].image);
            }
        }
        if track[0] == obs {
            if distinct && rest.contains(obs) {
                let j = choose|j: int| 0 <= j < rest.len() && rest[j] == obs;
                assert(track[0].image != track[j + 1].image);
            }
        } else {
            lemma_track_without_contains(rest, obs);
            let inner = track_without(rest, obs);
            assert(out == seq![track[0]] + inner);
            assert forall|x: TrackObservation| #[trigger] out.contains(x) <==> (track[0] == x
                || inner.contains(x)) by {
                if out.contains(x) && track[0] != x {
                    let j = choose|j: int| 0 <= j < out.len() && out[j] == x;
                    assert(inner[j - 1] == x);
                }
                if inner.contains(x) {
                    let j = choose|j: int| 0 <= j < inner.len() && inner[j] == x;
                    assert(out[j + 1] == x);
                }
                assert(out[0] == track[0]);
            }
            if distinct {
                assert forall|a: int, b: int| 0 <= a < b < out.len() implies #[trigger] out[a].image
                    != #[trigger] out[b].image by {
                    if a == 0 {
                        assert(inner[b - 1] == out[b]);
                        assert(inner.contains(inner[b - 1]));
                        assert(rest.contains(out[b]));
                        let j = choose|j: int| 0 <= j < rest.len() && rest[j] == out[b];
                        assert(track[0].image != track[j + 1].image);
                    } else {
                        assert(inner[a - 1].image != inner[b - 1].image);
                    }
                }
            }
        }
    }
}

/// Deleting an observation keeps tracks and table in agreement.
pub proof fn law_delete_observation_keeps_agreement(s: Edited, image: usize, feature: usize)
    requires
        table_fits(s.r),
        points_fit(s.r),
        tracks_agree(s.r),
    ensures
        tracks_agree(observation_deleted(s, image, feature).r),
{
    let r = s.r;
    let after = observation_deleted(s, image, feature).r;
    let target = TrackObservation { image, feature };
    match r.observed(image as int, feature as int) {
        None => {},
        Some(point) => {
            assert(stands_in_track(
                r,
                image as int,
                feature as int,
                r.observations[image as int][feature as int],
            ));
            if r.points[point as int].track.len() <= 2 {
                law_delete_point_keeps_agreement(s, point);
            } else {
                let track = r.points[point as int].track;
                lemma_track_without_contains(track, target);
                let left = track_without(track, target);
                assert(track_valid(r, track));
                assert forall|p: int| 0 <= p < after.points.len() implies track_valid(
                    after,
                    (#[trigger] after.points[p]).track,
                ) by {
                    assert(track_valid(r, r.points[p].track));
                    assert forall|k: int|
                        0 <= k < after.points[p].track.len() implies after.has_slot(
                        #[trigger] after.points[p].track[k],
                    ) by {
                        if p == point {
                            assert(left.contains(left[k]));
                            assert(track.contains(left[k]));
                            let j = choose|j: int| 0 <= j < track.len() && track[j] == left[k];
                            assert(r.has_slot(track[j]));
                        } else {
                            assert(r.has_slot(r.points[p].track[k]));
                        }
                    }
                }
                assert forall|p: int, k: int|
                    0 <= p < after.points.len() && 0 <= k < after.points[p].track.len() implies {
                    let obs = #[trigger] after.points[p].track[k];
                    after.observations[obs.image as int][obs.feature as int] == Some(p as usize)
                } by {
                    let obs = after.points[p].track[k];
                    if p == point {
                        assert(left.contains(left[k]));
                        assert(track.contains(obs));
                        assert(obs != target);
                        let j = choose|j: int| 0 <= j < track.len() && track[j] == obs;
                        assert(r.points[p].track[j] == obs);
                        assert(r.has_slot(track[j]));
                    } else {
                        assert(r.points[p].track[k] == obs);
                        assert(track_valid(r, r.points[p].track));
                        assert(r.has_slot(obs));
                    }
                }
                assert forall|i: int, f: int|
                    0 <= i < after.observations.len() && 0 <= f
                        < after.observations[i].len() implies stands_in_track(
                    after,
                    i,
                    f,
                    #[trigger] after.observations[i][f],
                ) by {
                    assert(stands_in_track(r, i, f, r.observations[i][f]));
                    if !(i == image && f == feature) {
                        assert(slot(i, f) != target);
                    }
                }
            }
        },
    }
}

/// Every track holds two observations at least.
pub open spec fn tracks_hold_two(r: ReconstructionView) -> bool {
    forall|p: int| 0 <= p < r.points.len() ==> (#[trigger] r.points[p]).track.len() >= 2
}

/// Deleting an observation leaves no track with fewer than two observations, if
/// there was none before.
pub proof fn law_deletion_leaves_two(s: Edited, image: usize, feature: usize)
    requires
        tracks_hold_two(s.r),
    ensures
        tracks_hold_two(observation_deleted(s, image, feature).r),
{
    let r = s.r;
    let after = observation_deleted(s, image, feature).r;
    if let Some(point) = r.observed(image as int, feature as int) {
        if point < r.points.len() {
            let track = r.points[point as int].track;
            lemma_track_without_contains(track, (TrackObservation { image, feature }));
            assert forall|p: int| 0 <= p < after.points.len() implies (
            #[trigger] after.points[p]).track.len() >= 2 by {
                if track.len() <= 2 && p >= point {
                    assert(after.points[p] == r.points[p + 1]);
                } else {
                    assert(r.points[p].track.len() >= 2);
                }
            }
        }
    }
}

/// Adding an observation keeps tracks and table in agreement.
pub proof fn law_add_observation_keeps_agreement(s: Edited, point: usize, obs: TrackObservation)
    requires
        table_fits(s.r),
        tracks_agree(s.r),
        can_add_observation(s.r, point, obs),
    ensures
        tracks_agree(observation_added(s, point, obs).r),
{
    let r = s.r;
    let after = observation_added(s, point, obs).r;
    let track = r.points[point as int].track;
    let longer = track.push(obs);
    assert(after.points[point as int].track == longer);
    assert forall|p: int| 0 <= p < after.points.len() implies track_valid(
        after,
        (#[trigger] after.points[p]).track,
    ) by {
        assert(track_valid(r, r.points[p].track));
        assert forall|k: int| 0 <= k < after.points[p].track.len() implies after.has_slot(
            #[trigger] after.points[p].track[k],
        ) by {
            if k < r.points[p].track.len() {
                assert(r.has_slot(r.points[p].track[k]));
            }
        }
        if p == point {
            assert forall|a: int, b: int| 0 <= a < b < longer.len() implies #[trigger] longer[a].image
                != #[trigger] longer[b].image by {
                if b == track.len() {
                    assert(r.points[point as int].track[a].image != obs.image);
                } else {
                    assert(track[a].image != track[b].image);
                }
            }
        }
    }
    assert forall|p: int, k: int|
        0 <= p < after.points.len() && 0 <= k < after.points[p].track.len() implies {
        let o = #[trigger] after.points[p].track[k];
        after.observations[o.image as int][o.feature as int] == Some(p as usize)
    } by {
        let o = after.points[p].track[k];
        if k < r.points[p].track.len() {
            assert(r.points[p].track[k] == o);
            assert(track_valid(r, r.points[p].track));
            assert(r.has_slot(o));
            assert(r.observations[o.image as int][o.feature as int] == Some(p as usize));
        }
    }
    assert forall|i: int, f: int|
        0 <= i < after.observations.len() && 0 <= f < after.observations[i].len() implies stands_in_track(
        after,
        i,
        f,
        #[trigger] after.observations[i][f],
    ) by {
        if i == obs.image && f == obs.feature {
            assert(longer[track.len() as int] == obs);
            assert(slot(i, f) == obs);
        } else {
            assert(stands_in_track(r, i, f, r.observations[i][f]));
            if r.observations[i][f] == Some(point) {
                let j = choose|j: int| 0 <= j < track.len() && track[j] == slot(i, f);
                assert(longer[j] == slot(i, f));
            }
        }
    }
}

/// Deleting an observation right after it was added to a track of two or more
/// restores the model; of the marks only that of the point is new.
pub proof fn law_add_then_delete_observation(s: Edited, point: usize, obs: TrackObservation)
    requires
        can_add_observation(s.r, point, obs),
        s.r.points[point as int].track.len() >= 2,
    ensures
        observation_deleted(observation_added(s, point, obs), obs.image, obs.feature) == (Edited {
            r: s.r,
            modified: s.modified.insert(point),
        }),
{
    let r = s.r;
    let added = observation_added(s, point, obs);
    let after = observation_deleted(added, obs.image, obs.feature);
    let track = r.points[point as int].track;
    let longer = track.push(obs);
    let image = obs.image as int;
    let feature = obs.feature as int;
    assert(added.r.points[point as int].track == longer);
    assert(added.r.observed(image, feature) == Some(point));
    assert(obs == (TrackObservation { image: obs.image, feature: obs.feature }));
    assert forall|k: int| 0 <= k < track.len() implies longer[k] != obs by {
        assert(r.points[point as int].track[k].image != obs.image);
    }
    lemma_track_without(longer, obs, track.len() as int);
    assert(longer.remove(track.len() as int) =~= track);
    assert(after.r.points =~= r.points);
    assert(r.observations[image][feature] is None);
    assert(after.r.observations[image] =~= r.observations[image]);
    assert(after.r.observations =~= r.observations);
    assert(after.modified =~= s.modified.insert(point));
    assert(after.r =~= r);
}

/// Merging two points keeps tracks and table in agreement, provided the merged
/// track holds all observations of the kept point.
pub proof fn law_merge_keeps_agreement(
    s: Edited,
    point1: usize,
    point2: usize,
    merged: Point3DView,
)
    requires
        table_fits(s.r),
        points_fit(s.r),
        tracks_agree(s.r),
        can_merge(s.r, point1, point2, merged.track),
        forall|obs: TrackObservation|
            s.r.points[spec_ordered_pair(point1, point2).0 as int].track.contains(obs)
                ==> #[trigger] merged.track.contains(obs),
    ensures
        tracks_agree(points_merged(s, point1, point2, merged).r),
{
    let (keep, remove) = spec_ordered_pair(point1, point2);
    let r = s.r;
    let replaced = ReconstructionView {
        points: r.points.update(keep as int, merged),
        observations: assigned(r.observations, merged.track, keep),
        ..r
    };
    let after = with_point_removed(replaced, remove);
    assert forall|p: int| 0 <= p < after.points.len() implies track_valid(
        after,
        (#[trigger] after.points[p]).track,
    ) by {
        let q = if p < remove { p } else { p + 1 };
        assert(after.points[p] == replaced.points[q]);
        assert(track_valid(r, r.points[q].track));
        assert forall|k: int| 0 <= k < after.points[p].track.len() implies after.has_slot(
            #[trigger] after.points[p].track[k],
        ) by {
            if q == keep {
                assert(r.has_slot(merged.track[k]));
            } else {
                assert(r.has_slot(r.points[q].track[k]));
            }
        }
    }
    assert forall|p: int, k: int|
        0 <= p < after.points.len() && 0 <= k < after.points[p].track.len() implies {
        let o = #[trigger] after.points[p].track[k];
        after.observations[o.image as int][o.feature as int] == Some(p as usize)
    } by {
        let q = if p < remove { p } else { p + 1 };
        assert(after.points[p] == replaced.points[q]);
        let o = after.points[p].track[k];
        assert(slot(o.image as int, o.feature as int) == o);
        if q == keep {
            assert(r.has_slot(merged.track[k]));
            assert(merged.track.contains(o));
        } else {
            assert(track_valid(r, r.points[q].track));
            assert(r.has_slot(r.points[q].track[k]));
            assert(r.observations[o.image as int][o.feature as int] == Some(q as usize));
            if merged.track.contains(o) {
                let j = choose|j: int| 0 <= j < merged.track.len() && merged.track[j] == o;
                assert(owned_by(r, merged.track[j], point1, point2));
            }
        }
        assert(replaced.observations[o.image as int][o.feature as int] == Some(q as usize));
    }
    assert forall|i: int, f: int|
        0 <= i < after.observations.len() && 0 <= f < after.observations[i].len() implies stands_in_track(
        after,
        i,
        f,
        #[trigger] after.observations[i][f],
    ) by {
        assert(stands_in_track(r, i, f, r.observations[i][f]));
        let before = replaced.observations[i][f];
        assert(after.observations[i][f] == shifted(before, remove));
        if merged.track.contains(slot(i, f)) {
            assert(before == Some(keep));
        } else {
            assert(before == r.observations[i][f]);
            if before == Some(keep) {
                assert(merged.track.contains(slot(i, f)));
            }
        }
    }
}

/// Taking an image out of the model keeps tracks and table in agreement and
/// leaves the image without observations.
pub proof fn law_deregister(s: Edited, image: usize)
    requires
        table_fits(s.r),
        points_fit(s.r),
        image < s.r.poses.len(),
    ensures
        tracks_agree(s.r) ==> tracks_agree(deregistered(s, image).r),
        forall|f: int| #[trigger] deregistered(s, image).r.observed(image as int, f) is None,
        !deregistered(s, image).r.registered(image as int),
{
    let features = observing_features(s.r, image);
    lemma_deleted_prefix(s, image, features, features.len());
    let cleared = observations_deleted(s, image, features, features.len());
    let after = deregistered(s, image).r;
    if tracks_agree(s.r) {
        lemma_pose_keeps_agreement(cleared.r, image);
    }
    assert forall|f: int| #[trigger] after.observed(image as int, f) is None by {
        assert(after.observed(image as int, f) == cleared.r.observed(image as int, f));
        if image < s.r.observations.len() {
            let row = s.r.observations[image as int];
            lemma_indices_where(row.len(), observing(row));
            if s.r.observed(image as int, f) is Some {
                assert(observing(row)(f));
                assert(features.contains(f as usize));
                let k = choose|k: int| 0 <= k < features.len() && features[k] == f as usize;
                assert(cleared.r.observed(image as int, features[k] as int) is None);
            }
        }
    }
}

proof fn lemma_pose_keeps_agreement(r: ReconstructionView, image: usize)
    requires
        tracks_agree(r),
    ensures
        tracks_agree(with_pose(r, image, None)),
{
    let after = with_pose(r, image, None);
    assert forall|p: int| 0 <= p < after.points.len() implies track_valid(
        after,
        (#[trigger] after.points[p]).track,
    ) by {
        assert(track_valid(r, r.points[p].track));
        assert forall|k: int| 0 <= k < after.points[p].track.len() implies after.has_slot(
            #[trigger] after.points[p].track[k],
        ) by {
            assert(r.has_slot(r.points[p].track[k]));
        }
    }
    assert forall|i: int, f: int|
        0 <= i < after.observations.len() && 0 <= f < after.observations[i].len() implies stands_in_track(
        after,
        i,
        f,
        #[trigger] after.observations[i][f],
    ) by {
        assert(stands_in_track(r, i, f, r.observations[i][f]));
    }
}

/// A deletion frees the observation, frees no slot again, and keeps the shape
/// of the table.
proof fn lemma_observation_deleted(s: Edited, image: usize, feature: usize)
    requires
        table_fits(s.r),
        points_fit(s.r),
    ensures
        table_fits(observation_deleted(s, image, feature).r),
        points_fit(observation_deleted(s, image, feature).r),
        observation_deleted(s, image, feature).r.observed(image as int, feature as int) is None,
        observation_deleted(s, image, feature).r.poses == s.r.poses,
        forall|i: int, f: int|
            s.r.observed(i, f) is None ==> #[trigger] observation_deleted(
                s,
                image,
                feature,
            ).r.observed(i, f) is None,
{
    let r = s.r;
    let after = observation_deleted(s, image, feature).r;
    assert forall|i: int| 0 <= i < after.observations.len() implies (#[trigger] after.observations[i]).len()
        <= usize::MAX by {
        assert(r.observations[i].len() <= usize::MAX);
    }
}

/// What holds once the first `k` of some observations of an image are deleted.
pub proof fn lemma_deleted_prefix(s: Edited, image: usize, features: Seq<usize>, k: nat)
    requires
        table_fits(s.r),
        points_fit(s.r),
        k <= features.len(),
    ensures
        table_fits(observations_deleted(s, image, features, k).r),
        points_fit(observations_deleted(s, image, features, k).r),
        tracks_agree(s.r) ==> tracks_agree(observations_deleted(s, image, features, k).r),
        observations_deleted(s, image, features, k).r.poses == s.r.poses,
        forall|j: int|
            0 <= j < k ==> observations_deleted(s, image, features, k).r.observed(
                image as int,
                #[trigger] features[j] as int,
            ) is None,
        forall|i: int, f: int|
            s.r.observed(i, f) is None ==> #[trigger] observations_deleted(
                s,
                image,
                features,
                k,
            ).r.observed(i, f) is None,
    decreases k,
{
    if k > 0 {
        lemma_deleted_prefix(s, image, features, (k - 1) as nat);
        let before = observations_deleted(s, image, features, (k - 1) as nat);
        lemma_observation_deleted(before, image, features[k - 1]);
        if tracks_agree(s.r) {
            law_delete_observation_keeps_agreement(before, image, features[k - 1]);
        }
    }
}

/// Every index in the table of observations is that of a point.
pub open spec fn indices_exist(r: ReconstructionView) -> bool {
    forall|i: int, f: int|
        0 <= i < r.observations.len() && 0 <= f < r.observations[i].len()
            ==> match #[trigger] r.observations[i][f] {
            Some(p) => p < r.points.len(),
            None => true,
        }
}

/// A completed table has an identifier for each point.
pub proof fn lemma_completed_len(ids: Seq<u64>, n: nat)
    ensures
        completed_ids(ids, n).len() == (if ids.len() >= n {
            ids.len()
        } else {
            n
        }),
    decreases n - ids.len(),
{
    if ids.len() < n {
        lemma_completed_len(ids.push(next_free(ids)), n);
    }
}

/// Deleting the point added last restores points and observations. Identifiers
/// are back as well, with those of points that had none filled in, and so are
/// the marks, if they name existing points.
pub proof fn law_add_then_delete(s: Edited, point: Point3DView)
    requires
        table_fits(s.r),
        indices_exist(s.r),
        can_add_point(s.r, point.track),
    ensures
        ({
            let n = s.r.points.len();
            let added = Edited {
                r: with_point(s.r, point),
                modified: s.modified.insert(n as usize),
            };
            let after = point_deleted(added, n as usize);
            &&& after.r == (ReconstructionView { point_ids: after.r.point_ids, ..s.r })
            &&& s.r.point_ids.len() <= n ==> after.r.point_ids == completed_ids(s.r.point_ids, n)
            &&& after.modified == shifted_ids(s.modified, n as usize)
            &&& marks_exist(s) ==> after.modified == s.modified
        }),
{
    let r = s.r;
    let n = r.points.len() as usize;
    let added = with_point(r, point);
    let after = with_point_removed(added, n);
    assert(after.points =~= r.points);
    assert forall|i: int| 0 <= i < r.observations.len() implies #[trigger] after.observations[i]
        =~= r.observations[i] by {
        assert forall|f: int| 0 <= f < r.observations[i].len() implies after.observations[i][f]
            == r.observations[i][f] by {
            assert(r.observations[i][f] matches Some(p) ==> p < n);
            if point.track.contains(slot(i, f)) {
                let k = choose|k: int|
                    0 <= k < point.track.len() && point.track[k] == slot(i, f);
                assert(r.observations[i].len() <= usize::MAX);
                assert(r.observed(point.track[k].image as int, point.track[k].feature as int) is None);
            }
        }
    }
    assert(after.observations =~= r.observations);
    let ids = completed_ids(r.point_ids, r.points.len());
    lemma_completed_len(r.point_ids, r.points.len());
    if r.point_ids.len() <= n {
        assert(after.point_ids =~= ids);
    }
    assert(shifted_ids(s.modified.insert(n), n) =~= shifted_ids(s.modified, n));
    if marks_exist(s) {
        assert(shifted_ids(s.modified, n) =~= s.modified);
    }
}

/// Distinct identifiers stay distinct when a point is added or deleted.
pub proof fn law_ids_stay_distinct(s: Edited, point: Point3DView, removed: usize)
    requires
        ids_fit(s.r.point_ids, s.r.points.len()),
        s.r.point_ids.no_duplicates(),
    ensures
        with_point(s.r, point).point_ids.no_duplicates(),
        removed < s.r.points.len() ==> point_deleted(s, removed).r.point_ids.no_duplicates(),
{
    let ids = completed_ids(s.r.point_ids, s.r.points.len());
    lemma_completed_ids(s.r.point_ids, s.r.points.len());
    lemma_max_id(ids);
    let new_id = (max_id(ids) + 1) as u64;
    assert(max_id(ids) < u64::MAX) by {
        if ids.len() > 0 {
            let k = choose|k: int| 0 <= k < ids.len() && ids[k] == max_id(ids);
            assert(ids[k] < u64::MAX);
        }
    }
    let longer = ids.push(new_id);
    assert(longer.no_duplicates());
    if removed < s.r.points.len() {
        let shorter = ids.remove(removed as int);
        assert forall|a: int, b: int|
            0 <= a < shorter.len() && 0 <= b < shorter.len() && a != b implies shorter[a]
            != shorter[b] by {
            let x = if a < removed { a } else { a + 1 };
            let y = if b < removed { b } else { b + 1 };
            assert(ids[x] != ids[y]);
        }
    }
}

/// Marks name existing points after every operation.
pub proof fn law_marks_exist(s: Edited)
    requires
        marks_exist(s),
        s.r.points.len() < usize::MAX,
    ensures
        forall|point: Point3DView|
            #![trigger with_point(s.r, point)]
            marks_exist(
                (Edited {
                    r: with_point(s.r, point),
                    modified: s.modified.insert(s.r.points.len() as usize),
                }),
            ),
        forall|point: usize|
            point < s.r.points.len() ==> marks_exist(#[trigger] point_deleted(s, point)),
        forall|image: usize, feature: usize|
            marks_exist(#[trigger] observation_deleted(s, image, feature)),
        forall|point: usize, obs: TrackObservation|
            point < s.r.points.len() ==> marks_exist(#[trigger] observation_added(s, point, obs)),
        forall|point1: usize, point2: usize, merged: Point3DView|
            can_merge(s.r, point1, point2, merged.track) ==> marks_exist(
                #[trigger] points_merged(s, point1, point2, merged),
            ),
{
}

} // verus!
