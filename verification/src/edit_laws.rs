//! Edits of a model, said of slots, tracks and marks themselves.

use crate::indices::{indices_where, lemma_indices_where};
use crate::observation_manager::{
    can_add_observation, can_add_point, can_merge, observation_added, observation_deleted,
    observing, observing_features, point_deleted, points_merged, Edited,
};
use crate::point_ids::lemma_max_id;
use crate::track_edits::{slot, track_without, with_point};
use crate::types::{Point3DView, ReconstructionView, TrackObservation};
use vstd::prelude::*;

verus! {

/// A new point is the last. The slots of its track name it and all others stay,
/// and its identifier is above every other.
pub proof fn law_new_point(
    r: ReconstructionView,
    point: Point3DView,
    image: usize,
    feature: usize,
    p: int,
)
    requires
        r.points.len() < 0x7fff_ffff_ffff_ffff,
        r.point_ids.len() == r.points.len(),
        r.points.len() < usize::MAX,
        forall|k: int| 0 <= k < r.point_ids.len() ==> r.point_ids[k] < u64::MAX,
        image < r.observations.len(),
        feature < r.observations[image as int].len(),
        0 <= p < r.points.len(),
    ensures
        ({
            let s = with_point(r, point);
            let n = r.points.len();
            let obs = TrackObservation { image, feature };
            &&& s.points.len() == n + 1 && s.points[n as int] == point && s.points[p] == r.points[p]
            &&& point.track.contains(obs) ==> s.observed(image as int, feature as int) == Some(
                n as usize,
            )
            &&& !point.track.contains(obs) ==> s.observed(image as int, feature as int)
                == r.observed(image as int, feature as int)
            &&& s.point_ids.len() == n + 1 && s.point_ids[p] == r.point_ids[p]
            &&& s.point_ids[p] < s.point_ids[n as int]
            &&& s.poses == r.poses && s.cameras == r.cameras && s.frames == r.frames
        }),
{
    lemma_max_id(r.point_ids);
    assert(slot(image as int, feature as int) == (TrackObservation {
        image,
        feature,
    }));
}

/// A point can be added just if its track is not empty, every observation of it has
/// a slot without a point, and no image is seen twice.
pub proof fn law_addable_points(r: ReconstructionView, track: Seq<TrackObservation>)
    ensures
        can_add_point(r, track) <==> {
            &&& track.len() > 0
            &&& forall|k: int| 0 <= k < track.len() ==> is_free_slot(r, #[trigger] track[k])
            &&& forall|a: int, b: int|
                0 <= a < b < track.len() ==> (#[trigger] track[a]).image != (
                #[trigger] track[b]).image
        },
{
    if can_add_point(r, track) {
        assert forall|k: int| 0 <= k < track.len() implies is_free_slot(r, #[trigger] track[k]) by {
            assert(r.has_slot(track[k]));
        }
    }
}

/// Whether a feature has a slot in the table and observes no point.
pub open spec fn is_free_slot(r: ReconstructionView, obs: TrackObservation) -> bool {
    &&& obs.image < r.observations.len()
    &&& obs.feature < r.observations[obs.image as int].len()
    &&& r.observations[obs.image as int][obs.feature as int] is None
}

/// An observation can join a point just if the point exists, the slot is free and
/// the track has no observation of the image. It then ends the track, its slot
/// names the point, and the point is marked; nothing else changes.
pub proof fn law_added_observation(
    s: Edited,
    point: usize,
    obs: TrackObservation,
    image: int,
    feature: int,
    q: int,
)
    ensures
        can_add_observation(s.r, point, obs) <==> {
            &&& point < s.r.points.len()
            &&& is_free_slot(s.r, obs)
            &&& forall|k: int|
                0 <= k < s.r.points[point as int].track.len() ==> (
                #[trigger] s.r.points[point as int].track[k]).image != obs.image
        },
        can_add_observation(s.r, point, obs) ==> {
            let t = observation_added(s, point, obs);
            &&& t.r.points.len() == s.r.points.len()
            &&& t.r.points[point as int].track == s.r.points[point as int].track.push(obs)
            &&& t.r.points[point as int].xyz == s.r.points[point as int].xyz
            &&& 0 <= q < s.r.points.len() && q != point ==> t.r.points[q] == s.r.points[q]
            &&& t.r.observed(obs.image as int, obs.feature as int) == Some(point)
            &&& image != obs.image || feature != obs.feature ==> t.r.observed(image, feature)
                == s.r.observed(image, feature)
            &&& t.modified == s.modified.insert(point)
            &&& t.r.poses == s.r.poses && t.r.point_ids == s.r.point_ids
        },
{
}

/// Deleting a point frees its slots. Slots and marks of later points follow them
/// one position down, and everything else stays.
pub proof fn law_deleted_point(s: Edited, point: usize, image: int, feature: int, q: int)
    requires
        point < s.r.points.len() <= usize::MAX,
        s.r.point_ids.len() == s.r.points.len(),
    ensures
        ({
            let t = point_deleted(s, point);
            &&& t.r.points.len() == s.r.points.len() - 1
            &&& 0 <= q < point ==> t.r.points[q] == s.r.points[q] && t.r.point_ids[q]
                == s.r.point_ids[q]
            &&& point < q < s.r.points.len() ==> t.r.points[q - 1] == s.r.points[q]
                && t.r.point_ids[q - 1] == s.r.point_ids[q]
            &&& s.r.observed(image, feature) is None ==> t.r.observed(image, feature) is None
            &&& s.r.observed(image, feature) matches Some(p) ==> {
                &&& p == point ==> t.r.observed(image, feature) is None
                &&& p < point ==> t.r.observed(image, feature) == Some(p)
                &&& p > point ==> t.r.observed(image, feature) == Some((p - 1) as usize)
            }
            &&& 0 <= q < point ==> (t.modified.contains(q as usize) <==> s.modified.contains(
                q as usize,
            ))
            &&& point < q < s.r.points.len() ==> (t.modified.contains((q - 1) as usize)
                <==> s.modified.contains(q as usize))
            &&& t.r.poses == s.r.poses
        }),
{
}

/// Deleting an observation of a track of three or more frees its slot and takes it
/// out of the track. A track of two goes as a whole. A feature without a point
/// leaves everything as it is.
pub proof fn law_deleted_observation(
    s: Edited,
    image: usize,
    feature: usize,
    other_image: int,
    other_feature: int,
)
    ensures
        ({
            let t = observation_deleted(s, image, feature);
            let had = s.r.observed(image as int, feature as int);
            &&& had is None ==> t == s
            &&& had matches Some(p) ==> p < s.r.points.len() ==> {
                let track = s.r.points[p as int].track;
                &&& track.len() <= 2 ==> t == point_deleted(s, p)
                &&& track.len() > 2 ==> {
                    &&& t.r.observed(image as int, feature as int) is None
                    &&& other_image != image || other_feature != feature ==> t.r.observed(
                        other_image,
                        other_feature,
                    ) == s.r.observed(other_image, other_feature)
                    &&& t.r.points.len() == s.r.points.len()
                    &&& t.modified == s.modified.insert(p)
                    &&& forall|q: int|
                        0 <= q < s.r.points.len() && q != p ==> #[trigger] t.r.points[q]
                            == s.r.points[q]
                    &&& t.r.points[p as int].track == track_without(
                        track,
                        TrackObservation { image, feature },
                    )
                }
            }
        }),
{
}

/// Taking an observation out of a track removes its first occurrence: one that
/// occurs once is gone, and the others stay in their order.
pub proof fn law_shorter_track(track: Seq<TrackObservation>, obs: TrackObservation, at: int)
    requires
        0 <= at < track.len(),
        track[at] == obs,
        forall|j: int| 0 <= j < at ==> track[j] != obs,
    ensures
        track_without(track, obs) == track.remove(at),
    decreases track.len(),
{
    if at > 0 {
        let rest = track.skip(1);
        assert forall|j: int| 0 <= j < at - 1 implies rest[j] != obs by {
            assert(rest[j] == track[j + 1]);
        }
        law_shorter_track(rest, obs, at - 1);
        assert(track_without(track, obs) =~= track.remove(at));
    } else {
        assert(track_without(track, obs) =~= track.remove(at));
    }
}

/// The features of an image that observe a point are listed in order, and no
/// others.
pub proof fn law_observing_features(r: ReconstructionView, image: usize, f: usize)
    requires
        image < r.observations.len(),
        r.observations[image as int].len() <= usize::MAX,
    ensures
        observing_features(r, image).contains(f) <==> f < r.observations[image as int].len()
            && r.observations[image as int][f as int] is Some,
{
    let row = r.observations[image as int];
    let q = observing(row);
    lemma_indices_where(row.len(), q);
    if f < row.len() && q(f as int) {
        assert(indices_where(row.len(), q).contains(f));
    }
}

/// Merging two points leaves the merged one at the lower index and marks it. The
/// slots of its track name it, points behind the higher index move down, and the
/// others stay.
pub proof fn law_merged_points(
    s: Edited,
    point1: usize,
    point2: usize,
    merged: Point3DView,
    image: usize,
    feature: usize,
    q: int,
)
    requires
        can_merge(s.r, point1, point2, merged.track),
        s.r.points.len() <= usize::MAX,
        image < s.r.observations.len(),
        feature < s.r.observations[image as int].len(),
    ensures
        ({
            let t = points_merged(s, point1, point2, merged);
            let keep = if point1 < point2 {
                point1
            } else {
                point2
            };
            let gone = if point1 < point2 {
                point2
            } else {
                point1
            };
            let obs = TrackObservation { image, feature };
            &&& t.r.points.len() == s.r.points.len() - 1
            &&& t.r.points[keep as int] == merged
            &&& 0 <= q < gone && q != keep ==> t.r.points[q] == s.r.points[q]
            &&& gone < q < s.r.points.len() ==> t.r.points[q - 1] == s.r.points[q]
            &&& merged.track.contains(obs) ==> t.r.observed(image as int, feature as int) == Some(
                keep,
            )
            &&& !merged.track.contains(obs) && s.r.observed(image as int, feature as int) == Some(
                gone,
            ) ==> t.r.observed(image as int, feature as int) is None
            &&& t.modified.contains(keep)
        }),
{
    assert(slot(image as int, feature as int) == (TrackObservation {
        image,
        feature,
    }));
}

} // verus!
