//! Edits of tracks and of the table of observations.

use crate::point_ids::{completed_ids, ensure_point_id_table, ids_fit, lemma_completed_ids, max_id, next_point3d_id};
use crate::types::{
    points_view, table_view, Point3D, Point3DView, Reconstruction, ReconstructionView,
    TrackObservation,
};
use std::collections::HashSet;
use vstd::prelude::*;

verus! {

/// Every observation of the track has a slot, and no two share an image.
pub open spec fn track_valid(r: ReconstructionView, track: Seq<TrackObservation>) -> bool {
    &&& forall|k: int| 0 <= k < track.len() ==> r.has_slot(#[trigger] track[k])
    &&& forall|a: int, b: int|
        0 <= a < b < track.len() ==> #[trigger] track[a].image != #[trigger] track[b].image
}

/// No observation of the track belongs to a point.
pub open spec fn track_free(r: ReconstructionView, track: Seq<TrackObservation>) -> bool {
    forall|k: int|
        0 <= k < track.len() ==> r.observed(
            (#[trigger] track[k]).image as int,
            track[k].feature as int,
        ) is None
}

/// The observation slot at a position of the table.
pub open spec fn slot(image: int, feature: int) -> TrackObservation {
    TrackObservation { image: image as usize, feature: feature as usize }
}

/// The table with the observations of a track given to a point.
pub open spec fn assigned(
    observations: Seq<Seq<Option<usize>>>,
    track: Seq<TrackObservation>,
    point: usize,
) -> Seq<Seq<Option<usize>>> {
    Seq::new(
        observations.len(),
        |i: int|
            Seq::new(
                observations[i].len(),
                |f: int|
                    if track.contains(slot(i, f)) {
                        Some(point)
                    } else {
                        observations[i][f]
                    },
            ),
    )
}

/// What becomes of a point index when a point is removed.
pub open spec fn shifted(point: Option<usize>, removed: usize) -> Option<usize> {
    match point {
        Some(id) => if id == removed {
            None
        } else if id > removed {
            Some((id - 1) as usize)
        } else {
            Some(id)
        },
        None => None,
    }
}

/// The table after the removal of a point.
pub open spec fn without_point(
    observations: Seq<Seq<Option<usize>>>,
    removed: usize,
) -> Seq<Seq<Option<usize>>> {
    Seq::new(
        observations.len(),
        |i: int| Seq::new(observations[i].len(), |f: int| shifted(observations[i][f], removed)),
    )
}

/// A set of point indices after the removal of a point.
pub open spec fn shifted_ids(ids: Set<usize>, removed: usize) -> Set<usize> {
    Set::new(
        |id: usize|
            if id < removed {
                ids.contains(id)
            } else {
                id < usize::MAX && ids.contains((id + 1) as usize)
            },
    )
}

/// A reconstruction with one point more.
pub open spec fn with_point(r: ReconstructionView, point: Point3DView) -> ReconstructionView {
    let ids = completed_ids(r.point_ids, r.points.len());
    ReconstructionView {
        observations: assigned(r.observations, point.track, r.points.len() as usize),
        point_ids: ids.push((max_id(ids) + 1) as u64),
        points: r.points.push(point),
        ..r
    }
}

/// A reconstruction without one of its points.
pub open spec fn with_point_removed(r: ReconstructionView, point: usize) -> ReconstructionView {
    let ids = completed_ids(r.point_ids, r.points.len());
    ReconstructionView {
        observations: without_point(r.observations, point),
        point_ids: ids.remove(point as int),
        points: r.points.remove(point as int),
        ..r
    }
}

/// A reconstruction with one observation slot set.
pub open spec fn with_slot(
    r: ReconstructionView,
    image: int,
    feature: int,
    point: Option<usize>,
) -> ReconstructionView {
    ReconstructionView {
        observations: r.observations.update(image, r.observations[image].update(feature, point)),
        ..r
    }
}

/// The track without the first occurrence of an observation.
pub open spec fn track_without(
    track: Seq<TrackObservation>,
    obs: TrackObservation,
) -> Seq<TrackObservation>
    decreases track.len(),
{
    if track.len() == 0 {
        track
    } else if track[0] == obs {
        track.skip(1)
    } else {
        seq![track[0]] + track_without(track.skip(1), obs)
    }
}

pub open spec fn with_track(r: ReconstructionView, point: int, track: Seq<TrackObservation>) -> ReconstructionView {
    ReconstructionView {
        points: r.points.update(point, (Point3DView { track, ..r.points[point] })),
        ..r
    }
}

pub fn track_observation_is_valid(
    reconstruction: &Reconstruction,
    observation: &TrackObservation,
) -> (b: bool)
    ensures
        b == reconstruction@.has_slot(*observation),
{
    observation.image < reconstruction.observations.len() && observation.feature
        < reconstruction.observations[observation.image].len()
}

pub fn track_observations_are_valid(
    reconstruction: &Reconstruction,
    track: &Vec<TrackObservation>,
) -> (b: bool)
    ensures
        b == track_valid(reconstruction@, track@),
{
    broadcast use vstd::std_specs::hash::group_hash_axioms;

    let mut seen_images: HashSet<usize> = HashSet::new();
    for k in 0..track.len()
        invariant
            forall|j: int| 0 <= j < k ==> reconstruction@.has_slot(#[trigger] track@[j]),
            forall|a: int, b: int|
                0 <= a < b < k ==> #[trigger] track@[a].image != #[trigger] track@[b].image,
            forall|j: int| 0 <= j < k ==> seen_images@.contains((#[trigger] track@[j]).image),
            forall|image: usize| #[trigger]
                seen_images@.contains(image) ==> exists|j: int|
                    0 <= j < k && #[trigger] track@[j].image == image,
    {
        if !track_observation_is_valid(reconstruction, &track[k]) {
            return false;
        }
        let fresh: bool = seen_images.insert(track[k].image);
        if !fresh {
            return false;
        }
        assert forall|image: usize| #[trigger] seen_images@.contains(image) implies exists|j: int|
            0 <= j < k + 1 && #[trigger] track@[j].image == image by {
            if image == track@[k as int].image {
                assert(track@[k as int].image == image);
            } else {
                let j = choose|j: int| 0 <= j < k && #[trigger] track@[j].image == image;
                assert(track@[j].image == image);
            }
        }
    }
    true
}

pub fn track_is_free(reconstruction: &Reconstruction, track: &Vec<TrackObservation>) -> (b: bool)
    ensures
        b == track_free(reconstruction@, track@),
{
    for k in 0..track.len()
        invariant
            forall|j: int|
                0 <= j < k ==> reconstruction@.observed(
                    (#[trigger] track@[j]).image as int,
                    track@[j].feature as int,
                ) is None,
    {
        if reconstruction.observed_point(track[k].image, track[k].feature).is_some() {
            return false;
        }
    }
    true
}

/// Gives the observations of a track to a point.
pub fn assign_track(
    reconstruction: &mut Reconstruction,
    track: &Vec<TrackObservation>,
    point: usize,
)
    requires
        track_valid(old(reconstruction)@, track@),
    ensures
        final(reconstruction)@ == (ReconstructionView {
            observations: assigned(old(reconstruction)@.observations, track@, point),
            ..old(reconstruction)@
        }),
{
    let ghost before = reconstruction@.observations;
    proof {
        assert(assigned(before, track@.take(0), point) =~~= before);
    }
    for k in 0..track.len()
        invariant
            before == old(reconstruction)@.observations,
            track_valid(old(reconstruction)@, track@),
            reconstruction@ == (ReconstructionView {
                observations: assigned(before, track@.take(k as int), point),
                ..old(reconstruction)@
            }),
    {
        let image: usize = track[k].image;
        let feature: usize = track[k].feature;
        let ghost rows = reconstruction.observations@;
        let height: usize = reconstruction.observations.len();
        assert(old(reconstruction)@.has_slot(track@[k as int]));
        assert(table_view(rows) == assigned(before, track@.take(k as int), point));
        assert(table_view(rows).len() == rows.len());
        assert(table_view(rows)[image as int] == rows[image as int]@);
        assert(table_view(rows)[image as int].len() == before[image as int].len());
        reconstruction.observations[image][feature] = Some(point);
        proof {
            let now = table_view(reconstruction.observations@);
            let taken = track@.take(k as int);
            let more = track@.take(k + 1);
            assert(more =~= taken.push(track@[k as int]));
            let goal = assigned(before, more, point);
            assert forall|i: int| 0 <= i < before.len() implies #[trigger] now[i] =~= goal[i] by {
                assert(now[i] == reconstruction.observations@[i]@);
                assert(table_view(rows)[i] == rows[i]@);
                assert(assigned(before, taken, point)[i].len() == before[i].len());
                assert forall|f: int| 0 <= f < before[i].len() implies now[i][f] == goal[i][f] by {
                    lemma_contains_push(taken, track@[k as int], slot(i, f));
                    assert(table_view(rows)[i] == rows[i]@);
                    assert(rows[i].len() == before[i].len() && height == before.len());
                    assert(table_view(rows)[i][f] == assigned(before, taken, point)[i][f]);
                }
            }
            assert(now =~= goal);
        }
    }
    assert(track@.take(track@.len() as int) =~= track@);
}

proof fn lemma_contains_push(track: Seq<TrackObservation>, obs: TrackObservation, x: TrackObservation)
    ensures
        track.push(obs).contains(x) <==> track.contains(x) || obs == x,
{
    let after = track.push(obs);
    if track.contains(x) {
        let j = choose|j: int| 0 <= j < track.len() && track[j] == x;
        assert(after[j] == x);
    }
    assert(after[track.len() as int] == obs);
    if after.contains(x) && x != obs {
        let j = choose|j: int| 0 <= j < after.len() && after[j] == x;
        assert(track[j] == x);
    }
}

/// Appends a point whose track is valid and free.
pub fn push_point(reconstruction: &mut Reconstruction, point: Point3D) -> (id: usize)
    requires
        track_valid(old(reconstruction)@, point@.track),
        ids_fit(old(reconstruction)@.point_ids, old(reconstruction)@.points.len()),
    ensures
        id == old(reconstruction)@.points.len(),
        final(reconstruction)@ == with_point(old(reconstruction)@, point@),
{
    proof {
        lemma_completed_ids(reconstruction@.point_ids, reconstruction@.points.len());
    }
    ensure_point_id_table(reconstruction);
    let point_id: usize = reconstruction.points.len();
    assign_track(reconstruction, &point.track, point_id);
    let new_id: u64 = next_point3d_id(reconstruction);
    reconstruction.point_ids.push(new_id);
    let ghost points = reconstruction.points@;
    reconstruction.points.push(point);
    proof {
        assert(points_view(points.push(point)) =~= points_view(points).push(point@));
        assert(reconstruction@ =~= with_point(old(reconstruction)@, point@));
    }
    point_id
}

/// Removes a point, frees its observations and closes the gap in the indices.
pub fn remove_point(reconstruction: &mut Reconstruction, point: usize)
    requires
        point < old(reconstruction)@.points.len(),
        old(reconstruction)@.points.len() <= 0x7fff_ffff_ffff_ffff,
    ensures
        final(reconstruction)@ == with_point_removed(old(reconstruction)@, point),
{
    proof {
        lemma_completed_ids(reconstruction@.point_ids, reconstruction@.points.len());
    }
    ensure_point_id_table(reconstruction);
    let ghost mid = reconstruction@;
    let ghost points = reconstruction.points@;
    reconstruction.points.remove(point);
    reconstruction.point_ids.remove(point);
    proof {
        assert(points_view(points.remove(point as int)) =~= points_view(points).remove(
            point as int,
        ));
    }
    let ghost rows = reconstruction.observations@;
    let height: usize = reconstruction.observations.len();
    for image in 0..height
        invariant
            height == rows.len(),
            reconstruction@ == (ReconstructionView {
                observations: table_view(reconstruction.observations@),
                points: mid.points.remove(point as int),
                point_ids: mid.point_ids.remove(point as int),
                ..mid
            }),
            reconstruction.observations@.len() == rows.len(),
            forall|i: int|
                0 <= i < rows.len() ==> (#[trigger] reconstruction.observations@[i])@.len()
                    == rows[i]@.len(),
            forall|i: int, f: int|
                0 <= i < image && 0 <= f < rows[i]@.len()
                    ==> #[trigger] reconstruction.observations@[i]@[f] == shifted(
                    rows[i]@[f],
                    point,
                ),
            forall|i: int|
                image <= i < rows.len() ==> #[trigger] reconstruction.observations@[i] == rows[i],
    {
        let width: usize = reconstruction.observations[image].len();
        for feature in 0..width
            invariant
                reconstruction@ == (ReconstructionView {
                    observations: table_view(reconstruction.observations@),
                    points: mid.points.remove(point as int),
                    point_ids: mid.point_ids.remove(point as int),
                    ..mid
                }),
                image < rows.len(),
                width == rows[image as int]@.len(),
                reconstruction.observations@.len() == rows.len(),
                forall|i: int|
                    0 <= i < rows.len() ==> (#[trigger] reconstruction.observations@[i])@.len()
                        == rows[i]@.len(),
                forall|i: int, f: int|
                    0 <= i < image && 0 <= f < rows[i]@.len()
                        ==> #[trigger] reconstruction.observations@[i]@[f] == shifted(
                        rows[i]@[f],
                        point,
                    ),
                forall|f: int|
                    0 <= f < feature
                        ==> #[trigger] reconstruction.observations@[image as int]@[f]
                        == shifted(rows[image as int]@[f], point),
                forall|f: int|
                    feature <= f < rows[image as int]@.len()
                        ==> #[trigger] reconstruction.observations@[image as int]@[f]
                        == rows[image as int]@[f],
                forall|i: int|
                    image < i < rows.len() ==> #[trigger] reconstruction.observations@[i]
                        == rows[i],
        {
            if let Some(id) = reconstruction.observations[image][feature] {
                if id == point {
                    reconstruction.observations[image][feature] = None;
                } else if id > point {
                    reconstruction.observations[image][feature] = Some(id - 1);
                }
            }
        }
    }
    proof {
        let now = table_view(reconstruction.observations@);
        let goal = without_point(mid.observations, point);
        assert forall|i: int| 0 <= i < rows.len() implies #[trigger] now[i] =~= goal[i] by {
            assert forall|f: int| 0 <= f < rows[i]@.len() implies now[i][f] == goal[i][f] by {
                assert(reconstruction.observations@[i]@[f] == shifted(rows[i]@[f], point));
            }
        }
        assert(now =~= goal);
        assert(reconstruction@ =~= with_point_removed(old(reconstruction)@, point));
    }
}

/// Sets one observation slot.
pub fn set_slot(
    reconstruction: &mut Reconstruction,
    image: usize,
    feature: usize,
    point: Option<usize>,
)
    requires
        old(reconstruction)@.has_slot((TrackObservation { image, feature })),
    ensures
        final(reconstruction)@ == with_slot(
            old(reconstruction)@,
            image as int,
            feature as int,
            point,
        ),
{
    reconstruction.observations[image][feature] = point;
    proof {
        assert(reconstruction@.observations =~= with_slot(
            old(reconstruction)@,
            image as int,
            feature as int,
            point,
        ).observations);
    }
}

/// Appends an observation to the track of a point.
pub fn push_to_track(
    reconstruction: &mut Reconstruction,
    point: usize,
    observation: TrackObservation,
)
    requires
        point < old(reconstruction)@.points.len(),
    ensures
        final(reconstruction)@ == with_track(
            old(reconstruction)@,
            point as int,
            old(reconstruction)@.points[point as int].track.push(observation),
        ),
{
    reconstruction.points[point].track.push(observation);
    proof {
        assert(reconstruction@.points =~= with_track(
            old(reconstruction)@,
            point as int,
            old(reconstruction)@.points[point as int].track.push(observation),
        ).points);
    }
}

/// Drops the first occurrence of an observation from the track of a point.
pub fn drop_from_track(
    reconstruction: &mut Reconstruction,
    point: usize,
    observation: TrackObservation,
)
    requires
        point < old(reconstruction)@.points.len(),
    ensures
        final(reconstruction)@ == with_track(
            old(reconstruction)@,
            point as int,
            track_without(old(reconstruction)@.points[point as int].track, observation),
        ),
{
    let ghost track = reconstruction@.points[point as int].track;
    let count: usize = reconstruction.points[point].track.len();
    let mut pos: usize = 0;
    while pos < count && reconstruction.points[point].track[pos] != observation
        invariant
            point < reconstruction@.points.len(),
            reconstruction@ == old(reconstruction)@,
            track == reconstruction@.points[point as int].track,
            count == track.len(),
            pos <= count,
            forall|k: int| 0 <= k < pos ==> track[k] != observation,
        decreases count - pos,
    {
        pos = pos + 1;
    }
    proof {
        lemma_track_without(track, observation, pos as int);
    }
    if pos < count {
        reconstruction.points[point].track.remove(pos);
    }
    proof {
        assert(reconstruction@.points =~= with_track(
            old(reconstruction)@,
            point as int,
            track_without(track, observation),
        ).points);
    }
}

pub proof fn lemma_track_without(track: Seq<TrackObservation>, obs: TrackObservation, pos: int)
    requires
        0 <= pos <= track.len(),
        forall|k: int| 0 <= k < pos ==> track[k] != obs,
        pos < track.len() ==> track[pos] == obs,
    ensures
        track_without(track, obs) == (if pos < track.len() {
            track.remove(pos)
        } else {
            track
        }),
    decreases track.len(),
{
    if track.len() > 0 && pos > 0 {
        let rest = track.skip(1);
        lemma_track_without(rest, obs, pos - 1);
        if pos < track.len() {
            assert(seq![track[0]] + rest.remove(pos - 1) =~= track.remove(pos));
        } else {
            assert(seq![track[0]] + rest =~= track);
        }
    } else if track.len() > 0 {
        assert(track.skip(1) =~= track.remove(0));
    }
}

} // verus!
