//! Starting from a model that exists already.

use crate::camera_setup::{last_index, last_index_of_name, names_view};
use crate::indices::{count_where, indices_where};
use crate::links::has_feature;
use crate::types::{
    points_view, table_view, CameraModel, ImageFrame, Keypoint, Point3D, Point3DView, Pose,
    Reconstruction, ReconstructionView, TrackObservation,
};
use vstd::prelude::*;

verus! {

/// Poses, observations and points to start from.
#[derive(Debug, Clone)]
pub struct ReconstructionSeed {
    pub poses: Vec<Option<Pose>>,
    pub observations: Vec<Vec<Option<usize>>>,
    pub point_ids: Vec<u64>,
    pub points: Vec<Point3D>,
}

#[verifier::ext_equal]
pub struct SeedView {
    pub poses: Seq<Option<Pose>>,
    pub observations: Seq<Seq<Option<usize>>>,
    pub point_ids: Seq<u64>,
    pub points: Seq<Point3DView>,
}

impl View for ReconstructionSeed {
    type V = SeedView;

    open spec fn view(&self) -> SeedView {
        SeedView {
            poses: self.poses@,
            observations: table_view(self.observations@),
            point_ids: self.point_ids@,
            points: points_view(self.points@),
        }
    }
}

/// The reference image that a file stands for: the last one of its name.
pub open spec fn counterpart(r: ReconstructionView, name: Option<String>) -> Option<usize> {
    match name {
        Some(name) => last_index(names_view(r.image_names), name@),
        None => None,
    }
}

/// The reference images of all files.
pub open spec fn counterparts(
    r: ReconstructionView,
    file_names: Seq<Option<String>>,
) -> Seq<Option<usize>> {
    Seq::new(file_names.len(), |i: int| counterpart(r, file_names[i]))
}

/// The file that stands for a reference image: the last one.
pub open spec fn current_image(of: Seq<Option<usize>>, image: usize) -> Option<usize> {
    last_index(of, Some(image))
}

/// An observation of a reference image as one of the current image.
pub open spec fn moved_observation(
    r: ReconstructionView,
    of: Seq<Option<usize>>,
    obs: TrackObservation,
) -> Option<TrackObservation> {
    match current_image(of, obs.image) {
        Some(image) => if obs.image < r.keypoints.len() && obs.feature
            < r.keypoints[obs.image as int]@.len() {
            Some(TrackObservation { image, feature: obs.feature })
        } else {
            None
        },
        None => None,
    }
}

/// The first `k` observations of a reference track that carry over.
pub open spec fn moved_track(
    r: ReconstructionView,
    of: Seq<Option<usize>>,
    track: Seq<TrackObservation>,
    k: nat,
) -> Seq<TrackObservation>
    decreases k,
{
    if k == 0 {
        Seq::empty()
    } else {
        let rest = moved_track(r, of, track, (k - 1) as nat);
        match moved_observation(r, of, track[k - 1]) {
            Some(obs) => rest.push(obs),
            None => rest,
        }
    }
}

pub open spec fn whole_track(
    r: ReconstructionView,
    of: Seq<Option<usize>>,
    point: int,
) -> Seq<TrackObservation> {
    moved_track(r, of, r.points[point].track, r.points[point].track.len())
}

/// Selects the points of which some observation carries over.
pub open spec fn carries_over(
    r: ReconstructionView,
    of: Seq<Option<usize>>,
) -> spec_fn(int) -> bool {
    |p: int| whole_track(r, of, p).len() > 0
}

/// The index of a reference point among those that carry over.
pub open spec fn seed_index(
    r: ReconstructionView,
    of: Seq<Option<usize>>,
    point: Option<usize>,
) -> Option<usize> {
    match point {
        Some(p) => if p < r.points.len() && carries_over(r, of)(p as int) {
            Some(count_where(p as nat, carries_over(r, of)) as usize)
        } else {
            None
        },
        None => None,
    }
}

/// The point made of a reference point.
pub open spec fn seed_point(r: ReconstructionView, of: Seq<Option<usize>>, point: int) -> Point3DView {
    Point3DView { track: whole_track(r, of, point), ..r.points[point] }
}

/// The observations that a file takes over from its reference image.
pub open spec fn taken_row(
    r: ReconstructionView,
    of: Seq<Option<usize>>,
    i: int,
) -> Seq<Option<usize>> {
    match of[i] {
        Some(image) => if image < r.observations.len() {
            Seq::new(
                r.observations[image as int].len(),
                |f: int| seed_index(r, of, r.observations[image as int][f]),
            )
        } else {
            Seq::empty()
        },
        None => Seq::empty(),
    }
}

/// A row that is at least `n` wide.
pub open spec fn widened_row(row: Seq<Option<usize>>, n: nat) -> Seq<Option<usize>> {
    if row.len() >= n {
        row
    } else {
        row + Seq::new((n - row.len()) as nat, |j: int| None::<usize>)
    }
}

/// The table with a feature given to a point, unless it has one. A slot for the
/// feature is made where it is missing.
pub open spec fn slot_claimed(
    table: Seq<Seq<Option<usize>>>,
    obs: TrackObservation,
    point: usize,
) -> Seq<Seq<Option<usize>>> {
    if obs.image >= table.len() {
        table
    } else {
        let row = widened_row(table[obs.image as int], (obs.feature + 1) as nat);
        table.update(
            obs.image as int,
            if row[obs.feature as int] is None {
                row.update(obs.feature as int, Some(point))
            } else {
                row
            },
        )
    }
}

/// The table after the first `k` observations of a track are claimed.
pub open spec fn track_claimed(
    table: Seq<Seq<Option<usize>>>,
    track: Seq<TrackObservation>,
    point: usize,
    k: nat,
) -> Seq<Seq<Option<usize>>>
    decreases k,
{
    if k == 0 {
        table
    } else {
        slot_claimed(track_claimed(table, track, point, (k - 1) as nat), track[k - 1], point)
    }
}

/// The table after the tracks of the first `k` points are claimed.
pub open spec fn tracks_claimed(
    table: Seq<Seq<Option<usize>>>,
    points: Seq<Point3DView>,
    k: nat,
) -> Seq<Seq<Option<usize>>>
    decreases k,
{
    if k == 0 {
        table
    } else {
        track_claimed(
            tracks_claimed(table, points, (k - 1) as nat),
            points[k - 1].track,
            (k - 1) as usize,
            points[k - 1].track.len(),
        )
    }
}

/// The points that carry over, among the first `k`.
pub open spec fn seed_points(
    r: ReconstructionView,
    of: Seq<Option<usize>>,
    k: nat,
) -> Seq<Point3DView> {
    let chosen = indices_where(k, carries_over(r, of));
    Seq::new(chosen.len(), |i: int| seed_point(r, of, chosen[i] as int))
}

pub open spec fn seed_point_ids(
    r: ReconstructionView,
    of: Seq<Option<usize>>,
    k: nat,
) -> Seq<u64> {
    let chosen = indices_where(k, carries_over(r, of));
    Seq::new(chosen.len(), |i: int| r.point_id_of(chosen[i] as int))
}

/// The part of a reference model that concerns some files.
pub open spec fn seed_of(r: ReconstructionView, of: Seq<Option<usize>>) -> SeedView {
    let points = seed_points(r, of, r.points.len());
    SeedView {
        poses: Seq::new(
            of.len(),
            |i: int|
                match of[i] {
                    Some(image) => if image < r.poses.len() {
                        r.poses[image as int]
                    } else {
                        None
                    },
                    None => None,
                },
        ),
        observations: tracks_claimed(
            Seq::new(of.len(), |i: int| taken_row(r, of, i)),
            points,
            points.len(),
        ),
        point_ids: seed_point_ids(r, of, r.points.len()),
        points,
    }
}

/// Whether a reference model gives something to start from.
pub open spec fn has_seed(r: ReconstructionView, of: Seq<Option<usize>>) -> bool {
    &&& exists|i: int| 0 <= i < of.len() && (#[trigger] of[i]) is Some
    &&& (exists|i: int| 0 <= i < of.len() && (#[trigger] seed_of(r, of).poses[i]) is Some)
        || seed_of(r, of).points.len() > 0
}

/// Whether a seed is what a reference model gives some files.
pub open spec fn seeds(
    r: ReconstructionView,
    file_names: Seq<Option<String>>,
    seed: Option<ReconstructionSeed>,
) -> bool {
    let of = counterparts(r, file_names);
    &&& seed is Some <==> has_seed(r, of)
    &&& seed matches Some(s) ==> s@ == seed_of(r, of)
}

fn last_current(of: &Vec<Option<usize>>, image: usize) -> (index: Option<usize>)
    ensures
        index == current_image(of@, image),
        index matches Some(i) ==> i < of@.len(),
{
    let mut k: usize = of.len();
    assert(of@.take(k as int) =~= of@);
    while k > 0
        invariant
            k <= of@.len(),
            last_index(of@, Some(image)) == last_index(of@.take(k as int), Some(image)),
        decreases k,
    {
        assert(of@.take(k as int).drop_last() =~= of@.take(k - 1));
        if let Some(other) = of[k - 1] {
            if other == image {
                return Some(k - 1);
            }
        }
        k = k - 1;
    }
    None
}

fn claim_slot(table: &mut Vec<Vec<Option<usize>>>, obs: TrackObservation, point: usize)
    requires
        obs.feature < usize::MAX,
    ensures
        table_view(final(table)@) == slot_claimed(table_view(old(table)@), obs, point),
        final(table)@.len() == old(table)@.len(),
{
    let ghost before = table_view(table@);
    if obs.image >= table.len() {
        return;
    }
    let mut row: Vec<Option<usize>> = Vec::new();
    core::mem::swap(&mut row, &mut table[obs.image]);
    let ghost start = row@;
    assert(start == before[obs.image as int]);
    while row.len() < obs.feature + 1
        invariant
            obs.feature < usize::MAX,
            start.len() <= row@.len(),
            row@.len() > start.len() ==> row@.len() <= obs.feature + 1,
            row@ == start + Seq::new((row@.len() - start.len()) as nat, |j: int| None::<usize>),
        decreases obs.feature + 1 - row@.len(),
    {
        let ghost width = row@.len();
        row.push(None);
        assert(row@ =~= start + Seq::new((width + 1 - start.len()) as nat, |j: int| None::<usize>));
    }
    assert(row@ =~= widened_row(start, (obs.feature + 1) as nat));
    if row[obs.feature].is_none() {
        row[obs.feature] = Some(point);
    }
    table[obs.image] = row;
    proof {
        assert(table_view(table@) =~= slot_claimed(before, obs, point));
    }
}

/// Takes over what a reference model knows of some files. Files are recognized
/// by name.
pub fn seed_reconstruction_from_reference(
    reference: &Reconstruction,
    file_names: &Vec<Option<String>>,
) -> (seed: Option<ReconstructionSeed>)
    ensures
        seeds(reference@, file_names@, seed),
{
    let ghost r = reference@;
    let ghost goal = counterparts(r, file_names@);
    let mut of: Vec<Option<usize>> = Vec::new();
    let mut any: bool = false;
    for i in 0..file_names.len()
        invariant
            r == reference@,
            goal == counterparts(r, file_names@),
            of@ == goal.take(i as int),
            any <==> exists|j: int| 0 <= j < i && (#[trigger] goal[j]) is Some,
    {
        let image: Option<usize> = match &file_names[i] {
            Some(name) => last_index_of_name(&reference.image_names, name),
            None => None,
        };
        assert(image == goal[i as int]);
        if image.is_some() {
            any = true;
        }
        of.push(image);
        assert(of@ =~= goal.take(i + 1));
    }
    assert(of@ =~= goal);
    if !any {
        return None;
    }
    let n: usize = of.len();
    let mut poses: Vec<Option<Pose>> = Vec::new();
    let mut posed: bool = false;
    for i in 0..n
        invariant
            r == reference@,
            n == of@.len(),
            poses@ == seed_of(r, of@).poses.take(i as int),
            posed <==> exists|j: int| 0 <= j < i && (#[trigger] seed_of(r, of@).poses[j]) is Some,
    {
        let pose: Option<Pose> = match of[i] {
            Some(image) => if image < reference.poses.len() {
                reference.poses[image]
            } else {
                None
            },
            None => None,
        };
        assert(pose == seed_of(r, of@).poses[i as int]);
        if pose.is_some() {
            posed = true;
        }
        poses.push(pose);
        assert(poses@ =~= seed_of(r, of@).poses.take(i + 1));
    }
    assert(poses@ =~= seed_of(r, of@).poses);
    let (points, point_ids, kept): (Vec<Point3D>, Vec<u64>, Vec<Option<usize>>) = seed_structure(
        reference,
        &of,
    );
    let mut observations: Vec<Vec<Option<usize>>> = taken_rows(reference, &of, &kept);
    let ghost base = Seq::new(of@.len(), |i: int| taken_row(r, of@, i));
    let ghost made = points_view(points@);
    for p in 0..points.len()
        invariant
            made == points_view(points@),
            forall|q: int, k: int|
                #![trigger points@[q].track@[k]]
                0 <= q < points@.len() && 0 <= k < points@[q].track@.len()
                    ==> points@[q].track@[k].feature < usize::MAX,
            table_view(observations@) == tracks_claimed(base, made, p as nat),
    {
        let ghost start = table_view(observations@);
        let width: usize = points[p].track.len();
        assert(made[p as int].track == points@[p as int].track@);
        for k in 0..width
            invariant
                p < points@.len(),
                width == points@[p as int].track@.len(),
                forall|q: int, k: int|
                    #![trigger points@[q].track@[k]]
                    0 <= q < points@.len() && 0 <= k < points@[q].track@.len()
                        ==> points@[q].track@[k].feature < usize::MAX,
                table_view(observations@) == track_claimed(
                    start,
                    points@[p as int].track@,
                    p,
                    k as nat,
                ),
        {
            let obs = points[p].track[k];
            claim_slot(&mut observations, obs, p);
        }
    }
    if posed || points.len() > 0 {
        let seed = ReconstructionSeed { poses, observations, point_ids, points };
        assert(seed@ =~= seed_of(r, of@));
        Some(seed)
    } else {
        None
    }
}

/// The points that carry over, with the index that each reference point gets.
fn seed_structure(reference: &Reconstruction, of: &Vec<Option<usize>>) -> (made: (
    Vec<Point3D>,
    Vec<u64>,
    Vec<Option<usize>>,
))
    ensures
        points_view(made.0@) == seed_points(reference@, of@, reference@.points.len()),
        made.1@ == seed_point_ids(reference@, of@, reference@.points.len()),
        made.2@ == Seq::new(
            reference@.points.len(),
            |p: int| seed_index(reference@, of@, Some(p as usize)),
        ),
        forall|q: int, k: int|
            #![trigger made.0@[q].track@[k]]
            0 <= q < made.0@.len() && 0 <= k < made.0@[q].track@.len()
                ==> made.0@[q].track@[k].feature < usize::MAX,
{
    let ghost r = reference@;
    let ghost q = carries_over(r, of@);
    let mut points: Vec<Point3D> = Vec::new();
    let mut ids: Vec<u64> = Vec::new();
    let mut kept: Vec<Option<usize>> = Vec::new();
    let n: usize = reference.points.len();
    for p in 0..n
        invariant
            r == reference@,
            q == carries_over(r, of@),
            n == reference.points@.len(),
            points_view(points@) == seed_points(r, of@, p as nat),
            points@.len() == count_where(p as nat, q),
            indices_where(p as nat, q).len() == count_where(p as nat, q),
            ids@ == seed_point_ids(r, of@, p as nat),
            kept@ == Seq::new(p as nat, |j: int| seed_index(r, of@, Some(j as usize))),
            forall|a: int, k: int|
                #![trigger points@[a].track@[k]]
                0 <= a < points@.len() && 0 <= k < points@[a].track@.len()
                    ==> points@[a].track@[k].feature < usize::MAX,
    {
        assert(r.points[p as int] == reference.points@[p as int]@);
        let mut track: Vec<TrackObservation> = Vec::new();
        let width: usize = reference.points[p].track.len();
        for k in 0..width
            invariant
                r == reference@,
                p < reference.points@.len(),
                width == reference.points@[p as int].track@.len(),
                track@ == moved_track(r, of@, reference.points@[p as int].track@, k as nat),
                forall|j: int| 0 <= j < track@.len() ==> (#[trigger] track@[j]).feature < usize::MAX,
        {
            let obs = reference.points[p].track[k];
            if let Some(image) = last_current(of, obs.image) {
                if obs.image < reference.keypoints.len() {
                    let features: usize = reference.keypoints[obs.image].len();
                    if obs.feature < features {
                        track.push(TrackObservation { image, feature: obs.feature });
                    }
                }
            }
        }
        let ghost before = points@;
        let ghost chosen = indices_where(p as nat, q);
        assert(track@ == whole_track(r, of@, p as int));
        assert(q(p as int) == (track@.len() > 0));
        if track.len() > 0 {
            kept.push(Some(points.len()));
            ids.push(reference.point3d_id(p));
            let source = &reference.points[p];
            let point = Point3D {
                xyz: source.xyz,
                color: source.color,
                error: source.error,
                track,
            };
            points.push(point);
            proof {
                assert(point@ =~= seed_point(r, of@, p as int));
                assert(points_view(points@) =~= points_view(before).push(point@));
                assert(indices_where((p + 1) as nat, q) =~= chosen.push(p));
                assert(points_view(points@) =~= seed_points(r, of@, (p + 1) as nat));
                assert(ids@ =~= seed_point_ids(r, of@, (p + 1) as nat));
            }
        } else {
            kept.push(None);
        }
        proof {
            assert(kept@ =~= Seq::new(
                (p + 1) as nat,
                |j: int| seed_index(r, of@, Some(j as usize)),
            ));
        }
    }
    (points, ids, kept)
}

fn taken_rows(
    reference: &Reconstruction,
    of: &Vec<Option<usize>>,
    kept: &Vec<Option<usize>>,
) -> (rows: Vec<Vec<Option<usize>>>)
    requires
        kept@ == Seq::new(
            reference@.points.len(),
            |p: int| seed_index(reference@, of@, Some(p as usize)),
        ),
    ensures
        table_view(rows@) == Seq::new(of@.len(), |i: int| taken_row(reference@, of@, i)),
{
    let ghost r = reference@;
    let mut rows: Vec<Vec<Option<usize>>> = Vec::new();
    for i in 0..of.len()
        invariant
            r == reference@,
            kept@ == Seq::new(r.points.len(), |p: int| seed_index(r, of@, Some(p as usize))),
            table_view(rows@) == Seq::new(i as nat, |j: int| taken_row(r, of@, j)),
    {
        let mut row: Vec<Option<usize>> = Vec::new();
        if let Some(image) = of[i] {
            if image < reference.observations.len() {
                let width: usize = reference.observations[image].len();
                assert(r.observations[image as int] == reference.observations@[image as int]@);
                for f in 0..width
                    invariant
                        r == reference@,
                        image < reference.observations@.len(),
                        width == reference.observations@[image as int]@.len(),
                        r.observations[image as int] == reference.observations@[image as int]@,
                        kept@ == Seq::new(
                            r.points.len(),
                            |p: int| seed_index(r, of@, Some(p as usize)),
                        ),
                        row@ == Seq::new(
                            f as nat,
                            |g: int| seed_index(r, of@, r.observations[image as int][g]),
                        ),
                {
                    let value: Option<usize> = match reference.observations[image][f] {
                        Some(p) => if p < kept.len() {
                            kept[p]
                        } else {
                            None
                        },
                        None => None,
                    };
                    row.push(value);
                    assert(row@ =~= Seq::new(
                        (f + 1) as nat,
                        |g: int| seed_index(r, of@, r.observations[image as int][g]),
                    ));
                }
            }
        }
        assert(row@ =~= taken_row(r, of@, i as int));
        let ghost before = rows@;
        rows.push(row);
        assert(table_view(rows@) =~= table_view(before).push(row@));
        assert(table_view(rows@) =~= Seq::new((i + 1) as nat, |j: int| taken_row(r, of@, j)));
    }
    rows
}

/// The poses with those of a seed put in.
pub open spec fn seeded_poses(poses: Seq<Option<Pose>>, seed: Seq<Option<Pose>>) -> Seq<
    Option<Pose>,
> {
    Seq::new(
        poses.len(),
        |i: int|
            if i < seed.len() {
                seed[i]
            } else {
                poses[i]
            },
    )
}

/// The observations of an image with those of a seed put in, as far as the
/// image has features.
pub open spec fn seeded_row(
    r: ReconstructionView,
    seed: SeedView,
    frames: Seq<ImageFrame>,
    i: int,
) -> Seq<Option<usize>> {
    if i < seed.observations.len() {
        Seq::new(
            if i < frames.len() {
                frames[i].keypoints@.len()
            } else {
                r.observations[i].len()
            },
            |f: int|
                if f < seed.observations[i].len() {
                    seed.observations[i][f]
                } else {
                    None
                },
        )
    } else {
        r.observations[i]
    }
}

/// The first `k` observations of a track whose features exist.
pub open spec fn existing_track(
    frames: Seq<ImageFrame>,
    track: Seq<TrackObservation>,
    k: nat,
) -> Seq<TrackObservation>
    decreases k,
{
    if k == 0 {
        Seq::empty()
    } else {
        let rest = existing_track(frames, track, (k - 1) as nat);
        if has_feature(frames, track[k - 1].image as int, track[k - 1].feature as int) {
            rest.push(track[k - 1])
        } else {
            rest
        }
    }
}

pub open spec fn seeded_points(frames: Seq<ImageFrame>, points: Seq<Point3DView>) -> Seq<
    Point3DView,
> {
    Seq::new(
        points.len(),
        |p: int|
            Point3DView {
                track: existing_track(frames, points[p].track, points[p].track.len()),
                ..points[p]
            },
    )
}

/// The table with a feature given to a point, if the feature has a slot.
pub open spec fn slot_given(
    table: Seq<Seq<Option<usize>>>,
    obs: TrackObservation,
    point: usize,
) -> Seq<Seq<Option<usize>>> {
    if obs.image < table.len() && obs.feature < table[obs.image as int].len() {
        table.update(
            obs.image as int,
            table[obs.image as int].update(obs.feature as int, Some(point)),
        )
    } else {
        table
    }
}

pub open spec fn track_given(
    table: Seq<Seq<Option<usize>>>,
    track: Seq<TrackObservation>,
    point: usize,
    k: nat,
) -> Seq<Seq<Option<usize>>>
    decreases k,
{
    if k == 0 {
        table
    } else {
        slot_given(track_given(table, track, point, (k - 1) as nat), track[k - 1], point)
    }
}

pub open spec fn tracks_given(
    table: Seq<Seq<Option<usize>>>,
    points: Seq<Point3DView>,
    k: nat,
) -> Seq<Seq<Option<usize>>>
    decreases k,
{
    if k == 0 {
        table
    } else {
        track_given(
            tracks_given(table, points, (k - 1) as nat),
            points[k - 1].track,
            (k - 1) as usize,
            points[k - 1].track.len(),
        )
    }
}

/// A reconstruction that starts from a seed.
pub open spec fn seeded(
    r: ReconstructionView,
    seed: SeedView,
    frames: Seq<ImageFrame>,
) -> ReconstructionView {
    let points = seeded_points(frames, seed.points);
    ReconstructionView {
        poses: seeded_poses(r.poses, seed.poses),
        observations: tracks_given(
            Seq::new(r.observations.len(), |i: int| seeded_row(r, seed, frames, i)),
            points,
            points.len(),
        ),
        point_ids: seed.point_ids,
        points,
        ..r
    }
}

fn give_slot(table: &mut Vec<Vec<Option<usize>>>, obs: TrackObservation, point: usize)
    ensures
        table_view(final(table)@) == slot_given(table_view(old(table)@), obs, point),
{
    let ghost before = table_view(table@);
    if obs.image < table.len() && obs.feature < table[obs.image].len() {
        table[obs.image][obs.feature] = Some(point);
        assert(table_view(table@) =~= slot_given(before, obs, point));
    }
}

fn seed_row(
    old_row: &Vec<Option<usize>>,
    taken: &Vec<Option<usize>>,
    frame: Option<&ImageFrame>,
) -> (row: Vec<Option<usize>>)
    ensures
        row@ == Seq::new(
            match frame {
                Some(f) => f.keypoints@.len(),
                None => old_row@.len(),
            },
            |f: int|
                if f < taken@.len() {
                    taken@[f]
                } else {
                    None
                },
        ),
{
    let width: usize = match frame {
        Some(f) => f.keypoints.len(),
        None => old_row.len(),
    };
    let mut row: Vec<Option<usize>> = Vec::new();
    for f in 0..width
        invariant
            row@ == Seq::new(
                f as nat,
                |g: int|
                    if g < taken@.len() {
                        taken@[g]
                    } else {
                        None
                    },
            ),
    {
        row.push(
            if f < taken.len() {
                taken[f]
            } else {
                None
            },
        );
        assert(row@ =~= Seq::new(
            (f + 1) as nat,
            |g: int|
                if g < taken@.len() {
                    taken@[g]
                } else {
                    None
                },
        ));
    }
    row
}

fn keep_existing(track: &Vec<TrackObservation>, frames: &[ImageFrame]) -> (kept: Vec<
    TrackObservation,
>)
    ensures
        kept@ == existing_track(frames@, track@, track@.len()),
{
    let mut kept: Vec<TrackObservation> = Vec::new();
    for k in 0..track.len()
        invariant
            kept@ == existing_track(frames@, track@, k as nat),
    {
        let obs = track[k];
        if obs.image < frames.len() && obs.feature < frames[obs.image].keypoints.len() {
            kept.push(obs);
        }
    }
    kept
}

/// Puts a seed into a reconstruction. Observations of features that do not exist
/// are dropped; where tracks disagree about a feature, the last one has it.
pub fn apply_reconstruction_seed(
    reconstruction: &mut Reconstruction,
    seed: ReconstructionSeed,
    frames: &[ImageFrame],
)
    ensures
        final(reconstruction)@ == seeded(old(reconstruction)@, seed@, frames@),
{
    let ghost r = reconstruction@;
    let ghost given = seed@;
    let mut poses: Vec<Option<Pose>> = Vec::new();
    for i in 0..reconstruction.poses.len()
        invariant
            r == reconstruction@,
            poses@ == seeded_poses(r.poses, seed.poses@).take(i as int),
    {
        poses.push(
            if i < seed.poses.len() {
                seed.poses[i]
            } else {
                reconstruction.poses[i]
            },
        );
        assert(poses@ =~= seeded_poses(r.poses, seed.poses@).take(i + 1));
    }
    assert(poses@ =~= seeded_poses(r.poses, seed.poses@));
    let mut table: Vec<Vec<Option<usize>>> = Vec::new();
    let ghost rows = Seq::new(r.observations.len(), |i: int| seeded_row(r, given, frames@, i));
    let rows_count: usize = reconstruction.observations.len();
    for i in 0..rows_count
        invariant
            r == reconstruction@,
            given == seed@,
            rows_count == reconstruction.observations@.len(),
            rows == Seq::new(r.observations.len(), |i: int| seeded_row(r, given, frames@, i)),
            table_view(table@) == rows.take(i as int),
    {
        assert(r.observations[i as int] == reconstruction.observations@[i as int]@);
        let row: Vec<Option<usize>> = if i < seed.observations.len() {
            assert(given.observations[i as int] == seed.observations@[i as int]@);
            let frame: Option<&ImageFrame> = if i < frames.len() {
                Some(&frames[i])
            } else {
                None
            };
            seed_row(&reconstruction.observations[i], &seed.observations[i], frame)
        } else {
            let mut copy: Vec<Option<usize>> = Vec::new();
            let width: usize = reconstruction.observations[i].len();
            for f in 0..width
                invariant
                    i < reconstruction.observations@.len(),
                    width == reconstruction.observations@[i as int]@.len(),
                    copy@ == reconstruction.observations@[i as int]@.take(f as int),
            {
                copy.push(reconstruction.observations[i][f]);
                assert(copy@ =~= reconstruction.observations@[i as int]@.take(f + 1));
            }
            assert(copy@ =~= r.observations[i as int]);
            copy
        };
        assert(row@ =~= seeded_row(r, given, frames@, i as int));
        let ghost before = table@;
        table.push(row);
        assert(table_view(table@) =~= table_view(before).push(row@));
        assert(table_view(table@) =~= rows.take(i + 1));
    }
    assert(table_view(table@) =~= rows);
    let ghost goal = seeded_points(frames@, given.points);
    let mut points: Vec<Point3D> = seed.points;
    let n: usize = points.len();
    for p in 0..n
        invariant
            n == points@.len(),
            n == given.points.len(),
            goal == seeded_points(frames@, given.points),
            forall|q: int| 0 <= q < p ==> (#[trigger] points@[q])@ == goal[q],
            forall|q: int| p <= q < n ==> (#[trigger] points@[q])@ == given.points[q],
    {
        let track: Vec<TrackObservation> = keep_existing(&points[p].track, frames);
        let ghost before = points@;
        points[p].track = track;
        proof {
            assert(points@[p as int]@ =~= goal[p as int]);
            assert forall|q: int| 0 <= q < n && q != p implies (#[trigger] points@[q]) == before[q] by {}
        }
    }
    assert(points_view(points@) =~= goal);
    for p in 0..n
        invariant
            n == points@.len(),
            goal == points_view(points@),
            table_view(table@) == tracks_given(rows, goal, p as nat),
    {
        let ghost start = table_view(table@);
        let width: usize = points[p].track.len();
        assert(goal[p as int].track == points@[p as int].track@);
        for k in 0..width
            invariant
                p < points@.len(),
                width == points@[p as int].track@.len(),
                table_view(table@) == track_given(
                    start,
                    points@[p as int].track@,
                    p,
                    k as nat,
                ),
        {
            let obs = points[p].track[k];
            give_slot(&mut table, obs, p);
        }
    }
    reconstruction.poses = poses;
    reconstruction.observations = table;
    reconstruction.point_ids = seed.point_ids;
    reconstruction.points = points;
    assert(reconstruction@ =~= seeded(r, given, frames@));
}

/// Whether a reconstruction of some images has no structure and no poses yet.
pub open spec fn is_blank(r: ReconstructionView, frames: Seq<ImageFrame>) -> bool {
    &&& r.image_names.len() == frames.len()
    &&& r.keypoints.len() == frames.len()
    &&& r.observations.len() == frames.len()
    &&& forall|i: int|
        0 <= i < frames.len() ==> (#[trigger] r.image_names[i])@ == frames[i].name@
    &&& forall|i: int|
        0 <= i < frames.len() ==> (#[trigger] r.keypoints[i])@ == frames[i].keypoints@
    &&& forall|i: int|
        0 <= i < frames.len() ==> #[trigger] r.observations[i] == Seq::new(
            frames[i].keypoints@.len(),
            |f: int| None::<usize>,
        )
    &&& r.poses == Seq::new(frames.len(), |i: int| None::<Pose>)
    &&& r.points.len() == 0
    &&& r.point_ids.len() == 0
}

/// A reconstruction with cameras but nothing registered.
///
/// Without a setup all images share one camera of known focal length.
pub fn blank_reconstruction(
    frames: &[ImageFrame],
    camera: CameraModel,
    setup: Option<crate::camera_setup::ReferenceCameraSetup>,
) -> (made: (Reconstruction, Vec<bool>, Option<ReconstructionSeed>))
    requires
        frames@.len() <= u32::MAX,
    ensures
        is_blank(made.0@, frames@),
        made.0@.camera == camera,
        match setup {
            Some(s) => {
                &&& made.0@.cameras == s.cameras@
                &&& made.0@.camera_ids == s.camera_ids@
                &&& made.0@.rigs == s.rigs@
                &&& made.0@.frames == s.frames@
                &&& made.0@.image_ids == s.image_ids@
                &&& made.0@.image_camera_indices == s.image_camera_indices@
                &&& made.0@.image_frame_indices == s.image_frame_indices@
                &&& made.1 == s.camera_has_prior_focal_length
                &&& made.2 == s.seed_reconstruction
            },
            None => {
                &&& made.0@.cameras == seq![camera]
                &&& made.0@.camera_ids == seq![1u32]
                &&& made.0@.rigs.len() == 0
                &&& made.0@.frames.len() == 0
                &&& made.0@.image_ids == Seq::new(frames@.len(), |i: int| (i + 1) as u32)
                &&& made.0@.image_camera_indices == Seq::new(frames@.len(), |i: int| 0usize)
                &&& made.0@.image_frame_indices == Seq::new(
                    frames@.len(),
                    |i: int| None::<usize>,
                )
                &&& made.1@ == seq![true]
                &&& made.2 is None
            },
        },
{
    let mut image_names: Vec<String> = Vec::new();
    let mut keypoints: Vec<Vec<Keypoint>> = Vec::new();
    let mut observations: Vec<Vec<Option<usize>>> = Vec::new();
    let mut poses: Vec<Option<Pose>> = Vec::new();
    let mut image_ids: Vec<u32> = Vec::new();
    let mut camera_indices: Vec<usize> = Vec::new();
    let mut frame_indices: Vec<Option<usize>> = Vec::new();
    for i in 0..frames.len()
        invariant
            frames@.len() <= u32::MAX,
            image_names@.len() == i,
            keypoints@.len() == i,
            observations@.len() == i,
            forall|j: int| 0 <= j < i ==> (#[trigger] image_names@[j])@ == frames@[j].name@,
            forall|j: int| 0 <= j < i ==> (#[trigger] keypoints@[j])@ == frames@[j].keypoints@,
            forall|j: int|
                0 <= j < i ==> (#[trigger] observations@[j])@ == Seq::new(
                    frames@[j].keypoints@.len(),
                    |f: int| None::<usize>,
                ),
            poses@ == Seq::new(i as nat, |j: int| None::<Pose>),
            image_ids@ == Seq::new(i as nat, |j: int| (j + 1) as u32),
            camera_indices@ == Seq::new(i as nat, |j: int| 0usize),
            frame_indices@ == Seq::new(i as nat, |j: int| None::<usize>),
    {
        image_names.push(frames[i].name.clone());
        let mut points: Vec<Keypoint> = Vec::new();
        let mut row: Vec<Option<usize>> = Vec::new();
        let width: usize = frames[i].keypoints.len();
        for f in 0..width
            invariant
                i < frames@.len(),
                width == frames@[i as int].keypoints@.len(),
                points@ == frames@[i as int].keypoints@.take(f as int),
                row@ == Seq::new(f as nat, |g: int| None::<usize>),
        {
            points.push(frames[i].keypoints[f]);
            row.push(None);
            assert(points@ =~= frames@[i as int].keypoints@.take(f + 1));
            assert(row@ =~= Seq::new((f + 1) as nat, |g: int| None::<usize>));
        }
        assert(points@ =~= frames@[i as int].keypoints@);
        keypoints.push(points);
        observations.push(row);
        poses.push(None);
        image_ids.push(i as u32 + 1);
        camera_indices.push(0);
        frame_indices.push(None);
        assert(poses@ =~= Seq::new((i + 1) as nat, |j: int| None::<Pose>));
        assert(image_ids@ =~= Seq::new((i + 1) as nat, |j: int| (j + 1) as u32));
        assert(camera_indices@ =~= Seq::new((i + 1) as nat, |j: int| 0usize));
        assert(frame_indices@ =~= Seq::new((i + 1) as nat, |j: int| None::<usize>));
    }
    match setup {
        Some(s) => {
            let made = Reconstruction {
                camera,
                cameras: s.cameras,
                camera_ids: s.camera_ids,
                rigs: s.rigs,
                frames: s.frames,
                image_names,
                image_ids: s.image_ids,
                image_camera_indices: s.image_camera_indices,
                image_frame_indices: s.image_frame_indices,
                poses,
                observations,
                keypoints,
                point_ids: Vec::new(),
                points: Vec::new(),
            };
            (made, s.camera_has_prior_focal_length, s.seed_reconstruction)
        },
        None => {
            let mut cameras: Vec<CameraModel> = Vec::new();
            cameras.push(camera);
            let mut camera_ids: Vec<u32> = Vec::new();
            camera_ids.push(1);
            let mut flags: Vec<bool> = Vec::new();
            flags.push(true);
            let made = Reconstruction {
                camera,
                cameras,
                camera_ids,
                rigs: Vec::new(),
                frames: Vec::new(),
                image_names,
                image_ids,
                image_camera_indices: camera_indices,
                image_frame_indices: frame_indices,
                poses,
                observations,
                keypoints,
                point_ids: Vec::new(),
                points: Vec::new(),
            };
            (made, flags, None)
        },
    }
}

proof fn lemma_last_index_of_distinct(s: Seq<Seq<char>>, i: int)
    requires
        0 <= i < s.len() <= usize::MAX,
        forall|a: int, b: int| 0 <= a < b < s.len() ==> s[a] != s[b],
    ensures
        last_index(s, s[i]) == Some(i as usize),
    decreases s.len(),
{
    if i < s.len() - 1 {
        assert(s.last() != s[i]);
        let d = s.drop_last();
        assert forall|a: int, b: int| 0 <= a < b < d.len() implies d[a] != d[b] by {
            assert(s[a] != s[b]);
        }
        lemma_last_index_of_distinct(d, i);
    }
}

/// A model whose images have different names gives every image its own pose
/// back when all images are taken over in the same order.
pub proof fn law_seed_keeps_poses(r: ReconstructionView, file_names: Seq<Option<String>>)
    requires
        r.image_names.len() == r.poses.len() <= usize::MAX,
        file_names.len() == r.image_names.len(),
        forall|i: int|
            0 <= i < file_names.len() ==> (#[trigger] file_names[i]) is Some && file_names[i]->0@
                == r.image_names[i]@,
        forall|a: int, b: int|
            0 <= a < b < r.image_names.len() ==> (#[trigger] r.image_names[a])@ != (
            #[trigger] r.image_names[b])@,
    ensures
        seed_of(r, counterparts(r, file_names)).poses == r.poses,
{
    let names = names_view(r.image_names);
    let of = counterparts(r, file_names);
    assert forall|a: int, b: int| 0 <= a < b < names.len() implies names[a] != names[b] by {
        assert(r.image_names[a]@ != r.image_names[b]@);
    }
    assert forall|i: int| 0 <= i < of.len() implies #[trigger] of[i] == Some(i as usize) by {
        assert(file_names[i] is Some);
        assert(names[i] == r.image_names[i]@);
        lemma_last_index_of_distinct(names, i);
    }
    assert(seed_of(r, of).poses =~= r.poses);
}

} // verus!
