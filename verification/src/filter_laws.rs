//! What holds while the points of a model are judged one after the other.

use crate::observation_laws::{law_delete_point_keeps_agreement, table_fits, tracks_agree};
use crate::observation_manager::{point_deleted, points_fit, Edited};
use crate::scalar::Real32;
use crate::track_edits::track_valid;
use crate::track_filter::{
    deletions_done, flawed_at, flawed_observations, is_flawed, lemma_flawed_members,
    lemma_listed_prefix, lemma_position_keeps_agreement, listed_deleted, observations_judged,
    track_judged, ObservationCheck, TrackFit,
};
use crate::types::{ImageFrame, Point3DView, ReconstructionView, TrackObservation};
use vstd::prelude::*;

verus! {

/// The observations of all points together.
pub open spec fn total_observations(points: Seq<Point3DView>) -> nat
    decreases points.len(),
{
    if points.len() == 0 {
        0
    } else {
        total_observations(points.drop_last()) + points.last().track.len()
    }
}

proof fn lemma_total_update(points: Seq<Point3DView>, i: int, point: Point3DView)
    requires
        0 <= i < points.len(),
    ensures
        total_observations(points.update(i, point)) + points[i].track.len() == total_observations(
            points,
        ) + point.track.len(),
    decreases points.len(),
{
    let after = points.update(i, point);
    if i == points.len() - 1 {
        assert(after.drop_last() =~= points.drop_last());
    } else {
        assert(after.drop_last() =~= points.drop_last().update(i, point));
        lemma_total_update(points.drop_last(), i, point);
    }
}

proof fn lemma_total_remove(points: Seq<Point3DView>, i: int)
    requires
        0 <= i < points.len(),
    ensures
        total_observations(points.remove(i)) + points[i].track.len() == total_observations(points),
    decreases points.len(),
{
    let after = points.remove(i);
    if i == points.len() - 1 {
        assert(after =~= points.drop_last());
    } else {
        assert(after.drop_last() =~= points.drop_last().remove(i));
        lemma_total_remove(points.drop_last(), i);
    }
}

/// Whether a point has two observations at least and no fewer than `least`, all
/// of them in registered images.
pub open spec fn is_sound(r: ReconstructionView, point: int, least: usize) -> bool {
    let track = r.points[point].track;
    &&& track.len() >= 2
    &&& track.len() >= least
    &&& forall|k: int| 0 <= k < track.len() ==> r.registered((#[trigger] track[k]).image as int)
}

/// What holds while points are judged, once `removed` observations are gone and
/// `point` is the one to judge: as many observations have left the model, every
/// point before is sound, and tracks and table agree.
pub open spec fn walk_holds(
    start: ReconstructionView,
    s: Edited,
    point: usize,
    removed: int,
    least: usize,
) -> bool {
    &&& table_fits(s.r)
    &&& points_fit(s.r)
    &&& tracks_agree(s.r)
    &&& point <= s.r.points.len()
    &&& removed + total_observations(s.r.points) == total_observations(start.points)
    &&& forall|p: int| 0 <= p < point ==> #[trigger] is_sound(s.r, p, least)
}

/// It holds before the first point is judged.
pub proof fn law_filter_starts(s: Edited, least: usize)
    requires
        table_fits(s.r),
        points_fit(s.r),
        tracks_agree(s.r),
    ensures
        walk_holds(s.r, s, 0, 0, least),
{
}

proof fn lemma_point_goes(
    start: ReconstructionView,
    s: Edited,
    point: usize,
    removed: int,
    least: usize,
)
    requires
        walk_holds(start, s, point, removed, least),
        point < s.r.points.len(),
    ensures
        walk_holds(
            start,
            point_deleted(s, point),
            point,
            removed + s.r.points[point as int].track.len(),
            least,
        ),
{
    let after = point_deleted(s, point).r;
    law_delete_point_keeps_agreement(s, point);
    lemma_total_remove(s.r.points, point as int);
    assert forall|i: int| 0 <= i < after.observations.len() implies (
    #[trigger] after.observations[i]).len() <= usize::MAX by {
        assert(s.r.observations[i].len() <= usize::MAX);
    }
    assert forall|p: int| 0 <= p < point implies #[trigger] is_sound(after, p, least) by {
        assert(is_sound(s.r, p, least));
        assert(after.points[p] == s.r.points[p]);
    }
}

/// Deleting the flawed observations of a point that keeps two good ones takes
/// just those away.
proof fn lemma_flawed_go(
    start: ReconstructionView,
    s: Edited,
    frames: Seq<ImageFrame>,
    point: usize,
    removed: int,
    checks: Seq<ObservationCheck>,
    max_error: Real32,
    least: usize,
)
    requires
        walk_holds(start, s, point, removed, least),
        point < s.r.points.len(),
        checks.len() == s.r.points[point as int].track.len(),
        flawed_observations(
            frames,
            s.r,
            s.r.points[point as int].track,
            checks,
            max_error,
            checks.len(),
        ).len() + 1 < checks.len(),
    ensures
        ({
            let track = s.r.points[point as int].track;
            let flawed = flawed_observations(frames, s.r, track, checks, max_error, track.len());
            let after = listed_deleted(s, flawed, flawed.len());
            let left = after.r.points[point as int].track;
            &&& walk_holds(start, after, point, removed + flawed.len(), least)
            &&& deletions_done(s, flawed, flawed.len()) == flawed.len()
            &&& point < after.r.points.len()
            &&& left.len() >= 2
            &&& forall|k: int|
                0 <= k < left.len() ==> after.r.registered((#[trigger] left[k]).image as int)
        }),
{
    let track = s.r.points[point as int].track;
    let n = track.len();
    let flawed = flawed_observations(frames, s.r, track, checks, max_error, n);
    let after = listed_deleted(s, flawed, flawed.len());
    let left = after.r.points[point as int].track;
    assert(track_valid(s.r, track));
    lemma_flawed_members(frames, s.r, track, checks, max_error, n);
    assert forall|i: int| 0 <= i < flawed.len() implies track.contains(#[trigger] flawed[i]) by {
        let j = choose|j: int|
            0 <= j < n && #[trigger] flawed_at(
                frames,
                s.r,
                track,
                checks,
                max_error,
                j,
                flawed[i],
            );
        assert(track[j] == flawed[i]);
    }
    lemma_listed_prefix(s, point, flawed, flawed.len());
    assert(flawed.take(flawed.len() as int) =~= flawed);
    assert(after.r.points =~= s.r.points.update(point as int, after.r.points[point as int]));
    lemma_total_update(s.r.points, point as int, after.r.points[point as int]);
    assert forall|p: int| 0 <= p < point implies #[trigger] is_sound(after.r, p, least) by {
        assert(is_sound(s.r, p, least));
        assert(after.r.points[p] == s.r.points[p]);
    }
    assert forall|k: int| 0 <= k < left.len() implies after.r.registered(
        (#[trigger] left[k]).image as int,
    ) by {
        assert(left.contains(left[k]));
        assert(track.contains(left[k]));
        let j = choose|j: int| 0 <= j < track.len() && track[j] == left[k];
        if !s.r.registered(track[j].image as int) {
            assert(is_flawed(frames, s.r, track[j], checks[j], max_error));
            lemma_flawed_listed(frames, s.r, track, checks, max_error, n, j);
        }
    }
}

proof fn lemma_flawed_listed(
    frames: Seq<ImageFrame>,
    r: ReconstructionView,
    track: Seq<TrackObservation>,
    checks: Seq<ObservationCheck>,
    max_error: Real32,
    k: nat,
    j: int,
)
    requires
        0 <= j < k,
        is_flawed(frames, r, track[j], checks[j], max_error),
    ensures
        flawed_observations(frames, r, track, checks, max_error, k).contains(track[j]),
    decreases k,
{
    let list = flawed_observations(frames, r, track, checks, max_error, k);
    let rest = flawed_observations(frames, r, track, checks, max_error, (k - 1) as nat);
    if j == k - 1 {
        assert(list[list.len() - 1] == track[j]);
    } else {
        lemma_flawed_listed(frames, r, track, checks, max_error, (k - 1) as nat, j);
        let i = choose|i: int| 0 <= i < rest.len() && rest[i] == track[j];
        assert(list[i] == track[j]);
    }
}

/// Judging the observations of a point keeps what holds. If the point stays, it
/// is sound.
pub proof fn law_filter_judges_observations(
    start: ReconstructionView,
    s: Edited,
    frames: Seq<ImageFrame>,
    point: usize,
    removed: int,
    checks: Seq<ObservationCheck>,
    max_error: Real32,
    least: usize,
)
    requires
        walk_holds(start, s, point, removed, least),
        point < s.r.points.len(),
        checks.len() == s.r.points[point as int].track.len(),
    ensures
        ({
            let judged = observations_judged(s, frames, point, checks, max_error, least);
            &&& walk_holds(start, judged.model, point, removed + judged.removed, least)
            &&& judged.outcome is Kept ==> {
                &&& point < judged.model.r.points.len()
                &&& is_sound(judged.model.r, point as int, least)
            }
        }),
{
    let track = s.r.points[point as int].track;
    let flawed = flawed_observations(frames, s.r, track, checks, max_error, track.len());
    if flawed.len() + 1 >= track.len() {
        lemma_point_goes(start, s, point, removed, least);
    } else {
        let after = listed_deleted(s, flawed, flawed.len());
        lemma_flawed_go(start, s, frames, point, removed, checks, max_error, least);
        if after.r.points[point as int].track.len() < least {
            lemma_point_goes(start, after, point, removed + flawed.len(), least);
        }
    }
}

/// Judging the track of a sound point keeps what holds, at the next point if the
/// point stays.
pub proof fn law_filter_judges_track(
    start: ReconstructionView,
    s: Edited,
    point: usize,
    removed: int,
    fit: TrackFit,
    least: usize,
)
    requires
        walk_holds(start, s, point, removed, least),
        point < s.r.points.len(),
        is_sound(s.r, point as int, least),
    ensures
        ({
            let (model, kept) = track_judged(s, point, fit);
            if kept {
                walk_holds(start, model, (point + 1) as usize, removed, least)
            } else {
                walk_holds(
                    start,
                    model,
                    point,
                    removed + s.r.points[point as int].track.len(),
                    least,
                )
            }
        }),
{
    let (model, kept) = track_judged(s, point, fit);
    if kept {
        let moved = model.r.points[point as int];
        lemma_position_keeps_agreement(s.r, point as int, moved.xyz, moved.error);
        assert(model.r.points =~= s.r.points.update(point as int, moved));
        lemma_total_update(s.r.points, point as int, moved);
        assert forall|p: int| 0 <= p < point + 1 implies #[trigger] is_sound(
            model.r,
            p,
            least,
        ) by {
            assert(is_sound(s.r, p, least));
            assert(model.r.points[p].track == s.r.points[p].track);
        }
    } else {
        lemma_point_goes(start, s, point, removed, least);
    }
}

proof fn lemma_none_flawed(
    frames: Seq<ImageFrame>,
    r: ReconstructionView,
    track: Seq<TrackObservation>,
    checks: Seq<ObservationCheck>,
    max_error: Real32,
    k: nat,
)
    requires
        k <= track.len(),
        forall|j: int|
            0 <= j < track.len() ==> !is_flawed(
                frames,
                r,
                #[trigger] track[j],
                checks[j],
                max_error,
            ),
    ensures
        flawed_observations(frames, r, track, checks, max_error, k) == Seq::<
            TrackObservation,
        >::empty(),
    decreases k,
{
    if k > 0 {
        lemma_none_flawed(frames, r, track, checks, max_error, (k - 1) as nat);
        assert(!is_flawed(frames, r, track[k - 1], checks[k - 1], max_error));
    }
}

/// A sound point without a flawed observation is kept as it is.
pub proof fn law_filter_keeps_sound_points(
    s: Edited,
    frames: Seq<ImageFrame>,
    point: usize,
    checks: Seq<ObservationCheck>,
    max_error: Real32,
    least: usize,
)
    requires
        point < s.r.points.len(),
        is_sound(s.r, point as int, least),
        forall|j: int|
            0 <= j < s.r.points[point as int].track.len() ==> !is_flawed(
                frames,
                s.r,
                #[trigger] s.r.points[point as int].track[j],
                checks[j],
                max_error,
            ),
    ensures
        ({
            let judged = observations_judged(s, frames, point, checks, max_error, least);
            judged.model == s && judged.removed == 0 && judged.outcome is Kept
        }),
{
    let track = s.r.points[point as int].track;
    lemma_none_flawed(frames, s.r, track, checks, max_error, track.len());
}

/// Once no point is left to judge, every point is sound, and the number of
/// removed observations is the drop of their total.
pub proof fn law_filter_ends(
    start: ReconstructionView,
    s: Edited,
    point: usize,
    removed: int,
    least: usize,
)
    requires
        walk_holds(start, s, point, removed, least),
        point >= s.r.points.len(),
    ensures
        forall|p: int| 0 <= p < s.r.points.len() ==> #[trigger] is_sound(s.r, p, least),
        removed == total_observations(start.points) - total_observations(s.r.points),
{
}

} // verus!
