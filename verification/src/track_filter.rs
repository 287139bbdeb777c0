//! Removal of observations and points that do not fit the model.
//!
//! Points are visited in order. What has to be measured on a point, its depths,
//! errors and angles, is passed in; what follows from it is decided here.

use crate::links::{has_feature, links_fit};
use crate::observation_laws::{
    law_delete_observation_keeps_agreement, law_statistics_ignore_positions,
    lemma_track_without_contains, stands_in_track, table_fits, tracks_agree,
};
use crate::observation_manager::{
    observation_deleted, point_deleted, points_fit, Edited, ObservationManager,
};
use crate::scalar::Real32;
use crate::track_edits::{track_valid, track_without};
use crate::types::{
    ImageFrame, PairGeometry, Point3DView, Reconstruction, ReconstructionView, TrackObservation,
};
use vstd::prelude::*;

verus! {

/// What was measured on an observation: whether the point lies in front of the
/// camera, and the reprojection error.
#[derive(Debug, Clone, Copy, PartialEq, Eq, Structural)]
pub struct ObservationCheck {
    pub positive_depth: bool,
    pub error: Real32,
}

/// What was measured on a track.
#[derive(Debug, Clone, Copy)]
pub struct TrackFit {
    /// Whether the track spans the least triangulation angle.
    pub angle_ok: bool,
    /// A new position that is in front of all cameras and spans the angle,
    /// with its error.
    pub retriangulated: Option<([Real32; 3], Real32)>,
    /// The mean error at the present position.
    pub mean_error: Option<Real32>,
}

/// Whether an observation has to go.
pub open spec fn is_flawed(
    frames: Seq<ImageFrame>,
    r: ReconstructionView,
    obs: TrackObservation,
    check: ObservationCheck,
    max_error: Real32,
) -> bool {
    ||| !r.registered(obs.image as int)
    ||| !has_feature(frames, obs.image as int, obs.feature as int)
    ||| !check.positive_depth
    ||| r.camera_of(obs.image as int).bogus
    ||| !check.error.finite()
    ||| max_error.below(check.error)
}

/// The flawed ones among the first `k` observations of a track.
pub open spec fn flawed_observations(
    frames: Seq<ImageFrame>,
    r: ReconstructionView,
    track: Seq<TrackObservation>,
    checks: Seq<ObservationCheck>,
    max_error: Real32,
    k: nat,
) -> Seq<TrackObservation>
    decreases k,
{
    if k == 0 {
        Seq::empty()
    } else {
        let rest = flawed_observations(frames, r, track, checks, max_error, (k - 1) as nat);
        if is_flawed(frames, r, track[k - 1], checks[k - 1], max_error) {
            rest.push(track[k - 1])
        } else {
            rest
        }
    }
}

/// The model after deleting the first `k` of a list of observations.
pub open spec fn listed_deleted(s: Edited, list: Seq<TrackObservation>, k: nat) -> Edited
    decreases k,
{
    if k == 0 {
        s
    } else {
        observation_deleted(
            listed_deleted(s, list, (k - 1) as nat),
            list[k - 1].image,
            list[k - 1].feature,
        )
    }
}

/// How many of the first `k` deletions found an observation.
pub open spec fn deletions_done(s: Edited, list: Seq<TrackObservation>, k: nat) -> nat
    decreases k,
{
    if k == 0 {
        0
    } else {
        let m = (k - 1) as nat;
        deletions_done(s, list, m) + (if listed_deleted(s, list, m).r.observed(
            list[k - 1].image as int,
            list[k - 1].feature as int,
        ) is Some {
            1nat
        } else {
            0nat
        })
    }
}

/// What became of a point when its observations were judged.
#[derive(Debug, Clone, Copy, PartialEq, Eq, Structural)]
pub enum ObservationOutcome {
    /// The point is gone; the same position is to be looked at again.
    Dropped,
    /// The point stays and its track is to be judged.
    Kept,
}

/// Visits the points of a model.
#[derive(Debug, Clone, Copy, PartialEq, Eq, Structural)]
pub struct TrackFilter {
    pub point_id: usize,
    pub removed: usize,
}

/// Model, observations removed and outcome of judging observations.
pub struct Judged {
    pub model: Edited,
    pub removed: nat,
    pub outcome: ObservationOutcome,
}

/// Judges the observations of a point. A point left with fewer than two good
/// observations goes, and so does one whose track got too short.
pub open spec fn observations_judged(
    s: Edited,
    frames: Seq<ImageFrame>,
    point: usize,
    checks: Seq<ObservationCheck>,
    max_error: Real32,
    min_track_length: usize,
) -> Judged {
    let track = s.r.points[point as int].track;
    let flawed = flawed_observations(frames, s.r, track, checks, max_error, track.len());
    if flawed.len() + 1 >= track.len() {
        Judged {
            model: point_deleted(s, point),
            removed: track.len(),
            outcome: ObservationOutcome::Dropped,
        }
    } else {
        let after = listed_deleted(s, flawed, flawed.len());
        let done = deletions_done(s, flawed, flawed.len());
        if point >= after.r.points.len() {
            Judged { model: after, removed: done, outcome: ObservationOutcome::Dropped }
        } else if after.r.points[point as int].track.len() < min_track_length {
            Judged {
                model: point_deleted(after, point),
                removed: done + after.r.points[point as int].track.len(),
                outcome: ObservationOutcome::Dropped,
            }
        } else {
            Judged { model: after, removed: done, outcome: ObservationOutcome::Kept }
        }
    }
}

pub open spec fn with_position(
    r: ReconstructionView,
    point: int,
    xyz: [Real32; 3],
    error: Real32,
) -> ReconstructionView {
    ReconstructionView {
        points: r.points.update(point, (Point3DView { xyz, error, ..r.points[point] })),
        ..r
    }
}

/// Judges the track of a point: it goes if it spans too small an angle or
/// cannot be measured; else it takes the new position or the measured error.
pub open spec fn track_judged(s: Edited, point: usize, fit: TrackFit) -> (Edited, bool) {
    if !fit.angle_ok {
        (point_deleted(s, point), false)
    } else {
        match fit.retriangulated {
            Some((xyz, error)) => (
                Edited { r: with_position(s.r, point as int, xyz, error), ..s },
                true,
            ),
            None => match fit.mean_error {
                Some(error) => (
                    Edited {
                        r: with_position(s.r, point as int, s.r.points[point as int].xyz, error),
                        ..s
                    },
                    true,
                ),
                None => (point_deleted(s, point), false),
            },
        }
    }
}

/// No track is longer than `bound`.
pub open spec fn tracks_bounded(r: ReconstructionView, bound: int) -> bool {
    forall|q: int| 0 <= q < r.points.len() ==> (#[trigger] r.points[q]).track.len() <= bound
}

proof fn lemma_track_without_len(track: Seq<TrackObservation>, obs: TrackObservation)
    ensures
        track_without(track, obs).len() <= track.len(),
    decreases track.len(),
{
    if track.len() > 0 && track[0] != obs {
        lemma_track_without_len(track.skip(1), obs);
    }
}

proof fn lemma_deletion_bounded(s: Edited, image: usize, feature: usize, bound: int)
    requires
        tracks_bounded(s.r, bound),
    ensures
        tracks_bounded(observation_deleted(s, image, feature).r, bound),
        observation_deleted(s, image, feature).r.points.len() <= s.r.points.len(),
{
    let after = observation_deleted(s, image, feature).r;
    match s.r.observed(image as int, feature as int) {
        None => {},
        Some(point) => {
            if point < s.r.points.len() {
                let track = s.r.points[point as int].track;
                lemma_track_without_len(track, (TrackObservation { image, feature }));
                assert forall|q: int| 0 <= q < after.points.len() implies (#[trigger] after.points[q]).track.len()
                    <= bound by {
                    if track.len() <= 2 {
                        let p = if q < point { q } else { q + 1 };
                        assert(s.r.points[p].track.len() <= bound);
                        assert(after.points[q] == s.r.points[p]);
                    } else {
                        assert(s.r.points[q].track.len() <= bound);
                    }
                }
            }
        },
    }
}

proof fn lemma_flawed_len(
    frames: Seq<ImageFrame>,
    r: ReconstructionView,
    track: Seq<TrackObservation>,
    checks: Seq<ObservationCheck>,
    max_error: Real32,
    k: nat,
)
    ensures
        flawed_observations(frames, r, track, checks, max_error, k).len() <= k,
    decreases k,
{
    if k > 0 {
        lemma_flawed_len(frames, r, track, checks, max_error, (k - 1) as nat);
    }
}

impl TrackFilter {
    pub fn new() -> (filter: TrackFilter)
        ensures
            filter == (TrackFilter { point_id: 0, removed: 0 }),
    {
        TrackFilter { point_id: 0, removed: 0 }
    }

    /// Whether a point is left to be judged.
    pub fn pending(&self, reconstruction: &Reconstruction) -> (b: bool)
        ensures
            b == (self.point_id < reconstruction@.points.len()),
    {
        self.point_id < reconstruction.points.len()
    }

    /// Judges the observations of the present point.
    pub fn judge_observations(
        &mut self,
        frames: &[ImageFrame],
        pairs: &[PairGeometry],
        reconstruction: &mut Reconstruction,
        observation_manager: &mut ObservationManager,
        checks: &[ObservationCheck],
        max_error: Real32,
        min_track_length: usize,
    ) -> (outcome: ObservationOutcome)
        requires
            links_fit(pairs@),
            points_fit(old(reconstruction)@),
            old(self).point_id < old(reconstruction)@.points.len(),
            checks@.len() == old(reconstruction)@.points[old(self).point_id as int].track.len(),
            tracks_bounded(
                old(reconstruction)@,
                usize::MAX - old(self).removed - checks@.len(),
            ),
        ensures
            ({
                let judged = observations_judged(
                    old(observation_manager).edited(old(reconstruction)@),
                    frames@,
                    old(self).point_id,
                    checks@,
                    max_error,
                    min_track_length,
                );
                &&& final(observation_manager).edited(final(reconstruction)@) == judged.model
                &&& outcome == judged.outcome
                &&& final(self).point_id == old(self).point_id
                &&& final(self).removed == old(self).removed + judged.removed
                &&& outcome is Kept ==> final(self).point_id < final(reconstruction)@.points.len()
            }),
            old(observation_manager).reflects(frames@, pairs@, old(reconstruction)@)
                ==> final(observation_manager).reflects(frames@, pairs@, final(reconstruction)@),
    {
        let ghost s = observation_manager.edited(reconstruction@);
        let point_id: usize = self.point_id;
        let ghost track = s.r.points[point_id as int].track;
        let ghost bound = usize::MAX - old(self).removed - checks@.len();
        let len: usize = reconstruction.points[point_id].track.len();
        let mut flawed: Vec<TrackObservation> = Vec::new();
        for k in 0..len
            invariant
                s.r == reconstruction@,
                point_id < reconstruction@.points.len(),
                track == reconstruction.points@[point_id as int].track@,
                len == track.len(),
                checks@.len() == len,
                flawed@ == flawed_observations(
                    frames@,
                    s.r,
                    track,
                    checks@,
                    max_error,
                    k as nat,
                ),
        {
            let obs = reconstruction.points[point_id].track[k];
            let check = checks[k];
            if !reconstruction.is_registered(obs.image) || obs.image >= frames.len() || obs.feature
                >= frames[obs.image].keypoints.len() || !check.positive_depth
                || reconstruction.camera_for_image(obs.image).bogus || !check.error.is_finite()
                || max_error.lt(&check.error) {
                flawed.push(obs);
            }
        }
        proof {
            lemma_flawed_len(frames@, s.r, track, checks@, max_error, track.len());
            assert(s.r.points[point_id as int].track.len() <= bound);
        }
        if len <= 1 || flawed.len() >= len - 1 {
            self.removed = self.removed + len;
            observation_manager.delete_point3d(frames, pairs, reconstruction, point_id);
            return ObservationOutcome::Dropped;
        }
        let mut done: usize = 0;
        for k in 0..flawed.len()
            invariant
                links_fit(pairs@),
                points_fit(s.r),
                observation_manager.edited(reconstruction@) == listed_deleted(s, flawed@, k as nat),
                done == deletions_done(s, flawed@, k as nat),
                done <= k,
                flawed@.len() <= checks@.len(),
                tracks_bounded(reconstruction@, bound),
                reconstruction@.points.len() <= s.r.points.len(),
                old(observation_manager).reflects(frames@, pairs@, old(reconstruction)@)
                    ==> observation_manager.reflects(frames@, pairs@, reconstruction@),
        {
            let obs = flawed[k];
            let ghost before = observation_manager.edited(reconstruction@);
            proof {
                lemma_deletion_bounded(before, obs.image, obs.feature, bound);
                assert(before.r == reconstruction@);
            }
            if observation_manager.delete_observation(
                frames,
                pairs,
                reconstruction,
                obs.image,
                obs.feature,
            ) {
                done = done + 1;
            }
        }
        self.removed = self.removed + done;
        let ghost after = observation_manager.edited(reconstruction@);
        assert(after.r == reconstruction@);
        if point_id >= reconstruction.points.len() {
            return ObservationOutcome::Dropped;
        }
        let left: usize = reconstruction.points[point_id].track.len();
        assert(reconstruction@.points[point_id as int].track.len() <= bound);
        if left < min_track_length {
            self.removed = self.removed + left;
            observation_manager.delete_point3d(frames, pairs, reconstruction, point_id);
            return ObservationOutcome::Dropped;
        }
        ObservationOutcome::Kept
    }

    /// Judges the track of the present point, and goes on to the next one if
    /// the point stays.
    pub fn judge_track(
        &mut self,
        frames: &[ImageFrame],
        pairs: &[PairGeometry],
        reconstruction: &mut Reconstruction,
        observation_manager: &mut ObservationManager,
        fit: TrackFit,
    )
        requires
            links_fit(pairs@),
            points_fit(old(reconstruction)@),
            old(self).point_id < old(reconstruction)@.points.len(),
            old(self).removed + old(reconstruction)@.points[old(self).point_id as int].track.len()
                <= usize::MAX,
        ensures
            ({
                let s = old(observation_manager).edited(old(reconstruction)@);
                let (model, kept) = track_judged(s, old(self).point_id, fit);
                &&& final(observation_manager).edited(final(reconstruction)@) == model
                &&& final(self).point_id == (if kept {
                    old(self).point_id + 1
                } else {
                    old(self).point_id as int
                })
                &&& final(self).removed == (if kept {
                    old(self).removed as int
                } else {
                    old(self).removed + s.r.points[old(self).point_id as int].track.len()
                })
            }),
            old(observation_manager).reflects(frames@, pairs@, old(reconstruction)@)
                ==> final(observation_manager).reflects(frames@, pairs@, final(reconstruction)@),
    {
        let point_id: usize = self.point_id;
        let num_points: usize = reconstruction.points.len();
        let ghost s = observation_manager.edited(reconstruction@);
        let kept: bool = if !fit.angle_ok {
            false
        } else {
            match fit.retriangulated {
                Some((xyz, error)) => {
                    reconstruction.points[point_id].xyz = xyz;
                    reconstruction.points[point_id].error = error;
                    proof {
                        assert(reconstruction@.points =~= with_position(
                            s.r,
                            point_id as int,
                            xyz,
                            error,
                        ).points);
                        assert(reconstruction@ =~= with_position(
                            s.r,
                            point_id as int,
                            xyz,
                            error,
                        ));
                    }
                    true
                },
                None => match fit.mean_error {
                    Some(error) => {
                        reconstruction.points[point_id].error = error;
                        proof {
                            let xyz = s.r.points[point_id as int].xyz;
                            assert(reconstruction@.points =~= with_position(
                                s.r,
                                point_id as int,
                                xyz,
                                error,
                            ).points);
                            assert(reconstruction@ =~= with_position(
                                s.r,
                                point_id as int,
                                xyz,
                                error,
                            ));
                        }
                        true
                    },
                    None => false,
                },
            }
        };
        if kept {
            proof {
                if observation_manager.reflects(frames@, pairs@, s.r) {
                    law_statistics_ignore_positions(
                        *observation_manager,
                        frames@,
                        pairs@,
                        s.r,
                        reconstruction@,
                    );
                }
            }
            self.point_id = self.point_id + 1;
        } else {
            self.removed = self.removed + reconstruction.points[point_id].track.len();
            observation_manager.delete_point3d(frames, pairs, reconstruction, point_id);
        }
    }
}

/// Moving a point keeps tracks and table in agreement.
pub proof fn lemma_position_keeps_agreement(
    r: ReconstructionView,
    point: int,
    xyz: [Real32; 3],
    error: Real32,
)
    requires
        tracks_agree(r),
        0 <= point < r.points.len(),
    ensures
        tracks_agree(with_position(r, point, xyz, error)),
{
    let after = with_position(r, point, xyz, error);
    assert forall|p: int| 0 <= p < after.points.len() implies #[trigger] after.points[p].track
        == r.points[p].track by {}
    assert forall|p: int| 0 <= p < after.points.len() implies track_valid(
        after,
        (#[trigger] after.points[p]).track,
    ) by {
        assert(track_valid(r, r.points[p].track));
        assert forall|k: int| 0 <= k < after.points[p].track.len() implies after.has_slot(
            #[trigger] after.points[p].track[k],
        ) by {
            assert(r.has_slot(r.points[p].track[k]));
        }
    }
    assert forall|p: int, k: int|
        0 <= p < after.points.len() && 0 <= k < after.points[p].track.len() implies {
        let obs = #[trigger] after.points[p].track[k];
        after.observations[obs.image as int][obs.feature as int] == Some(p as usize)
    } by {
        assert(r.points[p].track[k] == after.points[p].track[k]);
    }
    assert forall|i: int, f: int|
        0 <= i < after.observations.len() && 0 <= f
            < after.observations[i].len() implies stands_in_track(
        after,
        i,
        f,
        #[trigger] after.observations[i][f],
    ) by {
        assert(stands_in_track(r, i, f, r.observations[i][f]));
    }
}

/// Every judgement makes progress: a point goes, or the next one comes up.
pub proof fn law_filter_terminates(s: Edited, point: usize, fit: TrackFit)
    requires
        point < s.r.points.len(),
    ensures
        ({
            let (model, kept) = track_judged(s, point, fit);
            if kept {
                model.r.points.len() == s.r.points.len()
            } else {
                model.r.points.len() == s.r.points.len() - 1
            }
        }),
{
}

/// If tracks and observations agree, judging never deletes more than the
/// flawed observations of a point that keeps two good ones.
pub proof fn law_good_observations_stay(
    s: Edited,
    frames: Seq<ImageFrame>,
    point: usize,
    checks: Seq<ObservationCheck>,
    max_error: Real32,
)
    requires
        table_fits(s.r),
        points_fit(s.r),
        tracks_agree(s.r),
        point < s.r.points.len(),
        checks.len() == s.r.points[point as int].track.len(),
        flawed_observations(
            frames,
            s.r,
            s.r.points[point as int].track,
            checks,
            max_error,
            checks.len(),
        ).len() + 1 < checks.len(),
    ensures
        ({
            let track = s.r.points[point as int].track;
            let flawed = flawed_observations(frames, s.r, track, checks, max_error, track.len());
            let after = listed_deleted(s, flawed, flawed.len());
            &&& after.r.points.len() == s.r.points.len()
            &&& after.r.points[point as int].track.len() == track.len() - flawed.len()
            &&& forall|k: int|
                0 <= k < track.len() && !is_flawed(
                    frames,
                    s.r,
                    #[trigger] track[k],
                    checks[k],
                    max_error,
                ) ==> after.r.points[point as int].track.contains(track[k])
        }),
{
    let track = s.r.points[point as int].track;
    let n = track.len();
    let flawed = flawed_observations(frames, s.r, track, checks, max_error, n);
    lemma_flawed_members(frames, s.r, track, checks, max_error, n);
    assert(track_valid(s.r, track));
    assert forall|i: int| 0 <= i < flawed.len() implies track.contains(#[trigger] flawed[i]) by {
        let j = choose|j: int|
            0 <= j < n && #[trigger] flawed_at(
                frames,
                s.r,
                track,
                checks,
                max_error,
                j,
                flawed[i],
            );
        assert(track[j] == flawed[i]);
    }
    lemma_listed_prefix(s, point, flawed, flawed.len());
    assert(flawed.take(flawed.len() as int) =~= flawed);
    assert forall|k: int|
        0 <= k < n && !is_flawed(
            frames,
            s.r,
            #[trigger] track[k],
            checks[k],
            max_error,
        ) implies listed_deleted(s, flawed, flawed.len()).r.points[point as int].track.contains(
        track[k],
    ) by {
        assert(track.contains(track[k]));
        if flawed.contains(track[k]) {
            let i = choose|i: int| 0 <= i < flawed.len() && flawed[i] == track[k];
            let j = choose|j: int|
                0 <= j < n && #[trigger] flawed_at(
                    frames,
                    s.r,
                    track,
                    checks,
                    max_error,
                    j,
                    flawed[i],
                );
            if j < k {
                assert(track[j].image != track[k].image);
            } else if k < j {
                assert(track[k].image != track[j].image);
            }
        }
    }
}

/// Whether position `j` of a track holds a flawed observation.
pub open spec fn flawed_at(
    frames: Seq<ImageFrame>,
    r: ReconstructionView,
    track: Seq<TrackObservation>,
    checks: Seq<ObservationCheck>,
    max_error: Real32,
    j: int,
    obs: TrackObservation,
) -> bool {
    track[j] == obs && is_flawed(frames, r, track[j], checks[j], max_error)
}

/// Whether an observation is a flawed one of the first `k` of a track.
pub open spec fn flawed_below(
    frames: Seq<ImageFrame>,
    r: ReconstructionView,
    track: Seq<TrackObservation>,
    checks: Seq<ObservationCheck>,
    max_error: Real32,
    k: int,
    obs: TrackObservation,
) -> bool {
    exists|j: int| 0 <= j < k && #[trigger] flawed_at(frames, r, track, checks, max_error, j, obs)
}

/// Flawed observations are distinct members of the track.
pub proof fn lemma_flawed_members(
    frames: Seq<ImageFrame>,
    r: ReconstructionView,
    track: Seq<TrackObservation>,
    checks: Seq<ObservationCheck>,
    max_error: Real32,
    k: nat,
)
    requires
        k <= track.len(),
        forall|a: int, b: int|
            0 <= a < b < track.len() ==> #[trigger] track[a].image != #[trigger] track[b].image,
    ensures
        ({
            let list = flawed_observations(frames, r, track, checks, max_error, k);
            &&& forall|i: int|
                0 <= i < list.len() ==> flawed_below(
                    frames,
                    r,
                    track,
                    checks,
                    max_error,
                    k as int,
                    #[trigger] list[i],
                )
            &&& list.no_duplicates()
        }),
    decreases k,
{
    if k > 0 {
        let m = (k - 1) as nat;
        lemma_flawed_members(frames, r, track, checks, max_error, m);
        let rest = flawed_observations(frames, r, track, checks, max_error, m);
        let all = flawed_observations(frames, r, track, checks, max_error, k);
        assert forall|i: int| 0 <= i < all.len() implies flawed_below(
            frames,
            r,
            track,
            checks,
            max_error,
            k as int,
            #[trigger] all[i],
        ) by {
            if i < rest.len() {
                assert(all[i] == rest[i]);
                let j = choose|j: int|
                    0 <= j < m && #[trigger] flawed_at(
                        frames,
                        r,
                        track,
                        checks,
                        max_error,
                        j,
                        rest[i],
                    );
                assert(0 <= j < k && flawed_at(frames, r, track, checks, max_error, j, all[i]));
            } else {
                assert(flawed_at(frames, r, track, checks, max_error, m as int, all[i]));
            }
        }
        assert forall|a: int, b: int| 0 <= a < all.len() && 0 <= b < all.len() && a != b implies all[a]
            != all[b] by {
            if a < rest.len() && b < rest.len() {
                assert(rest[a] != rest[b]);
            } else {
                let c = if a < b { a } else { b };
                assert(all[c] == rest[c]);
                let j = choose|j: int|
                    0 <= j < m && #[trigger] flawed_at(
                        frames,
                        r,
                        track,
                        checks,
                        max_error,
                        j,
                        rest[c],
                    );
                assert(track[j].image != track[m as int].image);
            }
        }
    }
}

/// Deleting distinct members of a track that keeps two shortens it one by one.
pub proof fn lemma_listed_prefix(s: Edited, point: usize, list: Seq<TrackObservation>, k: nat)
    requires
        table_fits(s.r),
        points_fit(s.r),
        tracks_agree(s.r),
        point < s.r.points.len(),
        k <= list.len(),
        list.no_duplicates(),
        list.len() + 1 < s.r.points[point as int].track.len(),
        forall|i: int|
            0 <= i < list.len() ==> s.r.points[point as int].track.contains(#[trigger] list[i]),
    ensures
        ({
            let after = listed_deleted(s, list, k).r;
            &&& table_fits(after)
            &&& points_fit(after)
            &&& tracks_agree(after)
            &&& after.points.len() == s.r.points.len()
            &&& after.points[point as int].track.len() == s.r.points[point as int].track.len() - k
            &&& forall|x: TrackObservation|
                s.r.points[point as int].track.contains(x) && !list.take(k as int).contains(x)
                    ==> #[trigger] after.points[point as int].track.contains(x)
            &&& forall|x: TrackObservation| #[trigger]
                after.points[point as int].track.contains(x)
                    ==> s.r.points[point as int].track.contains(x) && !list.take(
                    k as int,
                ).contains(x)
            &&& forall|q: int|
                0 <= q < s.r.points.len() && q != point ==> #[trigger] after.points[q]
                    == s.r.points[q]
            &&& after.poses == s.r.poses
            &&& deletions_done(s, list, k) == k
        }),
    decreases k,
{
    if k == 0 {
    } else {
        let m = (k - 1) as nat;
        lemma_listed_prefix(s, point, list, m);
        let before = listed_deleted(s, list, m);
        let obs = list[m as int];
        let track = before.r.points[point as int].track;
        assert(!list.take(m as int).contains(obs)) by {
            if list.take(m as int).contains(obs) {
                let i = choose|i: int| 0 <= i < m && list.take(m as int)[i] == obs;
                assert(list[i] == list[m as int]);
            }
        }
        assert(s.r.points[point as int].track.contains(list[m as int]));
        assert(track.contains(obs));
        let t = choose|t: int| 0 <= t < track.len() && track[t] == obs;
        assert(before.r.points[point as int].track[t] == obs);
        assert(track_valid(before.r, track));
        assert(before.r.has_slot(track[t]));
        assert(before.r.observations[obs.image as int][obs.feature as int] == Some(point));
        assert(before.r.observed(obs.image as int, obs.feature as int) == Some(point));
        law_delete_observation_keeps_agreement(
            before,
            obs.image,
            obs.feature,
        );
        lemma_without_member(track, obs);
        let after = listed_deleted(s, list, k).r;
        assert(after == observation_deleted(before, obs.image, obs.feature).r);
        assert(obs == (TrackObservation { image: obs.image, feature: obs.feature }));
        assert forall|i: int| 0 <= i < after.observations.len() implies (#[trigger] after.observations[i]).len()
            <= usize::MAX by {
            assert(before.r.observations[i].len() <= usize::MAX);
        }
        assert forall|x: TrackObservation|
            s.r.points[point as int].track.contains(x) && !list.take(k as int).contains(
                x,
            ) implies #[trigger] after.points[point as int].track.contains(x) by {
            let a = list.take(m as int);
            let b = list.take(k as int);
            if a.contains(x) {
                let i = choose|i: int| 0 <= i < a.len() && a[i] == x;
                assert(b[i] == x);
            }
            assert(b[m as int] == obs);
            assert(x != obs);
            assert(track.contains(x));
        }
        lemma_track_without_contains(track, obs);
        assert forall|x: TrackObservation| #[trigger]
            after.points[point as int].track.contains(x) implies s.r.points[point as int].track.contains(
            x,
        ) && !list.take(k as int).contains(x) by {
            assert(x != obs);
            assert(track.contains(x));
            let b = list.take(k as int);
            if b.contains(x) {
                let i = choose|i: int| 0 <= i < b.len() && b[i] == x;
                assert(list.take(m as int)[i] == x);
            }
        }
    }
}

proof fn lemma_without_member(track: Seq<TrackObservation>, obs: TrackObservation)
    requires
        track.contains(obs),
    ensures
        track_without(track, obs).len() == track.len() - 1,
        forall|x: TrackObservation|
            x != obs && track.contains(x) ==> #[trigger] track_without(track, obs).contains(x),
    decreases track.len(),
{
    let rest = track.skip(1);
    let out = track_without(track, obs);
    assert forall|x: TrackObservation| track.contains(x) && x != track[0] implies #[trigger] rest.contains(
        x,
    ) by {
        let i = choose|i: int| 0 <= i < track.len() && track[i] == x;
        assert(rest[i - 1] == x);
    }
    if track[0] != obs {
        assert(rest.contains(obs));
        lemma_without_member(rest, obs);
        let inner = track_without(rest, obs);
        assert forall|x: TrackObservation| x != obs && track.contains(x) implies #[trigger] out.contains(
            x,
        ) by {
            if x == track[0] {
                assert(out[0] == x);
            } else {
                assert(rest.contains(x));
                assert(inner.contains(x));
                let i = choose|i: int| 0 <= i < inner.len() && inner[i] == x;
                assert(out[i + 1] == x);
            }
        }
    }
}

} // verus!
