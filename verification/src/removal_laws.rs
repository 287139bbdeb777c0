//! What leaves a model, said of cameras, errors and observations themselves.

use crate::config::MapperConfig;
use crate::frame_filtering::{
    frames_filtered, images_cleared, lemma_deregistered_layout, same_layout, to_be_filtered,
    unit_cleared, unit_unsupported, units_filtered, Filtering,
};
use crate::indices::{indices_where, lemma_indices_where};
use crate::observation_manager::{deregistered, Edited};
use crate::registration_units::{lemma_unit_members, registered_units, RegistrationUnitKey};
use crate::scalar::Real32;
use crate::track_filter::{
    flawed_observations, is_flawed, observations_judged, track_judged, ObservationCheck, TrackFit,
};
use crate::types::{ImageFrame, ReconstructionView, TrackObservation};
use vstd::prelude::*;

verus! {

/// A unit goes if a registered image of it has an implausible camera, or if none
/// observes a point. Otherwise it stays.
pub proof fn law_unsupported_units(r: ReconstructionView, image: usize, m: int, f: int)
    requires
        r.registered(m),
        r.same_unit(image as int, m),
    ensures
        r.camera_of(m).bogus ==> unit_unsupported(r, image),
        (forall|n: int, g: int|
            r.registered(n) && r.same_unit(image as int, n) ==> #[trigger] r.observed(n, g) is None)
            ==> unit_unsupported(r, image),
        r.observed(m, f) is Some && (forall|n: int| #[trigger]
            r.registered(n) && r.same_unit(image as int, n) ==> !r.camera_of(n).bogus)
            ==> !unit_unsupported(r, image),
{
}

/// Whether the unit of an image is to go: it is registered and unsupported, and it
/// is not one of the units that came with the model if those are to be left alone.
pub open spec fn must_go(s: Filtering, config: MapperConfig, image: usize) -> bool {
    let r = s.model.r;
    &&& exists|m: int| #[trigger] r.registered(m) && r.same_unit(image as int, m)
    &&& unit_unsupported(r, image)
    &&& config.fix_existing_frames ==> !s.stats.existing.contains(r.unit_key(image))
}

/// A model of fewer than twenty registered units is left alone.
pub proof fn law_small_models_stay(s: Filtering, config: MapperConfig)
    requires
        registered_units(s.model.r) < 20,
    ensures
        frames_filtered(s, config) == s,
{
}

proof fn lemma_selected(
    r: ReconstructionView,
    protected: Set<RegistrationUnitKey>,
    image: usize,
)
    requires
        r.poses.len() <= usize::MAX,
    ensures
        indices_where(r.poses.len(), to_be_filtered(r, protected)).contains(image) <==> {
            &&& image < r.poses.len()
            &&& r.unit_registered(image as int)
            &&& forall|j: int| 0 <= j < image ==> !#[trigger] r.same_unit(j, image as int)
            &&& unit_unsupported(r, image)
            &&& !protected.contains(r.unit_key(image))
        },
{
    let q = to_be_filtered(r, protected);
    lemma_indices_where(r.poses.len(), q);
    if image < r.poses.len() && q(image as int) {
        assert(indices_where(r.poses.len(), q).contains(image));
    }
}

/// Poses of images outside the cleared ones stay.
proof fn lemma_others_stay(s: Edited, images: Seq<usize>, k: nat, m: int)
    requires
        k <= images.len(),
        0 <= m < s.r.poses.len(),
        forall|j: int| 0 <= j < k ==> #[trigger] images[j] != m,
    ensures
        images_cleared(s, images, k).r.poses[m] == s.r.poses[m],
        same_layout(images_cleared(s, images, k).r, s.r),
    decreases k,
{
    if k > 0 {
        lemma_others_stay(s, images, (k - 1) as nat, m);
        let rest = images_cleared(s, images, (k - 1) as nat);
        if images[k - 1] < rest.r.poses.len() {
            lemma_deregistered_layout(rest, images[k - 1]);
            assert(deregistered(rest, images[k - 1]).r.poses[m] == rest.r.poses[m]);
        }
    }
}

proof fn lemma_units_stay(s: Filtering, images: Seq<usize>, k: nat, m: int)
    requires
        k <= images.len(),
        0 <= m < s.model.r.poses.len() <= usize::MAX,
        s.model.r.image_frame_indices.len() <= usize::MAX,
        forall|j: int|
            0 <= j < k ==> !s.model.r.same_unit(#[trigger] images[j] as int, m),
    ensures
        units_filtered(s, images, k).model.r.poses[m] == s.model.r.poses[m],
        same_layout(units_filtered(s, images, k).model.r, s.model.r),
    decreases k,
{
    if k > 0 {
        lemma_units_stay(s, images, (k - 1) as nat, m);
        let rest = units_filtered(s, images, (k - 1) as nat);
        let image = images[k - 1];
        if rest.model.r.unit_registered(image as int) {
            let unit = rest.model.r.unit_of(image);
            lemma_unit_members(rest.model.r, image);
            assert forall|j: int| 0 <= j < unit.len() implies #[trigger] unit[j] != m by {
                if unit[j] == m {
                    assert(unit.contains(unit[j]));
                    assert(rest.model.r.same_unit(image as int, m));
                    assert(s.model.r.same_unit(images[k - 1] as int, m));
                }
            }
            lemma_others_stay(rest.model, unit, unit.len(), m);
            assert(units_filtered(s, images, k).model == unit_cleared(rest.model, image));
        }
    }
}

/// Filtering keeps the pose of every image whose unit does not have to go.
pub proof fn law_supported_units_stay(s: Filtering, config: MapperConfig, image: usize)
    requires
        s.model.r.poses.len() <= usize::MAX,
        s.model.r.image_frame_indices.len() <= usize::MAX,
        image < s.model.r.poses.len(),
        forall|i: usize| #[trigger]
            must_go(s, config, i) ==> !s.model.r.same_unit(i as int, image as int),
    ensures
        frames_filtered(s, config).model.r.poses[image as int] == s.model.r.poses[image as int],
{
    if registered_units(s.model.r) >= 20 {
        let r = s.model.r;
        let protected = if config.fix_existing_frames {
            s.stats.existing
        } else {
            Set::empty()
        };
        let images = indices_where(r.poses.len(), to_be_filtered(r, protected));
        assert forall|j: int| 0 <= j < images.len() implies !r.same_unit(
            #[trigger] images[j] as int,
            image as int,
        ) by {
            assert(images.contains(images[j]));
            lemma_selected(r, protected, images[j]);
            let m = choose|m: int| #[trigger] r.registered(m) && r.same_unit(images[j] as int, m);
            assert(r.registered(m));
            assert(must_go(s, config, images[j]));
        }
        lemma_units_stay(s, images, images.len(), image as int);
    }
}

/// Filtering counts each unit that goes and records its key.
pub proof fn law_removed_units_are_recorded(s: Filtering, images: Seq<usize>, k: nat)
    requires
        k <= images.len(),
    ensures
        ({
            let t = units_filtered(s, images, k);
            &&& s.removed.subset_of(t.removed)
            &&& s.count <= t.count <= s.count + k
            &&& t.count == s.count ==> t == s
            &&& t.count > s.count ==> exists|j: int|
                0 <= j < k && t.removed.contains(s.model.r.unit_key(#[trigger] images[j]))
        }),
        same_layout(units_filtered(s, images, k).model.r, s.model.r),
    decreases k,
{
    if k > 0 {
        law_removed_units_are_recorded(s, images, (k - 1) as nat);
        let rest = units_filtered(s, images, (k - 1) as nat);
        let t = units_filtered(s, images, k);
        let image = images[k - 1];
        if rest.model.r.unit_registered(image as int) {
            let unit = rest.model.r.unit_of(image);
            lemma_cleared_layout(rest.model, unit, unit.len());
            assert(rest.model.r.unit_key(image) == s.model.r.unit_key(images[k - 1]));
            assert(t.removed.contains(s.model.r.unit_key(images[k - 1])));
        } else if t.count > s.count {
            let j = choose|j: int|
                0 <= j < k - 1 && rest.removed.contains(
                    s.model.r.unit_key(#[trigger] images[j]),
                );
            assert(t.removed.contains(s.model.r.unit_key(images[j])));
        }
    }
}

proof fn lemma_cleared_layout(s: Edited, images: Seq<usize>, k: nat)
    requires
        k <= images.len(),
    ensures
        same_layout(images_cleared(s, images, k).r, s.r),
    decreases k,
{
    if k > 0 {
        lemma_cleared_layout(s, images, (k - 1) as nat);
        let rest = images_cleared(s, images, (k - 1) as nat);
        if images[k - 1] < rest.r.poses.len() {
            lemma_deregistered_layout(rest, images[k - 1]);
        }
    }
}

/// An observation has to go just if its image is not registered, its feature does
/// not exist, its camera is implausible, the point lies behind it, or its error is
/// not finite or above the largest.
pub proof fn law_flawed_observations(
    frames: Seq<ImageFrame>,
    r: ReconstructionView,
    obs: TrackObservation,
    check: ObservationCheck,
    max_error: Real32,
)
    requires
        !max_error.nan(),
    ensures
        is_flawed(frames, r, obs, check, max_error) <==> {
            ||| obs.image >= r.poses.len()
            ||| r.poses[obs.image as int] is None
            ||| obs.image >= frames.len()
            ||| obs.feature >= frames[obs.image as int].keypoints@.len()
            ||| !check.positive_depth
            ||| r.camera_of(obs.image as int).bogus
            ||| !check.error.finite()
            ||| !check.error.at_most(max_error)
        },
{
}

/// The flawed observations of a track are listed in its order, and no other is.
pub proof fn law_flawed_are_listed(
    frames: Seq<ImageFrame>,
    r: ReconstructionView,
    track: Seq<TrackObservation>,
    checks: Seq<ObservationCheck>,
    max_error: Real32,
    k: nat,
    obs: TrackObservation,
)
    requires
        k <= track.len(),
    ensures
        ({
            let list = flawed_observations(frames, r, track, checks, max_error, k);
            &&& list.len() <= k
            &&& list.contains(obs) <==> exists|j: int|
                0 <= j < k && #[trigger] track[j] == obs && is_flawed(
                    frames,
                    r,
                    track[j],
                    checks[j],
                    max_error,
                )
        }),
    decreases k,
{
    if k > 0 {
        law_flawed_are_listed(frames, r, track, checks, max_error, (k - 1) as nat, obs);
        let rest = flawed_observations(frames, r, track, checks, max_error, (k - 1) as nat);
        let list = flawed_observations(frames, r, track, checks, max_error, k);
        if rest.contains(obs) {
            let x = choose|x: int| 0 <= x < rest.len() && rest[x] == obs;
            assert(list[x] == obs);
            let j = choose|j: int|
                0 <= j < k - 1 && #[trigger] track[j] == obs && is_flawed(
                    frames,
                    r,
                    track[j],
                    checks[j],
                    max_error,
                );
            assert(track[j] == obs);
        }
        if list.contains(obs) {
            let x = choose|x: int| 0 <= x < list.len() && list[x] == obs;
            if x < rest.len() {
                assert(rest[x] == obs);
            } else {
                assert(track[k - 1] == obs);
            }
        }
        if track[k - 1] == obs && is_flawed(frames, r, track[k - 1], checks[k - 1], max_error) {
            assert(list[rest.len() as int] == obs);
        }
    }
}

/// A point goes with all of its observations if fewer than two are good.
pub proof fn law_points_need_two(
    s: Edited,
    frames: Seq<ImageFrame>,
    point: usize,
    checks: Seq<ObservationCheck>,
    max_error: Real32,
    least: usize,
    good: int,
)
    requires
        point < s.r.points.len(),
        0 <= good < s.r.points[point as int].track.len(),
        forall|j: int|
            0 <= j < s.r.points[point as int].track.len() && j != good ==> is_flawed(
                frames,
                s.r,
                #[trigger] s.r.points[point as int].track[j],
                checks[j],
                max_error,
            ),
    ensures
        ({
            let judged = observations_judged(s, frames, point, checks, max_error, least);
            &&& judged.outcome is Dropped
            &&& judged.removed == s.r.points[point as int].track.len()
            &&& judged.model.r.points.len() == s.r.points.len() - 1
            &&& judged.model.r.points == s.r.points.remove(point as int)
        }),
{
    let track = s.r.points[point as int].track;
    lemma_many_flawed(frames, s.r, track, checks, max_error, track.len(), good);
}

proof fn lemma_many_flawed(
    frames: Seq<ImageFrame>,
    r: ReconstructionView,
    track: Seq<TrackObservation>,
    checks: Seq<ObservationCheck>,
    max_error: Real32,
    k: nat,
    good: int,
)
    requires
        k <= track.len(),
        forall|j: int|
            0 <= j < k && j != good ==> is_flawed(
                frames,
                r,
                #[trigger] track[j],
                checks[j],
                max_error,
            ),
    ensures
        flawed_observations(frames, r, track, checks, max_error, k).len() + 1 >= k,
        good >= k ==> flawed_observations(frames, r, track, checks, max_error, k).len() == k,
    decreases k,
{
    if k > 0 {
        lemma_many_flawed(frames, r, track, checks, max_error, (k - 1) as nat, good);
        if k - 1 != good {
            assert(is_flawed(frames, r, track[k - 1], checks[k - 1], max_error));
        }
    }
}

/// A track that spans too small an angle goes. Otherwise the point takes the new
/// position if there is one, else the mean error if it could be measured, and goes
/// if it could not.
pub proof fn law_tracks_are_judged(s: Edited, point: usize, fit: TrackFit)
    requires
        point < s.r.points.len(),
    ensures
        ({
            let (model, kept) = track_judged(s, point, fit);
            let p = point as int;
            &&& kept <==> fit.angle_ok && (fit.retriangulated is Some || fit.mean_error is Some)
            &&& !kept ==> model.r.points == s.r.points.remove(p)
            &&& kept ==> {
                &&& model.r.points.len() == s.r.points.len()
                &&& model.r.points[p].track == s.r.points[p].track
                &&& model.r.points[p].color == s.r.points[p].color
                &&& forall|q: int|
                    0 <= q < s.r.points.len() && q != p ==> #[trigger] model.r.points[q]
                        == s.r.points[q]
                &&& model.r.observations == s.r.observations
                &&& model.modified == s.modified
            }
            &&& kept && fit.retriangulated is Some ==> model.r.points[p].xyz
                == (fit.retriangulated->0).0 && model.r.points[p].error
                == (fit.retriangulated->0).1
            &&& kept && fit.retriangulated is None ==> model.r.points[p].xyz
                == s.r.points[p].xyz && model.r.points[p].error == fit.mean_error->0
        }),
{
}

} // verus!
