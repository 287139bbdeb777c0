//! Which points are left when an image is taken out of the model.

use crate::ascending::{ascending, law_listing_unique, lists};
use crate::indices::{indices_where, lemma_indices_where};
use crate::local_bundle::sees_image;
use crate::observation_laws::{
    law_deletion_leaves_two, law_deregister, lemma_completed_len, lemma_deleted_prefix, stands_in_track,
    table_fits, tracks_agree, tracks_hold_two,
};
use crate::observation_manager::{
    deregistered, observation_deleted, observations_deleted, observing, observing_features,
    points_fit, with_pose, Edited,
};
use crate::point_ids::completed_ids;
use crate::track_edits::{track_valid, track_without};
use crate::types::{Point3DView, Pose, ReconstructionView, TrackObservation};
use vstd::prelude::*;

verus! {

/// The track without its first observation in an image.
pub open spec fn without_image(track: Seq<TrackObservation>, image: usize) -> Seq<TrackObservation>
    decreases track.len(),
{
    if track.len() == 0 {
        track
    } else if track[0].image == image {
        track.skip(1)
    } else {
        seq![track[0]] + without_image(track.skip(1), image)
    }
}

/// The point without its observation in an image.
pub open spec fn thinned(point: Point3DView, image: usize) -> Point3DView {
    Point3DView { track: without_image(point.track, image), ..point }
}

/// Selects the points that stay when an image is taken out: those that do not
/// observe the image, and those with more than two observations.
pub open spec fn stays(r: ReconstructionView, image: usize) -> spec_fn(int) -> bool {
    |p: int| !sees_image(r.points[p].track, image) || r.points[p].track.len() > 2
}

/// The points that stay when an image is taken out, in order.
pub open spec fn survivors(r: ReconstructionView, image: usize) -> Seq<usize> {
    indices_where(r.points.len(), stays(r, image))
}

proof fn lemma_without_image_same(track: Seq<TrackObservation>, image: usize)
    requires
        !sees_image(track, image),
    ensures
        without_image(track, image) == track,
    decreases track.len(),
{
    if track.len() > 0 {
        let rest = track.skip(1);
        assert(track[0].image != image);
        assert forall|k: int| 0 <= k < rest.len() implies (#[trigger] rest[k]).image != image by {
            assert(track[k + 1].image != image);
        }
        lemma_without_image_same(rest, image);
        assert(seq![track[0]] + rest =~= track);
    }
}

proof fn lemma_without_image(track: Seq<TrackObservation>, obs: TrackObservation)
    requires
        track.contains(obs),
        forall|a: int, b: int|
            0 <= a < b < track.len() ==> #[trigger] track[a].image != #[trigger] track[b].image,
    ensures
        track_without(track, obs) == without_image(track, obs.image),
    decreases track.len(),
{
    let j = choose|j: int| 0 <= j < track.len() && track[j] == obs;
    if track[0].image == obs.image {
        if j > 0 {
            assert(track[0].image != track[j].image);
        }
    } else {
        let rest = track.skip(1);
        assert(rest[j - 1] == obs);
        assert forall|a: int, b: int| 0 <= a < b < rest.len() implies #[trigger] rest[a].image
            != #[trigger] rest[b].image by {
            assert(track[a + 1].image != track[b + 1].image);
        }
        lemma_without_image(rest, obs);
    }
}

/// Whether a track holds one of the first `k` of a list of features of an image.
spec fn touched(
    track: Seq<TrackObservation>,
    image: usize,
    features: Seq<usize>,
    k: nat,
) -> bool {
    exists|j: int|
        0 <= j < k && track.contains(
            (TrackObservation { image, feature: #[trigger] features[j] }),
        )
}

/// What became of point `keep[q]` once the first `k` features are deleted.
spec fn carried(
    s: Edited,
    t: Edited,
    image: usize,
    features: Seq<usize>,
    k: nat,
    keep: Seq<usize>,
    q: int,
) -> bool {
    let point = s.r.points[keep[q] as int];
    let hit = touched(point.track, image, features, k);
    &&& t.r.points[q] == (if hit {
        thinned(point, image)
    } else {
        point
    })
    &&& completed_ids(t.r.point_ids, keep.len())[q] == completed_ids(
        s.r.point_ids,
        s.r.points.len(),
    )[keep[q] as int]
    &&& t.modified.contains(q as usize) <==> s.modified.contains(keep[q]) || hit
}

/// Whether a point goes once the first `k` features are deleted.
spec fn goes(s: Edited, image: usize, features: Seq<usize>, k: nat, p: int) -> bool {
    touched(s.r.points[p].track, image, features, k) && s.r.points[p].track.len() <= 2
}

/// `keep` lists the points left once the first `k` features are deleted.
spec fn thinning(
    s: Edited,
    image: usize,
    features: Seq<usize>,
    k: nat,
    keep: Seq<usize>,
) -> bool {
    let t = observations_deleted(s, image, features, k);
    &&& ascending(keep)
    &&& forall|p: usize| #[trigger]
        keep.contains(p) <==> p < s.r.points.len() && !goes(s, image, features, k, p as int)
    &&& t.r.points.len() == keep.len()
    &&& forall|q: int|
        0 <= q < keep.len() ==> #[trigger] carried(s, t, image, features, k, keep, q)
}

proof fn lemma_thinning(s: Edited, image: usize, features: Seq<usize>, k: nat) -> (keep: Seq<usize>)
    requires
        table_fits(s.r),
        points_fit(s.r),
        tracks_agree(s.r),
        k <= features.len(),
        features == observing_features(s.r, image),
    ensures
        thinning(s, image, features, k, keep),
    decreases k,
{
    let points = s.r.points;
    if k == 0 {
        let keep = Seq::new(points.len(), |i: int| i as usize);
        assert forall|p: usize| #[trigger] keep.contains(p) <==> p < points.len() by {
            if p < points.len() {
                assert(keep[p as int] == p);
            }
        }
        assert forall|q: int| 0 <= q < keep.len() implies #[trigger] carried(
            s,
            s,
            image,
            features,
            0,
            keep,
            q,
        ) by {}
        assert(thinning(s, image, features, k, keep));
        keep
    } else {
        let m = (k - 1) as nat;
        let keep = lemma_thinning(s, image, features, m);
        lemma_deleted_prefix(s, image, features, m);
        let t = observations_deleted(s, image, features, m);
        let f = features[m as int];
        let obs = TrackObservation { image, feature: f };
        let row = s.r.observations[image as int];
        lemma_indices_where(row.len(), observing(row));
        assert(features.contains(f));
        assert(row[f as int] is Some);
        let p = row[f as int]->0;
        assert(stands_in_track(s.r, image as int, f as int, s.r.observations[image as int][f as int]));
        let track = points[p as int].track;
        assert(track.contains(obs));
        assert(track_valid(s.r, track));
        let at = choose|at: int| 0 <= at < track.len() && track[at] == obs;
        assert(!touched(track, image, features, m)) by {
            if touched(track, image, features, m) {
                let j = choose|j: int|
                    0 <= j < m && track.contains(
                        (TrackObservation { image, feature: #[trigger] features[j] }),
                    );
                let other = TrackObservation { image, feature: features[j] };
                let b = choose|b: int| 0 <= b < track.len() && track[b] == other;
                assert(features[j] < features[m as int]);
                if b < at {
                    assert(track[b].image != track[at].image);
                } else {
                    assert(track[at].image != track[b].image);
                }
            }
        }
        assert(!goes(s, image, features, m, p as int));
        assert(keep.contains(p));
        let q = choose|q: int| 0 <= q < keep.len() && keep[q] == p;
        assert(carried(s, t, image, features, m, keep, q));
        assert(t.r.points[q] == points[p as int]);
        assert(t.r.points[q].track[at] == obs);
        assert(track_valid(t.r, t.r.points[q].track));
        assert(t.r.has_slot(t.r.points[q].track[at]));
        assert(t.r.observations[image as int][f as int] == Some(q as usize));
        assert(t.r.observed(image as int, f as int) == Some(q as usize));
        let after = observation_deleted(t, image, f);
        assert(after == observations_deleted(s, image, features, k));
        assert forall|x: usize| x < points.len() implies #[trigger] touched(
            points[x as int].track,
            image,
            features,
            k,
        ) == (touched(points[x as int].track, image, features, m) || x == p) by {
            let other = points[x as int].track;
            if touched(other, image, features, m) {
                let j = choose|j: int|
                    0 <= j < m && other.contains(
                        (TrackObservation { image, feature: #[trigger] features[j] }),
                    );
                assert(0 <= j < k && other.contains(
                    (TrackObservation { image, feature: features[j] }),
                ));
            }
            if x == p {
                assert(other.contains((TrackObservation { image, feature: features[m as int] })));
            }
            if touched(other, image, features, k) && !touched(other, image, features, m) {
                let j = choose|j: int|
                    0 <= j < k && other.contains(
                        (TrackObservation { image, feature: #[trigger] features[j] }),
                    );
                assert(j == m);
                let b = choose|b: int| 0 <= b < other.len() && other[b] == obs;
                assert(points[x as int].track[b] == obs);
            }
        }
        lemma_completed_len(t.r.point_ids, keep.len());
        lemma_completed_len(s.r.point_ids, points.len());
        assert forall|a: int| 0 <= a < keep.len() implies (#[trigger] keep[a] == p <==> a == q) by {
            if a < q {
                assert(keep[a] < keep[q]);
            } else if q < a {
                assert(keep[q] < keep[a]);
            }
        }
        assert forall|a: int| 0 <= a < keep.len() implies #[trigger] keep[a] < points.len() by {
            assert(keep.contains(keep[a]));
        }
        if track.len() <= 2 {
            let left = keep.remove(q);
            assert forall|x: usize| #[trigger] left.contains(x) <==> keep.contains(x) && x != p by {
                if left.contains(x) {
                    let a = choose|a: int| 0 <= a < left.len() && left[a] == x;
                    let b = if a < q { a } else { a + 1 };
                    assert(keep[b] == x);
                }
                if keep.contains(x) && x != p {
                    let b = choose|b: int| 0 <= b < keep.len() && keep[b] == x;
                    let a = if b < q { b } else { b - 1 };
                    assert(left[a] == x);
                }
            }
            let now = completed_ids(t.r.point_ids, keep.len()).remove(q);
            assert(after.r.point_ids == now);
            assert forall|a: int| 0 <= a < left.len() implies #[trigger] carried(
                s,
                after,
                image,
                features,
                k,
                left,
                a,
            ) by {
                let b = if a < q { a } else { a + 1 };
                assert(left[a] == keep[b]);
                assert(carried(s, t, image, features, m, keep, b));
                assert(keep[b] == p <==> b == q);
                assert(after.r.points[a] == t.r.points[b]);
                assert(completed_ids(after.r.point_ids, left.len()) == now);
                assert(t.modified.contains(b as usize) == after.modified.contains(a as usize));
            }
            assert forall|x: usize| #[trigger] left.contains(x) <==> x < points.len() && !goes(
                s,
                image,
                features,
                k,
                x as int,
            ) by {
                assert(keep.contains(x) <==> x < points.len() && !goes(
                    s,
                    image,
                    features,
                    m,
                    x as int,
                ));
            }
            assert(ascending(left));
            assert(thinning(s, image, features, k, left));
            left
        } else {
            lemma_without_image(track, obs);
            assert forall|a: int| 0 <= a < keep.len() implies #[trigger] carried(
                s,
                after,
                image,
                features,
                k,
                keep,
                a,
            ) by {
                assert(carried(s, t, image, features, m, keep, a));
                assert(keep[a] == p <==> a == q);
            }
            assert forall|x: usize| #[trigger] keep.contains(x) <==> x < points.len() && !goes(
                s,
                image,
                features,
                k,
                x as int,
            ) by {
                assert(keep.contains(x) <==> x < points.len() && !goes(
                    s,
                    image,
                    features,
                    m,
                    x as int,
                ));
            }
            assert(thinning(s, image, features, k, keep));
            keep
        }
    }
}

/// Taking an image out of the model leaves the points in order, without those
/// that observe the image and have at most two observations. Each survivor keeps
/// its identifier. One that observed the image loses just that observation, and
/// is marked; the other marks are those there were.
pub proof fn law_deregister_survivors(s: Edited, image: usize)
    requires
        table_fits(s.r),
        points_fit(s.r),
        tracks_agree(s.r),
        image < s.r.poses.len(),
    ensures
        ({
            let after = deregistered(s, image);
            let kept = survivors(s.r, image);
            &&& after.r.points == Seq::new(
                kept.len(),
                |q: int| thinned(s.r.points[kept[q] as int], image),
            )
            &&& forall|q: int|
                0 <= q < kept.len() ==> #[trigger] completed_ids(
                    after.r.point_ids,
                    after.r.points.len(),
                )[q] == completed_ids(s.r.point_ids, s.r.points.len())[kept[q] as int]
            &&& forall|q: int|
                0 <= q < kept.len() ==> (after.modified.contains(q as usize)
                    <==> s.modified.contains(#[trigger] kept[q]) || sees_image(
                    s.r.points[kept[q] as int].track,
                    image,
                ))
        }),
{
    let points = s.r.points;
    let n = points.len();
    let features = observing_features(s.r, image);
    let kept = survivors(s.r, image);
    let after = deregistered(s, image);
    lemma_indices_where(n, stays(s.r, image));
    assert forall|p: int| 0 <= p < n implies #[trigger] touched(
        points[p].track,
        image,
        features,
        features.len(),
    ) == sees_image(points[p].track, image) by {
        lemma_touched(s.r, image, p);
    }
    let keep = lemma_thinning(s, image, features, features.len());
    let cleared = observations_deleted(s, image, features, features.len());
    let set = Set::new(|p: usize| p < n && stays(s.r, image)(p as int));
    assert(lists(kept, set)) by {
        assert forall|x: usize| #[trigger] kept.contains(x) <==> set.contains(x) by {
            if set.contains(x) {
                assert(stays(s.r, image)(x as int));
            }
        }
    }
    assert(lists(keep, set)) by {
        assert forall|x: usize| #[trigger] keep.contains(x) <==> set.contains(x) by {
            if x < n {
                assert(touched(points[x as int].track, image, features, features.len())
                    == sees_image(points[x as int].track, image));
            }
            assert(keep.contains(x) <==> x < n && !goes(
                s,
                image,
                features,
                features.len(),
                x as int,
            ));
        }
    }
    law_listing_unique(kept, keep, set);
    assert forall|q: int| 0 <= q < kept.len() implies {
        &&& #[trigger] after.r.points[q] == thinned(points[kept[q] as int], image)
        &&& completed_ids(after.r.point_ids, kept.len())[q] == completed_ids(
            s.r.point_ids,
            n,
        )[kept[q] as int]
        &&& after.modified.contains(q as usize) <==> s.modified.contains(kept[q]) || sees_image(
            points[kept[q] as int].track,
            image,
        )
    } by {
        assert(kept.contains(kept[q]));
        assert(carried(s, cleared, image, features, features.len(), keep, q));
        let track = points[kept[q] as int].track;
        assert(touched(track, image, features, features.len()) == sees_image(track, image));
        if !sees_image(track, image) {
            lemma_without_image_same(track, image);
        }
    }
    assert forall|q: int| 0 <= q < kept.len() implies (after.modified.contains(q as usize)
        <==> s.modified.contains(#[trigger] kept[q]) || sees_image(
        points[kept[q] as int].track,
        image,
    )) by {
        assert(after.r.points[q] == thinned(points[kept[q] as int], image));
    }
    assert forall|q: int| 0 <= q < kept.len() implies #[trigger] completed_ids(
        after.r.point_ids,
        after.r.points.len(),
    )[q] == completed_ids(s.r.point_ids, n)[kept[q] as int] by {
        assert(after.r.points[q] == thinned(points[kept[q] as int], image));
    }
    assert(after.r.points =~= Seq::new(
        kept.len(),
        |q: int| thinned(points[kept[q] as int], image),
    ));
}

proof fn lemma_deletions_leave_two(s: Edited, image: usize, features: Seq<usize>, k: nat)
    requires
        tracks_hold_two(s.r),
    ensures
        tracks_hold_two(observations_deleted(s, image, features, k).r),
    decreases k,
{
    if k > 0 {
        let m = (k - 1) as nat;
        lemma_deletions_leave_two(s, image, features, m);
        law_deletion_leaves_two(
            observations_deleted(s, image, features, m),
            image,
            features[k - 1],
        );
    }
}

/// Taking an image out of the model leaves no track with fewer than two
/// observations, if there was none before.
pub proof fn law_deregister_leaves_two(s: Edited, image: usize)
    requires
        tracks_hold_two(s.r),
    ensures
        tracks_hold_two(deregistered(s, image).r),
{
    let features = observing_features(s.r, image);
    lemma_deletions_leave_two(s, image, features, features.len());
    let cleared = observations_deleted(s, image, features, features.len()).r;
    let after = deregistered(s, image).r;
    assert forall|p: int| 0 <= p < after.points.len() implies (#[trigger] after.points[p]).track.len()
        >= 2 by {
        assert(cleared.points[p].track.len() >= 2);
    }
}

/// An image without observations has none to delete.
proof fn lemma_nothing_to_delete(r: ReconstructionView, image: usize)
    requires
        table_fits(r),
        forall|f: int| #[trigger] r.observed(image as int, f) is None,
    ensures
        observing_features(r, image) == Seq::<usize>::empty(),
{
    let features = observing_features(r, image);
    if image < r.observations.len() {
        let row = r.observations[image as int];
        lemma_indices_where(row.len(), observing(row));
        if features.len() > 0 {
            assert(features.contains(features[0]));
            assert(r.observed(image as int, features[0] as int) is None);
        }
    }
    assert(features =~= Seq::<usize>::empty());
}

/// Taking an image out a second time changes nothing.
pub proof fn law_deregister_twice(s: Edited, image: usize)
    requires
        table_fits(s.r),
        points_fit(s.r),
        image < s.r.poses.len(),
    ensures
        deregistered(deregistered(s, image), image) == deregistered(s, image),
{
    let features = observing_features(s.r, image);
    let once = deregistered(s, image);
    law_deregister(s, image);
    lemma_deleted_prefix(s, image, features, features.len());
    lemma_nothing_to_delete(once.r, image);
    let twice = deregistered(once, image);
    assert(twice.r.poses =~= once.r.poses);
    assert(twice.r =~= once.r);
}

/// Taking out an image that was just registered, and has no observations yet,
/// restores the model.
pub proof fn law_register_then_deregister(s: Edited, image: usize, pose: Pose)
    requires
        table_fits(s.r),
        image < s.r.poses.len(),
        !s.r.registered(image as int),
        forall|f: int| #[trigger] s.r.observed(image as int, f) is None,
    ensures
        deregistered((Edited { r: with_pose(s.r, image, Some(pose)), ..s }), image) == s,
{
    let placed = Edited { r: with_pose(s.r, image, Some(pose)), ..s };
    assert forall|f: int| #[trigger] placed.r.observed(image as int, f) is None by {
        assert(placed.r.observed(image as int, f) == s.r.observed(image as int, f));
    }
    lemma_nothing_to_delete(placed.r, image);
    let after = deregistered(placed, image);
    assert(after.r.poses =~= s.r.poses);
    assert(after.r =~= s.r);
}

proof fn lemma_touched(r: ReconstructionView, image: usize, p: int)
    requires
        table_fits(r),
        tracks_agree(r),
        0 <= p < r.points.len(),
    ensures
        ({
            let features = observing_features(r, image);
            let track = r.points[p].track;
            touched(track, image, features, features.len()) == sees_image(track, image)
        }),
{
    let features = observing_features(r, image);
    let track = r.points[p].track;
    assert(track_valid(r, track));
    if touched(track, image, features, features.len()) {
        let j = choose|j: int|
            0 <= j < features.len() && track.contains(
                (TrackObservation { image, feature: #[trigger] features[j] }),
            );
        let obs = TrackObservation { image, feature: features[j] };
        let k = choose|k: int| 0 <= k < track.len() && track[k] == obs;
        assert(track[k].image == image);
    }
    if sees_image(track, image) {
        let k = choose|k: int| 0 <= k < track.len() && (#[trigger] track[k]).image == image;
        let obs = r.points[p].track[k];
        assert(r.has_slot(track[k]));
        assert(r.observations[obs.image as int][obs.feature as int] == Some(p as usize));
        let row = r.observations[image as int];
        lemma_indices_where(row.len(), observing(row));
        assert(observing(row)(obs.feature as int));
        assert(features.contains(obs.feature));
        let j = choose|j: int| 0 <= j < features.len() && features[j] == obs.feature;
        assert(obs == (TrackObservation { image, feature: features[j] }));
        assert(track.contains(obs));
    }
}

} // verus!
