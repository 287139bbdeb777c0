//! Growing a model along matches, said of errors, features and tracks.

use crate::absolute_pose::{match_features, pair_side};
use crate::indices::{indices_where, lemma_indices_where};
use crate::observation_manager::{can_add_observation, observation_added, Edited};
use crate::pair_triangulation::{
    existing_added, existing_match, existing_matches, existing_upto, image_observations,
    match_point, open_matches, track_features, ExistingObservation, ExistingSearch,
};
use crate::scalar::Real32;
use crate::types::{
    ImageFrame, PairGeometry, Point3DView, ReconstructionView, TrackObservation,
};
use vstd::prelude::*;

verus! {

/// If every suggested observation has too large an error, nothing changes.
pub proof fn law_misfits_change_nothing(
    s: Edited,
    image: usize,
    found: Seq<ExistingObservation>,
    errors: Seq<Real32>,
    max_error: Real32,
    k: nat,
)
    requires
        forall|j: int| 0 <= j < k ==> max_error.below(#[trigger] errors[j]) || errors[j].nan(),
    ensures
        existing_added(s, image, found, errors, max_error, k) == s,
    decreases k,
{
    if k > 0 {
        law_misfits_change_nothing(s, image, found, errors, max_error, (k - 1) as nat);
        assert(max_error.below(errors[k - 1]) || errors[k - 1].nan());
    }
}

/// Whether one of the first `k` suggestions names the feature and the point and
/// has an error of at most the largest.
pub open spec fn is_suggested(
    found: Seq<ExistingObservation>,
    errors: Seq<Real32>,
    max_error: Real32,
    k: int,
    feature: int,
    point: usize,
) -> bool {
    exists|j: int|
        0 <= j < k && (#[trigger] found[j]).feature == feature && found[j].point_id == point
            && errors[j].at_most(max_error)
}

/// Adding suggested observations fills slots of the image only, each with the
/// point of a suggestion that fits, and changes no slot that was taken. Every
/// filled slot is the end of the track of its point; nothing else changes.
pub proof fn law_suggestions_added(
    s: Edited,
    image: usize,
    found: Seq<ExistingObservation>,
    errors: Seq<Real32>,
    max_error: Real32,
    k: nat,
)
    requires
        k <= found.len(),
    ensures
        ({
            let t = existing_added(s, image, found, errors, max_error, k);
            &&& t.r.observations.len() == s.r.observations.len()
            &&& forall|i: int|
                0 <= i < s.r.observations.len() && i != image ==> #[trigger] t.r.observations[i]
                    == s.r.observations[i]
            &&& forall|f: int| #[trigger] s.r.observed(image as int, f) is Some ==> t.r.observed(
                image as int,
                f,
            ) == s.r.observed(image as int, f)
            &&& forall|f: int|
                #![trigger t.r.observed(image as int, f)]
                t.r.observed(image as int, f) is Some && s.r.observed(image as int, f) is None
                    ==> is_suggested(
                    found,
                    errors,
                    max_error,
                    k as int,
                    f,
                    t.r.observed(image as int, f)->0,
                )
            &&& t.r.points.len() == s.r.points.len()
            &&& forall|p: int|
                0 <= p < s.r.points.len() ==> extends_track(
                    s.r.points[p],
                    #[trigger] t.r.points[p],
                    image,
                    t.r,
                    p,
                )
            &&& forall|p: int|
                0 <= p < s.r.points.len() && (#[trigger] t.r.points[p]) != s.r.points[p]
                    ==> t.modified.contains(p as usize)
            &&& s.modified.subset_of(t.modified)
            &&& forall|p: usize|
                #[trigger] t.modified.contains(p) && !s.modified.contains(p) ==> p
                    < s.r.points.len() && t.r.points[p as int] != s.r.points[p as int]
            &&& t.r == (ReconstructionView {
                observations: t.r.observations,
                points: t.r.points,
                ..s.r
            })
        }),
    decreases k,
{
    let t = existing_added(s, image, found, errors, max_error, k);
    if k > 0 {
        let rest = existing_added(s, image, found, errors, max_error, (k - 1) as nat);
        law_suggestions_added(s, image, found, errors, max_error, (k - 1) as nat);
        let point = found[k - 1].point_id;
        let obs = TrackObservation { image, feature: found[k - 1].feature };
        assert forall|f: int, p: usize|
            is_suggested(found, errors, max_error, k - 1, f, p) implies #[trigger] is_suggested(
            found,
            errors,
            max_error,
            k as int,
            f,
            p,
        ) by {
            let j = choose|j: int|
                0 <= j < k - 1 && (#[trigger] found[j]).feature == f && found[j].point_id == p
                    && errors[j].at_most(max_error);
            assert(found[j].feature == f);
        }
        if errors[k - 1].at_most(max_error) && can_add_observation(rest.r, point, obs) {
            assert(t == observation_added(rest, point, obs));
            assert(is_suggested(found, errors, max_error, k as int, obs.feature as int, point)) by {
                assert(found[k - 1].feature == obs.feature);
            }
            assert forall|f: int| #[trigger] t.r.observed(image as int, f) == (if f
                == obs.feature {
                Some(point)
            } else {
                rest.r.observed(image as int, f)
            }) by {}
            assert forall|f: int| #[trigger]
                s.r.observed(image as int, f) is Some implies t.r.observed(image as int, f)
                == s.r.observed(image as int, f) by {
                assert(rest.r.observed(image as int, f) == s.r.observed(image as int, f));
            }
            assert forall|f: int|
                #![trigger t.r.observed(image as int, f)]
                t.r.observed(image as int, f) is Some && s.r.observed(
                    image as int,
                    f,
                ) is None implies is_suggested(
                found,
                errors,
                max_error,
                k as int,
                f,
                t.r.observed(image as int, f)->0,
            ) by {
                if f != obs.feature {
                    assert(rest.r.observed(image as int, f) is Some);
                }
            }
            assert forall|p: int| 0 <= p < s.r.points.len() implies extends_track(
                s.r.points[p],
                #[trigger] t.r.points[p],
                image,
                t.r,
                p,
            ) by {
                assert(extends_track(s.r.points[p], rest.r.points[p], image, rest.r, p));
                if p == point {
                    assert(rest.r.points[p].track == s.r.points[p].track) by {
                        if rest.r.points[p].track.len() == s.r.points[p].track.len() + 1 {
                            assert(rest.r.points[p].track[s.r.points[p].track.len() as int].image
                                == image);
                        }
                    }
                    assert(t.r.points[p].track.take(s.r.points[p].track.len() as int)
                        =~= s.r.points[p].track);
                    assert(t.r.observed(image as int, obs.feature as int) == Some(point));
                } else if rest.r.points[p].track.len() > s.r.points[p].track.len() {
                    let last = rest.r.points[p].track[s.r.points[p].track.len() as int];
                    assert(rest.r.observed(image as int, last.feature as int) == Some(p as usize));
                    assert(t.r.observed(image as int, last.feature as int) == Some(p as usize));
                }
            }
            assert forall|p: int|
                0 <= p < s.r.points.len() && (#[trigger] t.r.points[p])
                    != s.r.points[p] implies t.modified.contains(p as usize) by {
                assert(rest.r.points[p] != s.r.points[p] ==> rest.modified.contains(p as usize));
            }
            assert forall|p: usize| #[trigger] t.modified.contains(p) && !s.modified.contains(
                p,
            ) implies p < s.r.points.len() && t.r.points[p as int] != s.r.points[p as int] by {
                assert(extends_track(
                    s.r.points[p as int],
                    rest.r.points[p as int],
                    image,
                    rest.r,
                    p as int,
                )) by {
                    if p != point {
                        assert(rest.modified.contains(p));
                    }
                    assert(rest.r.points[p as int] == rest.r.points[p as int]);
                }
                if p == point {
                    assert(t.r.points[p as int].track.len() == rest.r.points[p as int].track.len()
                        + 1);
                } else {
                    assert(rest.modified.contains(p));
                }
            }
        }
    } else {
        assert forall|p: int| 0 <= p < s.r.points.len() implies extends_track(
            s.r.points[p],
            #[trigger] t.r.points[p],
            image,
            t.r,
            p,
        ) by {
            assert(s.r.points[p].track.take(s.r.points[p].track.len() as int)
                =~= s.r.points[p].track);
        }
    }
}

/// Whether a point is another with at most one more observation, which is of the
/// image and stands in the table.
pub open spec fn extends_track(
    from: Point3DView,
    to: Point3DView,
    image: usize,
    r: ReconstructionView,
    point: int,
) -> bool {
    let n = from.track.len() as int;
    &&& to.xyz == from.xyz && to.color == from.color && to.error == from.error
    &&& n <= to.track.len() <= n + 1
    &&& to.track.take(n) == from.track
    &&& to.track.len() > n ==> {
        &&& to.track[n].image == image
        &&& r.observed(image as int, to.track[n].feature as int) == Some(point as usize)
    }
}

/// A suggestion that fits is added if its slot exists, it is the first that names
/// the feature or the point, the slot is free, and the track of the point has no
/// observation of the image.
pub proof fn law_fitting_suggestion_added(
    s: Edited,
    image: usize,
    found: Seq<ExistingObservation>,
    errors: Seq<Real32>,
    max_error: Real32,
    at: int,
    k: nat,
)
    requires
        0 <= at < k <= found.len(),
        errors[at].at_most(max_error),
        found[at].point_id < s.r.points.len(),
        image < s.r.observations.len(),
        found[at].feature < s.r.observations[image as int].len(),
        s.r.observed(image as int, found[at].feature as int) is None,
        forall|m: int|
            0 <= m < s.r.points[found[at].point_id as int].track.len()
                ==> (#[trigger] s.r.points[found[at].point_id as int].track[m]).image != image,
        forall|j: int|
            0 <= j < at ==> (#[trigger] found[j]).feature != found[at].feature
                && found[j].point_id != found[at].point_id,
    ensures
        ({
            let t = existing_added(s, image, found, errors, max_error, k);
            &&& t.r.observed(image as int, found[at].feature as int) == Some(found[at].point_id)
            &&& t.r.points[found[at].point_id as int].track
                == s.r.points[found[at].point_id as int].track.push(
                TrackObservation { image, feature: found[at].feature },
            )
            &&& t.modified.contains(found[at].point_id)
        }),
    decreases k,
{
    let f = found[at].feature;
    let p = found[at].point_id as int;
    let rest = existing_added(s, image, found, errors, max_error, (k - 1) as nat);
    law_suggestions_added(s, image, found, errors, max_error, (k - 1) as nat);
    assert(extends_track(s.r.points[p], rest.r.points[p], image, rest.r, p));
    if at < k - 1 {
        law_fitting_suggestion_added(s, image, found, errors, max_error, at, (k - 1) as nat);
        let obs = TrackObservation { image, feature: found[k - 1].feature };
        let n = s.r.points[p].track.len() as int;
        assert(rest.r.points[p].track[n].image == image);
        if found[k - 1].point_id == p {
            assert(!can_add_observation(rest.r, found[k - 1].point_id, obs));
        }
    } else {
        lemma_rows(s, image, found, errors, max_error, (k - 1) as nat);
        if rest.r.observed(image as int, f as int) is Some {
            let point = rest.r.observed(image as int, f as int)->0;
            let j = choose|j: int|
                0 <= j < k - 1 && (#[trigger] found[j]).feature == f && found[j].point_id == point
                    && errors[j].at_most(max_error);
            assert(found[j].feature != found[at].feature);
        }
        let n = s.r.points[p].track.len() as int;
        if rest.r.points[p].track.len() > n {
            let g = rest.r.points[p].track[n].feature as int;
            assert(rest.r.observed(image as int, g) == Some(p as usize));
            assert(s.r.observed(image as int, g) is None) by {
                lemma_new_slot(s, image, found, errors, max_error, (k - 1) as nat, p);
            }
            let j = choose|j: int|
                0 <= j < k - 1 && (#[trigger] found[j]).feature == g && found[j].point_id == p
                    && errors[j].at_most(max_error);
            assert(found[j].point_id != found[at].point_id);
        }
        assert(rest.r.points[p].track =~= s.r.points[p].track);
    }
}

/// Rows keep their lengths.
proof fn lemma_rows(
    s: Edited,
    image: usize,
    found: Seq<ExistingObservation>,
    errors: Seq<Real32>,
    max_error: Real32,
    k: nat,
)
    requires
        image < s.r.observations.len(),
    ensures
        ({
            let t = existing_added(s, image, found, errors, max_error, k);
            t.r.observations.len() == s.r.observations.len()
                && t.r.observations[image as int].len() == s.r.observations[image as int].len()
        }),
    decreases k,
{
    if k > 0 {
        lemma_rows(s, image, found, errors, max_error, (k - 1) as nat);
    }
}

/// The slot of an added observation was free.
proof fn lemma_new_slot(
    s: Edited,
    image: usize,
    found: Seq<ExistingObservation>,
    errors: Seq<Real32>,
    max_error: Real32,
    k: nat,
    p: int,
)
    requires
        0 <= p < s.r.points.len(),
        k <= found.len(),
    ensures
        ({
            let t = existing_added(s, image, found, errors, max_error, k);
            let n = s.r.points[p].track.len() as int;
            t.r.points[p].track.len() > n ==> s.r.observed(
                image as int,
                t.r.points[p].track[n].feature as int,
            ) is None
        }),
    decreases k,
{
    if k > 0 {
        let rest = existing_added(s, image, found, errors, max_error, (k - 1) as nat);
        lemma_new_slot(s, image, found, errors, max_error, (k - 1) as nat, p);
        law_suggestions_added(s, image, found, errors, max_error, (k - 1) as nat);
        assert(extends_track(s.r.points[p], rest.r.points[p], image, rest.r, p));
        let obs = TrackObservation { image, feature: found[k - 1].feature };
        if found[k - 1].point_id == p && can_add_observation(rest.r, found[k - 1].point_id, obs) {
            let n = s.r.points[p].track.len() as int;
            if rest.r.points[p].track.len() > n {
                assert(rest.r.points[p].track[n].image == image);
            }
        }
    }
}

/// Whether match `i` of pair `j` names a free feature of the image together with
/// a feature of a registered image.
pub open spec fn suggests(
    r: ReconstructionView,
    num_features: nat,
    pairs: Seq<PairGeometry>,
    image: usize,
    j: int,
    i: int,
    feature: usize,
    other: usize,
    other_feature: usize,
) -> bool {
    let pair = pairs[j];
    let m = pair.inlier_matches@[i];
    &&& 0 <= j < pairs.len()
    &&& 0 <= i < pair.inlier_matches@.len()
    &&& if pair.left == image {
        other == pair.right && feature == m.query_idx as usize && other_feature
            == m.train_idx as usize
    } else {
        pair.right == image && other == pair.left && feature == m.train_idx as usize
            && other_feature == m.query_idx as usize
    }
    &&& r.registered(other as int)
    &&& feature < num_features
    &&& other < r.observations.len()
    &&& other_feature < r.observations[other as int].len()
    &&& r.observed(image as int, feature as int) is None
}

/// Whether a match before match `m` of pair `k` names the feature.
pub open spec fn is_named(
    r: ReconstructionView,
    num_features: nat,
    pairs: Seq<PairGeometry>,
    image: usize,
    k: int,
    m: int,
    feature: usize,
) -> bool {
    exists|j: int, i: int, other: usize, other_feature: usize|
        (j < k || (j == k && i < m)) && #[trigger] suggests(
            r,
            num_features,
            pairs,
            image,
            j,
            i,
            feature,
            other,
            other_feature,
        )
}

/// Whether the first match that names the feature, if it stands before match `m`
/// of pair `k`, names it with a feature that observes `point`.
pub open spec fn first_named_with(
    r: ReconstructionView,
    num_features: nat,
    pairs: Seq<PairGeometry>,
    image: usize,
    k: int,
    m: int,
    feature: usize,
    point: Option<usize>,
) -> bool {
    exists|j: int, i: int, other: usize, other_feature: usize|
        (j < k || (j == k && i < m)) && #[trigger] suggests(
            r,
            num_features,
            pairs,
            image,
            j,
            i,
            feature,
            other,
            other_feature,
        ) && !is_named(r, num_features, pairs, image, j, i, feature)
            && r.observations[other as int][other_feature as int] == point
}

/// Whether a search has looked at the matches before match `m` of pair `k`.
pub open spec fn has_searched(
    s: ExistingSearch,
    r: ReconstructionView,
    num_features: nat,
    pairs: Seq<PairGeometry>,
    image: usize,
    k: int,
    m: int,
) -> bool {
    &&& forall|f: usize| #[trigger]
        s.features.contains(f) <==> is_named(r, num_features, pairs, image, k, m, f)
    &&& forall|x: int|
        0 <= x < s.found.len() ==> first_named_with(
            r,
            num_features,
            pairs,
            image,
            k,
            m,
            (#[trigger] s.found[x]).feature,
            Some(s.found[x].point_id),
        )
    &&& forall|x: int, y: int|
        0 <= x < y < s.found.len() ==> (#[trigger] s.found[x]).feature != (
        #[trigger] s.found[y]).feature
    &&& forall|f: usize| #[trigger]
        s.features.contains(f) ==> (exists|x: int|
            0 <= x < s.found.len() && (#[trigger] s.found[x]).feature == f) || first_named_with(
            r,
            num_features,
            pairs,
            image,
            k,
            m,
            f,
            None,
        )
}

proof fn lemma_named_later(
    r: ReconstructionView,
    num_features: nat,
    pairs: Seq<PairGeometry>,
    image: usize,
    k: int,
    m: int,
    k2: int,
    m2: int,
)
    requires
        k < k2 || (k == k2 && m <= m2),
    ensures
        forall|f: usize|
            is_named(r, num_features, pairs, image, k, m, f) ==> #[trigger] is_named(
                r,
                num_features,
                pairs,
                image,
                k2,
                m2,
                f,
            ),
        forall|f: usize, point: Option<usize>|
            first_named_with(r, num_features, pairs, image, k, m, f, point) ==> #[trigger]
                first_named_with(r, num_features, pairs, image, k2, m2, f, point),
{
    assert forall|f: usize| is_named(
        r,
        num_features,
        pairs,
        image,
        k,
        m,
        f,
    ) implies #[trigger] is_named(r, num_features, pairs, image, k2, m2, f) by {
        let (j, i, o, g) = choose|j: int, i: int, other: usize, other_feature: usize|
            (j < k || (j == k && i < m)) && #[trigger] suggests(
                r,
                num_features,
                pairs,
                image,
                j,
                i,
                f,
                other,
                other_feature,
            );
        assert(suggests(r, num_features, pairs, image, j, i, f, o, g));
    }
    assert forall|f: usize, point: Option<usize>|
        first_named_with(
            r,
            num_features,
            pairs,
            image,
            k,
            m,
            f,
            point,
        ) implies #[trigger] first_named_with(r, num_features, pairs, image, k2, m2, f, point) by {
        let (j, i, o, g) = choose|j: int, i: int, other: usize, other_feature: usize|
            (j < k || (j == k && i < m)) && #[trigger] suggests(
                r,
                num_features,
                pairs,
                image,
                j,
                i,
                f,
                other,
                other_feature,
            ) && !is_named(r, num_features, pairs, image, j, i, f)
                && r.observations[other as int][other_feature as int] == point;
        assert(suggests(r, num_features, pairs, image, j, i, f, o, g));
    }
}

proof fn lemma_search_step(
    s: ExistingSearch,
    r: ReconstructionView,
    num_features: nat,
    pairs: Seq<PairGeometry>,
    image: usize,
    k: int,
    m: int,
    other: usize,
    image_is_left: bool,
)
    requires
        0 <= k < pairs.len(),
        0 <= m < pairs[k].inlier_matches@.len(),
        pair_side(image, pairs[k]) == Some((other, image_is_left)),
        r.registered(other as int),
        has_searched(s, r, num_features, pairs, image, k, m),
    ensures
        ({
            let (feature, other_feature) = match_features(
                pairs[k].inlier_matches@[m],
                image_is_left,
            );
            has_searched(
                existing_match(s, r, num_features, image, other, feature, other_feature),
                r,
                num_features,
                pairs,
                image,
                k,
                m + 1,
            )
        }),
{
    let (feature, other_feature) = match_features(pairs[k].inlier_matches@[m], image_is_left);
    let t = existing_match(s, r, num_features, image, other, feature, other_feature);
    lemma_named_later(r, num_features, pairs, image, k, m, k, m + 1);
    let fits = suggests(r, num_features, pairs, image, k, m, feature, other, other_feature);
    assert forall|f: usize| #[trigger]
        is_named(r, num_features, pairs, image, k, m + 1, f) implies is_named(
        r,
        num_features,
        pairs,
        image,
        k,
        m,
        f,
    ) || (fits && f == feature) by {
        let (j, i, o, g) = choose|j: int, i: int, other: usize, other_feature: usize|
            (j < k || (j == k && i < m + 1)) && #[trigger] suggests(
                r,
                num_features,
                pairs,
                image,
                j,
                i,
                f,
                other,
                other_feature,
            );
        assert(suggests(r, num_features, pairs, image, j, i, f, o, g));
        if !(j < k || (j == k && i < m)) {
            assert(j == k && i == m);
        }
    }
    if fits {
        assert(is_named(r, num_features, pairs, image, k, m + 1, feature));
    }
    if fits && !s.features.contains(feature) {
        assert(!is_named(r, num_features, pairs, image, k, m, feature));
        let point = r.observations[other as int][other_feature as int];
        assert(first_named_with(r, num_features, pairs, image, k, m + 1, feature, point));
        assert forall|x: int| 0 <= x < s.found.len() implies (#[trigger] s.found[x]).feature
            != feature by {
            let (j, i, o, g) = choose|j: int, i: int, other: usize, other_feature: usize|
                (j < k || (j == k && i < m)) && #[trigger] suggests(
                    r,
                    num_features,
                    pairs,
                    image,
                    j,
                    i,
                    s.found[x].feature,
                    other,
                    other_feature,
                ) && !is_named(r, num_features, pairs, image, j, i, s.found[x].feature)
                    && r.observations[other as int][other_feature as int] == Some(
                    s.found[x].point_id,
                );
            if s.found[x].feature == feature {
                assert(is_named(r, num_features, pairs, image, k, m, feature));
            }
        }
        assert forall|f: usize| #[trigger] t.features.contains(f) implies (exists|x: int|
            0 <= x < t.found.len() && (#[trigger] t.found[x]).feature == f) || first_named_with(
            r,
            num_features,
            pairs,
            image,
            k,
            m + 1,
            f,
            None,
        ) by {
            if f == feature {
                if point is Some {
                    assert(t.found[s.found.len() as int].feature == f);
                }
            } else {
                assert(s.features.contains(f));
                if exists|x: int| 0 <= x < s.found.len() && (#[trigger] s.found[x]).feature == f {
                    let x = choose|x: int|
                        0 <= x < s.found.len() && (#[trigger] s.found[x]).feature == f;
                    assert(t.found[x].feature == f);
                }
            }
        }
    } else {
        assert(t == s);
    }
}

proof fn lemma_search_pair(
    s: ExistingSearch,
    r: ReconstructionView,
    num_features: nat,
    pairs: Seq<PairGeometry>,
    image: usize,
    k: int,
    m: nat,
    other: usize,
    image_is_left: bool,
)
    requires
        0 <= k < pairs.len(),
        m <= pairs[k].inlier_matches@.len(),
        pair_side(image, pairs[k]) == Some((other, image_is_left)),
        r.registered(other as int),
        has_searched(s, r, num_features, pairs, image, k, 0),
    ensures
        has_searched(
            existing_matches(s, r, num_features, image, pairs[k], other, image_is_left, m),
            r,
            num_features,
            pairs,
            image,
            k,
            m as int,
        ),
    decreases m,
{
    if m > 0 {
        lemma_search_pair(
            s,
            r,
            num_features,
            pairs,
            image,
            k,
            (m - 1) as nat,
            other,
            image_is_left,
        );
        lemma_search_step(
            existing_matches(
                s,
                r,
                num_features,
                image,
                pairs[k],
                other,
                image_is_left,
                (m - 1) as nat,
            ),
            r,
            num_features,
            pairs,
            image,
            k,
            m - 1,
            other,
            image_is_left,
        );
    }
}

/// The observations suggested for an image: each free feature that a match names
/// together with a feature of a registered image counts once, with the first such
/// match, and is suggested just if that match observes a point.
pub proof fn law_suggestions(
    r: ReconstructionView,
    num_features: nat,
    pairs: Seq<PairGeometry>,
    image: usize,
    k: nat,
)
    requires
        k <= pairs.len(),
    ensures
        has_searched(
            existing_upto(r, num_features, pairs, image, k),
            r,
            num_features,
            pairs,
            image,
            k as int,
            0,
        ),
    decreases k,
{
    let t = existing_upto(r, num_features, pairs, image, k);
    if k == 0 {
        assert forall|f: usize| !#[trigger] is_named(r, num_features, pairs, image, 0, 0, f) by {}
    } else {
        let rest = existing_upto(r, num_features, pairs, image, (k - 1) as nat);
        law_suggestions(r, num_features, pairs, image, (k - 1) as nat);
        let n = pairs[k - 1].inlier_matches@.len() as int;
        if pair_side(image, pairs[k - 1]) is Some && r.registered(
            (pair_side(image, pairs[k - 1])->0).0 as int,
        ) {
            let side = pair_side(image, pairs[k - 1])->0;
            lemma_search_pair(
                rest,
                r,
                num_features,
                pairs,
                image,
                k - 1,
                n as nat,
                side.0,
                side.1,
            );
        } else {
            assert forall|f: usize| #[trigger]
                is_named(r, num_features, pairs, image, k - 1, n, f) implies is_named(
                r,
                num_features,
                pairs,
                image,
                k - 1,
                0,
                f,
            ) by {
                let (j, i, o, g) = choose|j: int, i: int, other: usize, other_feature: usize|
                    (j < k - 1 || (j == k - 1 && i < n)) && #[trigger] suggests(
                        r,
                        num_features,
                        pairs,
                        image,
                        j,
                        i,
                        f,
                        other,
                        other_feature,
                    );
                assert(j < k - 1);
                assert(suggests(r, num_features, pairs, image, j, i, f, o, g));
            }
            lemma_named_later(r, num_features, pairs, image, k - 1, 0, k - 1, n);
            assert(has_searched(t, r, num_features, pairs, image, k - 1, n));
        }
        lemma_named_later(r, num_features, pairs, image, k - 1, n, k as int, 0);
        assert forall|f: usize| #[trigger]
            is_named(r, num_features, pairs, image, k as int, 0, f) implies is_named(
            r,
            num_features,
            pairs,
            image,
            k - 1,
            n,
            f,
        ) by {
            let (j, i, o, g) = choose|j: int, i: int, other: usize, other_feature: usize|
                (j < k || (j == k && i < 0)) && #[trigger] suggests(
                    r,
                    num_features,
                    pairs,
                    image,
                    j,
                    i,
                    f,
                    other,
                    other_feature,
                );
            assert(suggests(r, num_features, pairs, image, j, i, f, o, g));
        }
    }
}

/// A match may become a point just if both images are registered, both features
/// exist, and neither observes a point.
pub proof fn law_open_matches(
    frames: Seq<ImageFrame>,
    r: ReconstructionView,
    pair: PairGeometry,
    k: usize,
)
    ensures
        indices_where(pair.inlier_matches@.len(), open_matches(frames, r, pair)).contains(k) <==> {
            let m = pair.inlier_matches@[k as int];
            &&& k < pair.inlier_matches@.len()
            &&& m.query_idx < frames[pair.left as int].keypoints@.len()
            &&& m.train_idx < frames[pair.right as int].keypoints@.len()
            &&& r.observed(pair.left as int, m.query_idx as int) is None
            &&& r.observed(pair.right as int, m.train_idx as int) is None
        },
{
    let is_open = open_matches(frames, r, pair);
    assert(pair.inlier_matches@.len() == pair.inlier_matches.len());
    lemma_indices_where(pair.inlier_matches@.len(), is_open);
    if k < pair.inlier_matches@.len() && is_open(k as int) {
        assert(indices_where(pair.inlier_matches@.len(), is_open).contains(k));
    }
}

/// The point of a match is seen in both images at the features of the match, and
/// has the color of the left one.
pub proof fn law_point_of_match(
    frames: Seq<ImageFrame>,
    pair: PairGeometry,
    k: int,
    xyz: [Real32; 3],
    error: Real32,
)
    requires
        0 <= k < pair.inlier_matches@.len(),
    ensures
        ({
            let m = pair.inlier_matches@[k];
            let point = match_point(frames, pair, k, xyz, error);
            &&& point.xyz == xyz && point.error == error
            &&& point.color == frames[pair.left as int].colors@[m.query_idx as int]
            &&& point.track.len() == 2
            &&& point.track[0].image == pair.left && point.track[0].feature
                == m.query_idx as usize
            &&& point.track[1].image == pair.right && point.track[1].feature
                == m.train_idx as usize
        }),
{
}

/// An image observes a point with a feature just if the track of the point says
/// so.
pub proof fn law_observations_of_images(
    points: Seq<Point3DView>,
    image: usize,
    point: usize,
    feature: usize,
    k: nat,
)
    requires
        k <= points.len() <= usize::MAX,
    ensures
        image_observations(points, image as int, k).contains((point, feature)) <==> point < k
            && points[point as int].track.contains(TrackObservation { image, feature }),
    decreases k,
{
    if k > 0 {
        law_observations_of_images(points, image, point, feature, (k - 1) as nat);
        let rest = image_observations(points, image as int, (k - 1) as nat);
        let track = points[k - 1].track;
        let more = track_features(track, (k - 1) as usize, image as int, track.len());
        lemma_features_of_track(
            track,
            (k - 1) as usize,
            image,
            point,
            feature,
            track.len(),
        );
        assert(track.take(track.len() as int) =~= track);
        let all = rest + more;
        if rest.contains((point, feature)) {
            let x = choose|x: int| 0 <= x < rest.len() && rest[x] == (point, feature);
            assert(all[x] == (point, feature));
        }
        if more.contains((point, feature)) {
            let x = choose|x: int| 0 <= x < more.len() && more[x] == (point, feature);
            assert(all[rest.len() + x] == (point, feature));
        }
        if all.contains((point, feature)) {
            let x = choose|x: int| 0 <= x < all.len() && all[x] == (point, feature);
            if x < rest.len() {
                assert(rest[x] == (point, feature));
            } else {
                assert(more[x - rest.len()] == (point, feature));
            }
        }
    }
}

proof fn lemma_features_of_track(
    track: Seq<TrackObservation>,
    of: usize,
    image: usize,
    point: usize,
    feature: usize,
    k: nat,
)
    requires
        k <= track.len(),
    ensures
        track_features(track, of, image as int, k).contains((point, feature)) <==> point == of
            && track.take(k as int).contains(TrackObservation { image, feature }),
    decreases k,
{
    let obs = TrackObservation { image, feature };
    let start = track.take(k as int);
    if k > 0 {
        lemma_features_of_track(track, of, image, point, feature, (k - 1) as nat);
        let rest = track_features(track, of, image as int, (k - 1) as nat);
        let before = track.take(k - 1);
        assert(start =~= before.push(track[k - 1]));
        let all = track_features(track, of, image as int, k);
        if rest.contains((point, feature)) {
            let x = choose|x: int| 0 <= x < rest.len() && rest[x] == (point, feature);
            assert(all[x] == (point, feature));
        }
        if all.contains((point, feature)) {
            let x = choose|x: int| 0 <= x < all.len() && all[x] == (point, feature);
            if x < rest.len() {
                assert(rest[x] == (point, feature));
            } else {
                assert(start[k - 1] == obs);
            }
        }
        if before.contains(obs) {
            let x = choose|x: int| 0 <= x < before.len() && before[x] == obs;
            assert(start[x] == obs);
        }
        if start.contains(obs) && !before.contains(obs) {
            let x = choose|x: int| 0 <= x < start.len() && start[x] == obs;
            if x < k - 1 {
                assert(before[x] == obs);
            }
            assert(track[k - 1] == obs);
            assert(all == rest.push((of, feature)));
            assert(all[rest.len() as int] == (of, feature));
        }
    }
}

} // verus!
