//! What holds while the features of an image that was registered without points
//! are given to tracks, one after the other.

use crate::observation_manager::{observation_added, Edited};
use crate::structureless::{
    continues_track, decision_applied, group_observations, starts_track, StructurelessDecision,
    StructurelessInlier,
};
use crate::track_edits::slot;
use crate::types::{ReconstructionView, TrackObservation};
use vstd::prelude::*;

verus! {

/// The feature of an inlier.
pub open spec fn own_feature(inlier: StructurelessInlier) -> TrackObservation {
    TrackObservation { image: inlier.image, feature: inlier.feature }
}

pub open spec fn is_observed(r: ReconstructionView, obs: TrackObservation) -> bool {
    r.observed(obs.image as int, obs.feature as int) is Some
}

/// Whether the table is no larger than memory allows.
pub open spec fn rows_fit(r: ReconstructionView) -> bool {
    &&& r.observations.len() <= usize::MAX
    &&& forall|i: int|
        0 <= i < r.observations.len() ==> (#[trigger] r.observations[i]).len() <= usize::MAX
}

/// Whether every feature that observed a point observes the same one still.
pub open spec fn keeps_taken(begin: ReconstructionView, r: ReconstructionView) -> bool {
    forall|i: int, f: int|
        begin.observed(i, f) is Some ==> #[trigger] r.observed(i, f) == begin.observed(i, f)
}

/// Whether a feature is that of one of the first `start` inliers.
pub open spec fn among_first(
    list: Seq<StructurelessInlier>,
    start: int,
    obs: TrackObservation,
) -> bool {
    exists|k: int| 0 <= k < start && own_feature(#[trigger] list[k]) == obs
}

/// What holds once the groups before inlier `start` are dealt with. The model has
/// grown by as many points as were counted. Taken features keep their point. What
/// was counted are different features of those inliers, `counted`, that had no
/// point and now have one.
pub open spec fn groups_hold(
    list: Seq<StructurelessInlier>,
    begin: ReconstructionView,
    r: ReconstructionView,
    start: int,
    counted: Set<TrackObservation>,
    continued: nat,
    created: nat,
) -> bool {
    &&& rows_fit(r)
    &&& r.points.len() == begin.points.len() + created
    &&& keeps_taken(begin, r)
    &&& counted.finite()
    &&& counted.len() == continued + created
    &&& forall|obs: TrackObservation| #[trigger]
        counted.contains(obs) ==> among_first(list, start, obs) && !is_observed(begin, obs)
            && is_observed(r, obs)
}

/// Whether a decision is one about a feature: a new track holds it.
pub open spec fn concerns(decision: StructurelessDecision, obs: TrackObservation) -> bool {
    decision is Create ==> decision->track@.contains(obs)
}

/// The track of a group of inliers holds their feature.
pub proof fn law_group_track_holds_feature(
    list: Seq<StructurelessInlier>,
    start: int,
    end: int,
    track: Seq<TrackObservation>,
)
    requires
        0 <= start < end <= list.len(),
        forall|x: TrackObservation| #[trigger]
            track.contains(x) <==> group_observations(list, start, end).contains(x),
    ensures
        track.contains(own_feature(list[start])),
{
    let all = group_observations(list, start, end);
    assert(all[0] == own_feature(list[start]));
    assert(all.contains(own_feature(list[start])));
}

/// It holds before the first group is dealt with.
pub proof fn law_groups_start(list: Seq<StructurelessInlier>, r: ReconstructionView)
    requires
        rows_fit(r),
    ensures
        groups_hold(list, r, r, 0, Set::empty(), 0, 0),
{
}

/// Carrying out the decision about a group keeps what holds: a feature is counted
/// at most once, as one that was counted has a point and is passed over.
pub proof fn law_groups_go_on(
    list: Seq<StructurelessInlier>,
    begin: ReconstructionView,
    s: Edited,
    start: int,
    end: int,
    counted: Set<TrackObservation>,
    continued: nat,
    created: nat,
    decision: StructurelessDecision,
)
    requires
        groups_hold(list, begin, s.r, start, counted, continued, created),
        0 <= start < end <= list.len(),
        concerns(decision, own_feature(list[start])),
    ensures
        ({
            let obs = own_feature(list[start]);
            let joins = continues_track(s.r, obs.image, obs.feature, decision);
            let starts = starts_track(s.r, obs.image, obs.feature, decision);
            &&& joins || starts ==> !counted.contains(obs)
            &&& groups_hold(
                list,
                begin,
                decision_applied(s, obs.image, obs.feature, decision).r,
                end,
                if joins || starts {
                    counted.insert(obs)
                } else {
                    counted
                },
                if joins {
                    continued + 1
                } else {
                    continued
                },
                if starts {
                    created + 1
                } else {
                    created
                },
            )
        }),
{
    let r = s.r;
    let obs = own_feature(list[start]);
    let image = obs.image as int;
    let feature = obs.feature as int;
    let after = decision_applied(s, obs.image, obs.feature, decision).r;
    let joins = continues_track(r, obs.image, obs.feature, decision);
    let starts = starts_track(r, obs.image, obs.feature, decision);
    assert forall|x: TrackObservation| among_first(list, start, x) implies among_first(
        list,
        end,
        x,
    ) by {
        let k = choose|k: int| 0 <= k < start && own_feature(#[trigger] list[k]) == x;
        assert(0 <= k < end && own_feature(list[k]) == x);
    }
    assert(among_first(list, end, obs)) by {
        assert(0 <= start < end && own_feature(list[start]) == obs);
    }
    if joins {
        let joined = observation_added(s, decision->point_id, obs).r;
        assert(after.observations == joined.observations);
        assert(after.observed(image, feature) == Some(decision->point_id));
    } else if starts {
        let track = decision->track@;
        let k = choose|k: int| 0 <= k < track.len() && track[k] == obs;
        assert(r.has_slot(track[k]));
        assert(slot(image, feature) == obs);
        assert(after.observed(image, feature) is Some);
    }
    assert forall|i: int, f: int| r.observed(i, f) is Some implies #[trigger] after.observed(i, f)
        == r.observed(i, f) by {
        if starts {
            let track = decision->track@;
            assert(r.observations[i].len() <= usize::MAX);
            if track.contains(slot(i, f)) {
                let k = choose|k: int| 0 <= k < track.len() && track[k] == slot(i, f);
                assert(r.observed(track[k].image as int, track[k].feature as int) is None);
            }
        }
    }
    assert forall|i: int| 0 <= i < after.observations.len() implies (
    #[trigger] after.observations[i]).len() <= usize::MAX by {
        assert(r.observations[i].len() <= usize::MAX);
    }
    assert forall|i: int, f: int| begin.observed(i, f) is Some implies #[trigger] after.observed(
        i,
        f,
    ) == begin.observed(i, f) by {
        assert(r.observed(i, f) == begin.observed(i, f));
    }
    assert(joins || starts ==> !is_observed(begin, obs)) by {
        assert(r.observed(image, feature) is None || !(joins || starts));
        if begin.observed(image, feature) is Some {
            assert(r.observed(image, feature) == begin.observed(image, feature));
        }
    }
}

} // verus!
