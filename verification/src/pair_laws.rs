//! Verified pairs, said of indices, inliers and errors themselves.

use crate::camera_setup::last_index;
use crate::indices::{count_where, indices_where, lemma_indices_where, lemma_where_congruent};
use crate::pair_candidates::{
    bridges, bridges_turn, closes_ring, closes_turn, in_window, ImagePair,
};
use crate::pair_graph::{
    best_closures, confirmed, database_pair, database_pairs, degree_upto, fits_pose,
    frame_of_image_id, has_high_error, image_id_of_name, match_distance_limit, matches_at,
    merged, of_turn, ring_closures, scored_closures, stored_geometry_key, trusted_pair,
    within_distance, DatabasePair, MatchFit, NamedImage, RingClosure,
};
use crate::scalar::Real32;
use crate::sorting::{is_sorting_of, lemma_sorting_contains, Ranked};
use crate::types::{ImageFrame, Match, PairGeometry};
use vstd::prelude::*;

verus! {

/// A pair closes a turn of 192 images just if it spans that many, give or take
/// four, and starts in the first four or the last four images of a turn.
pub proof fn law_ring_closures(left: usize, right: usize)
    ensures
        closes_ring(left, right) ==> left + 188 <= right <= left + 196,
        closes_ring(left, right) ==> left % 192 <= 3 || left % 192 >= 188,
        left + 188 <= right <= left + 196 && (left % 192 <= 3 || left % 192 >= 188)
            ==> closes_ring(left, right),
{
}

/// A pair that bridges turns ends at the first or second image of a later turn.
/// It starts among the first three images of the turn before or the last three.
pub proof fn law_bridges(frame_count: usize, pair: ImagePair)
    ensures
        bridges(frame_count, pair) ==> {
            let start = pair.right - pair.right % 192;
            &&& pair.left < pair.right < frame_count
            &&& pair.right >= 192
            &&& pair.right % 192 <= 1
            &&& start - 192 <= pair.left < start - 189 || start - 3 <= pair.left < start
        },
        pair.right < frame_count && pair.right >= 192 && pair.right % 192 <= 1 && (pair.right
            - pair.right % 192 - 192 <= pair.left < pair.right - pair.right % 192 - 189
            || pair.right - pair.right % 192 - 3 <= pair.left < pair.right - pair.right % 192)
            ==> bridges(frame_count, pair),
{
    if bridges(frame_count, pair) {
        let t = choose|t: int| #[trigger] bridges_turn(frame_count, t, pair);
        assert(pair.right % 192 == pair.right - 192 * t);
    }
    if pair.right < frame_count && pair.right >= 192 && pair.right % 192 <= 1 {
        let t = (pair.right / 192) as int;
        assert(pair.right == 192 * t + pair.right % 192);
        if pair.right - pair.right % 192 - 192 <= pair.left < pair.right - pair.right % 192 - 189
            || pair.right - pair.right % 192 - 3 <= pair.left < pair.right - pair.right % 192 {
            assert(bridges_turn(frame_count, t, pair));
        }
    }
}

/// A pair that closes a full turn leaves out at most two images of it at the ends.
pub proof fn law_turn_closures(
    frame_count: usize,
    period: usize,
    turn: int,
    pair: ImagePair,
    ahead: int,
    behind: int,
)
    requires
        turn >= 0,
        ahead == pair.left - turn * period,
        behind == (turn * period + period - 1) - pair.right,
    ensures
        closes_turn(frame_count, period, turn, pair) <==> {
            &&& turn * period + period <= frame_count
            &&& pair.left < pair.right
            &&& ahead >= 0 && behind >= 0
            &&& ahead + behind <= 2
        },
{
}

/// A pair without a usable configuration is never trusted, nor one with too few
/// inliers or too large an error for its distance.
pub proof fn law_untrusted_pairs(pair: PairGeometry)
    ensures
        pair.two_view_config == 0 || pair.two_view_config == 1 || pair.two_view_config == 7
            || pair.two_view_config == 8 ==> !trusted_pair(pair),
        pair.inliers < 15 ==> !trusted_pair(pair),
        (Real32 { bits: 0x4100_0000 }).below(pair.mean_reprojection_error_px)
            || pair.mean_reprojection_error_px.nan() ==> !trusted_pair(pair),
        pair.right > pair.left + 1 && !closes_ring(pair.left, pair.right) && pair.inliers < 40 + 12
            * (pair.right - pair.left - 2) ==> !trusted_pair(pair),
        pair.left > pair.right + 1 && pair.inliers < 40 + 12 * (pair.left - pair.right - 2)
            ==> !trusted_pair(pair),
        (pair.right > pair.left + 1 || pair.left > pair.right + 1) && (Real32 {
            bits: 0x3fe6_6666,
        }).below(pair.mean_reprojection_error_px) ==> !trusted_pair(pair),
        (pair.right > pair.left + 1 || pair.left > pair.right + 1) && (Real32 {
            bits: 0x41a0_0000,
        }).below(pair.rotation_deg) ==> !trusted_pair(pair),
        closes_ring(pair.left, pair.right) && (pair.inliers < 40 || (Real32 {
            bits: 0x3f80_0000,
        }).below(pair.mean_reprojection_error_px) || pair.median_triangulation_angle_deg.below(
            Real32 { bits: 0x3f40_0000 },
        ) || (Real32 { bits: 0x4100_0000 }).below(pair.rotation_deg)) ==> !trusted_pair(pair),
{
}

/// A pair with a usable configuration is trusted if it has enough inliers and a
/// small enough error for its distance.
pub proof fn law_trusted_pairs(pair: PairGeometry)
    requires
        pair.two_view_config != 0,
        pair.two_view_config != 1,
        pair.two_view_config != 7,
        pair.two_view_config != 8,
    ensures
        (pair.right == pair.left + 1 || pair.left == pair.right + 1 || pair.left == pair.right)
            && pair.inliers >= 15 && pair.mean_reprojection_error_px.at_most(
            Real32 { bits: 0x4100_0000 },
        ) ==> trusted_pair(pair),
        pair.right > pair.left + 1 && !closes_ring(pair.left, pair.right) && pair.inliers >= 40 + 12
            * (pair.right - pair.left - 2) && pair.mean_reprojection_error_px.at_most(
            Real32 { bits: 0x3fe6_6666 },
        ) && pair.rotation_deg.at_most(Real32 { bits: 0x41a0_0000 }) ==> trusted_pair(pair),
        pair.left > pair.right + 1 && pair.inliers >= 40 + 12 * (pair.left - pair.right - 2)
            && pair.mean_reprojection_error_px.at_most(Real32 { bits: 0x3fe6_6666 })
            && pair.rotation_deg.at_most(Real32 { bits: 0x41a0_0000 }) ==> trusted_pair(pair),
        closes_ring(pair.left, pair.right) && pair.inliers >= 40
            && pair.mean_reprojection_error_px.at_most(Real32 { bits: 0x3f80_0000 }) && (Real32 {
            bits: 0x3f40_0000,
        }).at_most(pair.median_triangulation_angle_deg) && pair.rotation_deg.at_most(
            Real32 { bits: 0x4100_0000 },
        ) ==> trusted_pair(pair),
{
}

/// A match is kept just if its distance is at most the limit. Across turns the
/// limit is 180 if that is more.
pub proof fn law_match_distances(matches: Seq<Match>, max_distance: Real32, across: bool, m: Match)
    requires
        matches.len() <= usize::MAX,
        !max_distance.nan(),
    ensures
        ({
            let kept = matches_at(
                matches,
                indices_where(
                    matches.len(),
                    within_distance(matches, match_distance_limit(max_distance, across)),
                ),
            );
            let wide = Real32 { bits: 0x4334_0000 };
            kept.contains(m) <==> matches.contains(m) && (m.distance.at_most(max_distance) || (
            across && m.distance.at_most(wide)))
        }),
{
    let q = within_distance(matches, match_distance_limit(max_distance, across));
    lemma_chosen_matches(matches, q);
    let kept = matches_at(matches, indices_where(matches.len(), q));
    if matches.contains(m) {
        let i = choose|i: int| 0 <= i < matches.len() && matches[i] == m;
        assert(q(i) <==> m.distance.at_most(match_distance_limit(max_distance, across)));
        if q(i) {
            assert(kept.contains(matches[i]));
        }
    }
    if kept.contains(m) {
        let i = choose|i: int| 0 <= i < matches.len() && #[trigger] q(i) && matches[i] == m;
        assert(q(i));
    }
}

/// The chosen matches are those at the chosen positions.
proof fn lemma_chosen_matches(matches: Seq<Match>, q: spec_fn(int) -> bool)
    requires
        matches.len() <= usize::MAX,
    ensures
        forall|i: int|
            0 <= i < matches.len() && #[trigger] q(i) ==> matches_at(
                matches,
                indices_where(matches.len(), q),
            ).contains(matches[i]),
        forall|m: Match| #[trigger]
            matches_at(matches, indices_where(matches.len(), q)).contains(m) ==> exists|i: int|
                0 <= i < matches.len() && #[trigger] q(i) && matches[i] == m,
{
    let chosen = indices_where(matches.len(), q);
    let kept = matches_at(matches, chosen);
    lemma_indices_where(matches.len(), q);
    assert forall|i: int| 0 <= i < matches.len() && #[trigger] q(i) implies kept.contains(
        matches[i],
    ) by {
        assert(chosen.contains(i as usize));
        let x = choose|x: int| 0 <= x < chosen.len() && chosen[x] == i as usize;
        assert(kept[x] == matches[i]);
    }
    assert forall|m: Match| #[trigger] kept.contains(m) implies exists|i: int|
        0 <= i < matches.len() && #[trigger] q(i) && matches[i] == m by {
        let x = choose|x: int| 0 <= x < kept.len() && kept[x] == m;
        assert(chosen.contains(chosen[x]));
        assert(q(chosen[x] as int));
    }
}

/// A match counts as mutual just if the other direction joins the same features.
pub proof fn law_mutual_matches(forward: Seq<Match>, reverse: Seq<Match>, m: Match)
    requires
        forward.len() <= usize::MAX,
    ensures
        matches_at(
            forward,
            indices_where(forward.len(), confirmed(forward, reverse)),
        ).contains(m) <==> forward.contains(m) && exists|j: int|
            0 <= j < reverse.len() && (#[trigger] reverse[j]).query_idx == m.train_idx
                && reverse[j].train_idx == m.query_idx,
{
    let q = confirmed(forward, reverse);
    lemma_chosen_matches(forward, q);
    let kept = matches_at(forward, indices_where(forward.len(), q));
    if forward.contains(m) && exists|j: int|
        0 <= j < reverse.len() && (#[trigger] reverse[j]).query_idx == m.train_idx
            && reverse[j].train_idx == m.query_idx {
        let i = choose|i: int| 0 <= i < forward.len() && forward[i] == m;
        assert(q(i));
        assert(kept.contains(forward[i]));
    }
    if kept.contains(m) {
        let i = choose|i: int| 0 <= i < forward.len() && #[trigger] q(i) && forward[i] == m;
        assert(forward[i] == m);
    }
}

/// Merging adds only matches of the second list.
pub proof fn law_merge_adds_given(matches: Seq<Match>, extra: Seq<Match>, k: nat, i: int)
    requires
        k <= extra.len(),
        matches.len() <= i < merged(matches, extra, k).len(),
    ensures
        extra.contains(merged(matches, extra, k)[i]),
    decreases k,
{
    if k > 0 {
        let rest = merged(matches, extra, (k - 1) as nat);
        if i < rest.len() {
            law_merge_adds_given(matches, extra, (k - 1) as nat, i);
            assert(merged(matches, extra, k)[i] == rest[i]);
        } else {
            assert(merged(matches, extra, k)[i] == extra[k - 1]);
        }
    }
}

/// The closures that are ranked are the pairs that close a turn, those with higher
/// scores ahead, and each pair once.
pub proof fn law_ranked_closures(
    pairs: Seq<PairGeometry>,
    scores: Seq<Real32>,
    ranked: Seq<RingClosure>,
    i: int,
    j: int,
)
    requires
        pairs.len() <= usize::MAX,
        scores.len() == pairs.len(),
        forall|x: int| 0 <= x < scores.len() ==> !(#[trigger] scores[x]).nan(),
        is_sorting_of(ranked, scored_closures(pairs, scores, pairs.len())),
        0 <= i < ranked.len(),
        0 <= j < ranked.len(),
    ensures
        ranked[i].index < pairs.len(),
        closes_ring(
            pairs[ranked[i].index as int].left,
            pairs[ranked[i].index as int].right,
        ),
        scores[ranked[j].index as int].below(scores[ranked[i].index as int]) ==> i < j,
{
    let given = scored_closures(pairs, scores, pairs.len());
    let chosen = indices_where(pairs.len(), ring_closures(pairs));
    lemma_sorting_contains(ranked, given);
    lemma_indices_where(pairs.len(), ring_closures(pairs));
    assert(ranked.contains(ranked[i]) && ranked.contains(ranked[j]));
    let x = choose|x: int| 0 <= x < given.len() && given[x] == ranked[i];
    let y = choose|y: int| 0 <= y < given.len() && given[y] == ranked[j];
    assert(chosen.contains(chosen[x]) && chosen.contains(chosen[y]));
    assert(ring_closures(pairs)(chosen[x] as int));
    if j < i {
        assert(!ranked[i].before(ranked[j]));
    }
}

/// Selects the kept closures of a turn.
pub open spec fn kept_of_turn(
    pairs: Seq<PairGeometry>,
    kept: Seq<usize>,
    turn: int,
) -> spec_fn(int) -> bool {
    |i: int| pairs[kept[i] as int].left / 192 == turn
}

/// Of each turn as many closures are kept as the limit allows, or all. They are
/// kept in order of rank.
pub proof fn law_kept_closures(
    pairs: Seq<PairGeometry>,
    ranked: Seq<RingClosure>,
    limit: usize,
    k: nat,
    turn: int,
)
    requires
        k <= ranked.len(),
    ensures
        ({
            let kept = best_closures(pairs, ranked, limit, k);
            let all = count_where(k, of_turn(pairs, ranked, turn));
            let n = count_where(kept.len(), kept_of_turn(pairs, kept, turn));
            &&& n == (if all <= limit {
                all
            } else {
                limit as nat
            })
            &&& forall|i: int|
                0 <= i < kept.len() ==> exists|x: int|
                    0 <= x < k && (#[trigger] ranked[x]).index == #[trigger] kept[i]
        }),
    decreases k,
{
    if k > 0 {
        law_kept_closures(pairs, ranked, limit, (k - 1) as nat, turn);
        let rest = best_closures(pairs, ranked, limit, (k - 1) as nat);
        let kept = best_closures(pairs, ranked, limit, k);
        let own = pairs[ranked[k - 1].index as int].left / 192;
        assert forall|i: int| 0 <= i < kept.len() implies exists|x: int|
            0 <= x < k && (#[trigger] ranked[x]).index == #[trigger] kept[i] by {
            if i < rest.len() {
                assert(kept[i] == rest[i]);
                let x = choose|x: int|
                    0 <= x < k - 1 && (#[trigger] ranked[x]).index == rest[i];
                assert(ranked[x].index == kept[i]);
            } else {
                assert(ranked[k - 1].index == kept[i]);
            }
        }
        lemma_where_congruent(
            rest.len(),
            kept_of_turn(pairs, rest, turn),
            kept_of_turn(pairs, kept, turn),
        );
        if kept.len() > rest.len() {
            assert(kept[rest.len() as int] == ranked[k - 1].index);
            assert(kept_of_turn(pairs, kept, turn)(rest.len() as int) <==> own == turn);
        }
        assert(of_turn(pairs, ranked, turn)(k - 1) <==> own == turn);
    }
}

/// The frame of a database image is the last that has the name of the last image
/// of that identifier.
pub proof fn law_last_position<T>(s: Seq<T>, x: T)
    requires
        s.len() <= usize::MAX,
    ensures
        last_index(s, x) is None <==> !s.contains(x),
        last_index(s, x) matches Some(i) ==> i < s.len() && s[i as int] == x && forall|j: int|
            i < j < s.len() ==> s[j] != x,
    decreases s.len(),
{
    if s.len() > 0 {
        let d = s.drop_last();
        if s.last() != x {
            law_last_position(d, x);
            if s.contains(x) {
                let j = choose|j: int| 0 <= j < s.len() && s[j] == x;
                assert(d[j] == x);
            }
            if d.contains(x) {
                let j = choose|j: int| 0 <= j < d.len() && d[j] == x;
                assert(s[j] == x);
            }
            assert forall|j: int| 0 <= j < d.len() implies d[j] == s[j] by {}
        } else {
            assert(s[s.len() - 1] == x);
        }
    }
}

/// Pairs of a database stand for the frames of their images, the earlier frame on
/// the left with its own identifier.
pub proof fn law_database_pair(
    frames: Seq<ImageFrame>,
    images: Seq<NamedImage>,
    ids: (u32, u32),
    position: int,
)
    ensures
        ({
            let a = frame_of_image_id(frames, images, ids.0);
            let b = frame_of_image_id(frames, images, ids.1);
            let pair = database_pair(frames, images, ids, position);
            &&& pair is Some <==> a is Some && b is Some
            &&& pair matches Some(p) ==> {
                &&& p.left <= p.right
                &&& frame_of_image_id(frames, images, p.left_image_id) == Some(p.left)
                &&& frame_of_image_id(frames, images, p.right_image_id) == Some(p.right)
                &&& (p.left_image_id == ids.0 && p.right_image_id == ids.1) || (p.left_image_id
                    == ids.1 && p.right_image_id == ids.0)
                &&& a->0 < b->0 ==> p.left_image_id == ids.0
                &&& a->0 > b->0 ==> p.left_image_id == ids.1
            }
        }),
{
}

/// The pairs of frames come in ascending order, those of the same frames in the
/// order of the database, and every pair whose images are frames is there.
pub proof fn law_database_pairs_order(
    frames: Seq<ImageFrame>,
    images: Seq<NamedImage>,
    pairs: Seq<(u32, u32)>,
    out: Seq<DatabasePair>,
    i: int,
    j: int,
)
    requires
        is_sorting_of(out, database_pairs(frames, images, pairs, pairs.len())),
        0 <= i < out.len(),
        0 <= j < out.len(),
    ensures
        out[i].left < out[j].left ==> i < j,
        out[i].left == out[j].left && out[i].right < out[j].right ==> i < j,
        out[i].left == out[j].left && out[i].right == out[j].right && out[i].position
            < out[j].position ==> i < j,
{
    if j < i {
        assert(!out[i].before(out[j]));
    }
}

/// Every pair of a database whose images are frames is there, and no other.
pub proof fn law_database_pairs(
    frames: Seq<ImageFrame>,
    images: Seq<NamedImage>,
    pairs: Seq<(u32, u32)>,
    k: nat,
    pair: DatabasePair,
)
    requires
        k <= pairs.len() <= usize::MAX,
    ensures
        database_pairs(frames, images, pairs, k).contains(pair) <==> exists|i: int|
            0 <= i < k && database_pair(frames, images, #[trigger] pairs[i], i) == Some(pair),
    decreases k,
{
    let all = database_pairs(frames, images, pairs, k);
    if k > 0 {
        law_database_pairs(frames, images, pairs, (k - 1) as nat, pair);
        let rest = database_pairs(frames, images, pairs, (k - 1) as nat);
        let own = database_pair(frames, images, pairs[k - 1], k - 1);
        if rest.contains(pair) {
            let x = choose|x: int| 0 <= x < rest.len() && rest[x] == pair;
            assert(all[x] == pair);
            let i = choose|i: int|
                0 <= i < k - 1 && database_pair(frames, images, #[trigger] pairs[i], i) == Some(
                    pair,
                );
            assert(database_pair(frames, images, pairs[i], i) == Some(pair));
        }
        if own == Some(pair) {
            assert(all[rest.len() as int] == pair);
            assert(database_pair(frames, images, pairs[k - 1], k - 1) == Some(pair));
        }
        if all.contains(pair) {
            let x = choose|x: int| 0 <= x < all.len() && all[x] == pair;
            if x < rest.len() {
                assert(rest[x] == pair);
            } else {
                assert(own == Some(pair));
            }
        }
        if exists|i: int|
            0 <= i < k && database_pair(frames, images, #[trigger] pairs[i], i) == Some(pair) {
            let i = choose|i: int|
                0 <= i < k && database_pair(frames, images, #[trigger] pairs[i], i) == Some(pair);
            if i < k - 1 {
                assert(database_pair(frames, images, pairs[i], i) == Some(pair));
            }
        }
    }
}

/// A geometry is stored under the identifier of its images just if both frames
/// exist, both names are known, and the identifiers are in order and in range.
pub proof fn law_stored_geometry(
    frames: Seq<ImageFrame>,
    images: Seq<NamedImage>,
    left: usize,
    right: usize,
)
    ensures
        ({
            let key = stored_geometry_key(frames, images, left, right);
            let a = image_id_of_name(images, frames[left as int].name@);
            let b = image_id_of_name(images, frames[right as int].name@);
            &&& left >= frames.len() || right >= frames.len() ==> key is None
            &&& a is None || b is None ==> key is None
            &&& left < frames.len() && right < frames.len() && a is Some && b is Some && a->0
                > b->0 ==> key is None
            &&& left < frames.len() && right < frames.len() && a is Some && b is Some && a->0
                <= b->0 && b->0 < 2147483647 ==> key == Some(
                (a->0 * 2147483647 + b->0) as u64,
            )
        }),
{
}

/// A match fits a stored pose just if its features exist, it was measured, and its
/// error is finite and at most the largest.
pub proof fn law_fitting_matches(
    matches: Seq<Match>,
    left_features: nat,
    right_features: nat,
    fits: Seq<Option<MatchFit>>,
    max_error: Real32,
    i: usize,
)
    requires
        matches.len() <= usize::MAX,
        !max_error.nan(),
    ensures
        indices_where(
            matches.len(),
            fits_pose(matches, left_features, right_features, fits, max_error),
        ).contains(i) <==> {
            &&& i < matches.len()
            &&& matches[i as int].query_idx < left_features
            &&& matches[i as int].train_idx < right_features
            &&& fits[i as int] is Some
            &&& fits[i as int]->0.error.finite()
            &&& fits[i as int]->0.error.at_most(max_error)
        },
{
    let q = fits_pose(matches, left_features, right_features, fits, max_error);
    lemma_indices_where(matches.len(), q);
    if i < matches.len() && q(i as int) {
        assert(indices_where(matches.len(), q).contains(i));
    }
}

/// A further pair counts for both of its images.
pub proof fn law_degrees_add_up(pairs: Seq<PairGeometry>, pair: PairGeometry, image: int)
    ensures
        ({
            let before = degree_upto(pairs, pairs.len(), image);
            let after = degree_upto(pairs.push(pair), pairs.len() + 1, image);
            &&& pair.left != image && pair.right != image ==> after == before
            &&& (pair.left == image) != (pair.right == image) ==> after == before + 1
            &&& pair.left == image && pair.right == image ==> after == before + 2
        }),
        degree_upto(Seq::empty(), 0, image) == 0,
{
    lemma_degrees_congruent(pairs, pairs.push(pair), pairs.len(), image);
    assert(pairs.push(pair)[pairs.len() as int] == pair);
}

proof fn lemma_degrees_congruent(
    a: Seq<PairGeometry>,
    b: Seq<PairGeometry>,
    k: nat,
    image: int,
)
    requires
        k <= a.len(),
        k <= b.len(),
        forall|i: int| 0 <= i < k ==> a[i] == b[i],
    ensures
        degree_upto(a, k, image) == degree_upto(b, k, image),
    decreases k,
{
    if k > 0 {
        lemma_degrees_congruent(a, b, (k - 1) as nat, image);
    }
}

/// A pair has a high error just if its mean error is above four pixels or its
/// rotation above 25 degrees.
pub proof fn law_high_errors(pairs: Seq<PairGeometry>, i: int)
    ensures
        (Real32 { bits: 0x4080_0000 }).below(pairs[i].mean_reprojection_error_px)
            ==> has_high_error(pairs)(i),
        (Real32 { bits: 0x41c8_0000 }).below(pairs[i].rotation_deg) ==> has_high_error(pairs)(i),
        pairs[i].mean_reprojection_error_px.at_most(Real32 { bits: 0x4080_0000 })
            && pairs[i].rotation_deg.at_most(Real32 { bits: 0x41c8_0000 }) ==> !has_high_error(
            pairs,
        )(i),
{
}

/// Images lie within a window just if the second follows the first by no more than
/// its width.
pub proof fn law_windows(frame_count: usize, window: usize, left: usize, right: usize)
    ensures
        right >= frame_count || right <= left ==> !in_window(
            frame_count,
            window,
            ImagePair { left, right },
        ),
        right > left + window ==> !in_window(frame_count, window, ImagePair { left, right }),
        left < right < frame_count && right <= left + window ==> in_window(
            frame_count,
            window,
            ImagePair { left, right },
        ),
{
}

} // verus!
