//! Which images are matched with each other.

use crate::sorting::{ranks_all, sort_distinct, strictly_sorted, Ranked};
use vstd::prelude::*;

verus! {

/// The number of images of a full turn of the camera.
pub const PERIOD: usize = 192;

/// Two images to match.
#[derive(Debug, Clone, Copy, PartialEq, Eq, Structural)]
pub struct ImagePair {
    pub left: usize,
    pub right: usize,
}

impl Ranked for ImagePair {
    /// Ascending by left, then by right image.
    open spec fn before(self, other: ImagePair) -> bool {
        if self.left != other.left {
            self.left < other.left
        } else {
            self.right < other.right
        }
    }

    proof fn asymmetric(a: ImagePair, b: ImagePair) {
    }

    proof fn negatively_transitive(a: ImagePair, b: ImagePair, c: ImagePair) {
    }

    fn precedes(&self, other: &ImagePair) -> (b: bool) {
        if self.left != other.left {
            self.left < other.left
        } else {
            self.right < other.right
        }
    }
}

/// Whether two images lie within a window of each other.
pub open spec fn in_window(frame_count: usize, window: usize, pair: ImagePair) -> bool {
    pair.left < pair.right < frame_count && pair.right - pair.left <= window
}

/// Each image with those that follow it within a window, in order.
pub fn window_candidates(frame_count: usize, window: usize) -> (candidates: Vec<ImagePair>)
    ensures
        strictly_sorted(candidates@),
        forall|p: ImagePair| #[trigger]
            candidates@.contains(p) <==> in_window(frame_count, window, p),
{
    let mut candidates: Vec<ImagePair> = Vec::new();
    for left in 0..frame_count
        invariant
            strictly_sorted(candidates@),
            forall|i: int| 0 <= i < candidates@.len() ==> (#[trigger] candidates@[i]).left < left,
            forall|p: ImagePair| #[trigger]
                candidates@.contains(p) <==> p.left < left && in_window(frame_count, window, p),
    {
        let ghost base = candidates@;
        let room: usize = frame_count - 1 - left;
        let reach: usize = if window <= room {
            window
        } else {
            room
        };
        for k in 0..reach
            invariant
                left < frame_count,
                reach <= frame_count - 1 - left,
                forall|i: int| 0 <= i < base.len() ==> (#[trigger] base[i]).left < left,
                strictly_sorted(base),
                candidates@ == base + Seq::new(
                    k as nat,
                    |j: int| ImagePair { left, right: (left + 1 + j) as usize },
                ),
        {
            candidates.push(ImagePair { left, right: left + 1 + k });
            assert(candidates@ =~= base + Seq::new(
                (k + 1) as nat,
                |j: int| ImagePair { left, right: (left + 1 + j) as usize },
            ));
        }
        proof {
            assert forall|i: int, j: int| 0 <= i < j < candidates@.len() implies (
            #[trigger] candidates@[i]).before(#[trigger] candidates@[j]) by {
                if j < base.len() {
                    assert(base[i].before(base[j]));
                } else if i < base.len() {
                    assert(base[i].left < left);
                }
            }
            assert forall|p: ImagePair| #[trigger] candidates@.contains(p) <==> p.left < left + 1
                && in_window(frame_count, window, p) by {
                if candidates@.contains(p) {
                    let i = choose|i: int| 0 <= i < candidates@.len() && candidates@[i] == p;
                    if i < base.len() {
                        assert(base[i] == p);
                        assert(base.contains(p));
                    }
                }
                if p.left < left + 1 && in_window(frame_count, window, p) {
                    if p.left < left {
                        assert(base.contains(p));
                        let i = choose|i: int| 0 <= i < base.len() && base[i] == p;
                        assert(candidates@[i] == p);
                    } else {
                        let i = base.len() + (p.right - left - 1);
                        assert(candidates@[i] == p);
                    }
                }
            }
        }
    }
    candidates
}

/// Whether a pair ties the start of a turn to the start or the end of the
/// previous one.
pub open spec fn bridges_turn(frame_count: usize, turn: int, pair: ImagePair) -> bool {
    let start = turn * PERIOD;
    &&& 1 <= turn
    &&& start < frame_count
    &&& pair.right == start || (pair.right == start + 1 && start + 1 < frame_count)
    &&& start - PERIOD <= pair.left < start - PERIOD + 3 || start - 3 <= pair.left < start
}

/// Whether a pair bridges one of the first turns.
pub open spec fn bridges_below(frame_count: usize, turns: int, pair: ImagePair) -> bool {
    exists|t: int| 1 <= t < turns && #[trigger] bridges_turn(frame_count, t, pair)
}

/// Whether a pair bridges two turns.
pub open spec fn bridges(frame_count: usize, pair: ImagePair) -> bool {
    exists|t: int| #[trigger] bridges_turn(frame_count, t, pair)
}

fn push_bridge(
    candidates: &mut Vec<ImagePair>,
    left: usize,
    start: usize,
    frame_count: usize,
)
    requires
        start < frame_count,
    ensures
        forall|p: ImagePair| #[trigger]
            final(candidates)@.contains(p) <==> old(candidates)@.contains(p) || (p.left == left && (
            p.right == start || (p.right == start + 1 && start + 1 < frame_count))),
{
    let ghost before = candidates@;
    candidates.push(ImagePair { left, right: start });
    let ghost middle = candidates@;
    if start + 1 < frame_count {
        candidates.push(ImagePair { left, right: start + 1 });
    }
    proof {
        lemma_pushed(before, ImagePair { left, right: start });
        lemma_pushed(middle, ImagePair { left, right: (start + 1) as usize });
    }
}

proof fn lemma_pushed(s: Seq<ImagePair>, x: ImagePair)
    ensures
        forall|y: ImagePair| #[trigger] s.push(x).contains(y) <==> s.contains(y) || y == x,
{
    assert forall|y: ImagePair| #[trigger] s.push(x).contains(y) <==> s.contains(y) || y
        == x by {
        if s.contains(y) {
            let j = choose|j: int| 0 <= j < s.len() && s[j] == y;
            assert(s.push(x)[j] == y);
        }
        assert(s.push(x)[s.len() as int] == x);
        if s.push(x).contains(y) && y != x {
            let j = choose|j: int| 0 <= j < s.push(x).len() && s.push(x)[j] == y;
            assert(s[j] == y);
        }
    }
}

/// Adds the pairs that bridge turns of the camera; only if there is more than
/// one turn.
pub fn add_segment_bridge_candidates(frame_count: usize, candidates: Vec<ImagePair>) -> (out:
    Vec<ImagePair>)
    ensures
        frame_count <= PERIOD ==> out == candidates,
        frame_count > PERIOD ==> {
            &&& strictly_sorted(out@)
            &&& forall|p: ImagePair| #[trigger]
                out@.contains(p) <==> candidates@.contains(p) || bridges(frame_count, p)
        },
{
    if frame_count <= PERIOD {
        return candidates;
    }
    let ghost given = candidates@;
    let mut all: Vec<ImagePair> = candidates;
    let turns: usize = (frame_count - 1) / PERIOD + 1;
    for turn in 1..turns
        invariant
            frame_count > PERIOD,
            turns == (frame_count - 1) / (PERIOD as int) + 1,
            1 <= turn,
            forall|p: ImagePair| #[trigger]
                all@.contains(p) <==> given.contains(p) || bridges_below(
                    frame_count,
                    turn as int,
                    p,
                ),
    {
        assert(turn * PERIOD <= frame_count - 1) by (nonlinear_arith)
            requires
                turn <= (frame_count - 1) / (PERIOD as int),
                PERIOD == 192,
                frame_count >= 1,
        ;
        let ghost before = all@;
        let start: usize = turn * PERIOD;
        let left_start: usize = start - PERIOD;
        push_bridge(&mut all, left_start, start, frame_count);
        push_bridge(&mut all, left_start + 1, start, frame_count);
        push_bridge(&mut all, left_start + 2, start, frame_count);
        push_bridge(&mut all, start - 1, start, frame_count);
        push_bridge(&mut all, start - 2, start, frame_count);
        push_bridge(&mut all, start - 3, start, frame_count);
        proof {
            assert forall|p: ImagePair| #[trigger] all@.contains(p) <==> given.contains(p)
                || bridges_below(frame_count, turn + 1, p) by {
                assert(all@.contains(p) <==> before.contains(p) || bridges_turn(
                    frame_count,
                    turn as int,
                    p,
                ));
                if bridges_below(frame_count, turn as int, p) {
                    let t = choose|t: int|
                        1 <= t < turn && #[trigger] bridges_turn(frame_count, t, p);
                    assert(1 <= t < turn + 1 && bridges_turn(frame_count, t, p));
                }
                if bridges_turn(frame_count, turn as int, p) {
                    assert(bridges_below(frame_count, turn + 1, p));
                }
            }
        }
    }
    assert(ranks_all::<ImagePair>());
    let out: Vec<ImagePair> = sort_distinct(all);
    proof {
        assert forall|p: ImagePair| #[trigger] out@.contains(p) <==> given.contains(p)
            || bridges(frame_count, p) by {
            if bridges(frame_count, p) {
                let t = choose|t: int| #[trigger] bridges_turn(frame_count, t, p);
                assert(t <= (frame_count - 1) / (PERIOD as int)) by (nonlinear_arith)
                    requires
                        t * PERIOD < frame_count,
                        PERIOD == 192,
                ;
                assert(bridges_below(frame_count, turns as int, p));
            }
            if bridges_below(frame_count, turns as int, p) {
                let t = choose|t: int|
                    1 <= t < turns && #[trigger] bridges_turn(frame_count, t, p);
                assert(bridges(frame_count, p));
            }
        }
    }
    out
}

/// The pairs to match when neighbors in the sequence of images are matched.
pub fn local_pair_candidates(
    frame_count: usize,
    local_window: usize,
    experimental_sequence_heuristics: bool,
) -> (candidates: Vec<ImagePair>)
    ensures
        strictly_sorted(candidates@),
        forall|p: ImagePair| #[trigger]
            candidates@.contains(p) <==> in_window(frame_count, local_window, p) || (
            experimental_sequence_heuristics && frame_count > PERIOD && bridges(frame_count, p)),
{
    let candidates: Vec<ImagePair> = window_candidates(frame_count, local_window);
    if experimental_sequence_heuristics {
        add_segment_bridge_candidates(frame_count, candidates)
    } else {
        candidates
    }
}

/// Whether a pair closes a turn: about a full turn apart, near its seam.
pub open spec fn closes_ring(left: usize, right: usize) -> bool {
    &&& left < right
    &&& PERIOD - 4 <= right - left <= PERIOD + 4
    &&& left % PERIOD <= 3 || left % PERIOD >= PERIOD - 4
}

pub fn is_ring_bridge_candidate(left: usize, right: usize) -> (b: bool)
    ensures
        b == closes_ring(left, right),
{
    if left >= right {
        return false;
    }
    let delta: usize = right - left;
    if delta < PERIOD - 4 || delta > PERIOD + 4 {
        return false;
    }
    left % PERIOD <= 3 || left % PERIOD >= PERIOD - 4
}

/// Whether a pair joins the start of a turn to its end.
pub open spec fn closes_turn(
    frame_count: usize,
    period: usize,
    turn: int,
    pair: ImagePair,
) -> bool {
    let start = turn * period;
    let end = start + period - 1;
    &&& 0 <= turn
    &&& end < frame_count
    &&& pair.left < pair.right
    &&& start <= pair.left
    &&& pair.right <= end
    &&& (pair.left - start) + (end - pair.right) <= 2
}

pub open spec fn closes_below(
    frame_count: usize,
    period: usize,
    turns: int,
    pair: ImagePair,
) -> bool {
    exists|t: int| 0 <= t < turns && #[trigger] closes_turn(frame_count, period, t, pair)
}

fn push_closure(candidates: &mut Vec<ImagePair>, left: usize, end: usize, back: usize)
    ensures
        forall|p: ImagePair| #[trigger]
            final(candidates)@.contains(p) <==> old(candidates)@.contains(p) || (p.left == left && p.right
                + back == end && p.left < p.right),
{
    let ghost before = candidates@;
    if back <= end && left < end - back {
        candidates.push(ImagePair { left, right: end - back });
        proof {
            lemma_pushed(before, ImagePair { left, right: (end - back) as usize });
        }
    }
}

/// The pairs that join the start of each full turn to its end, in order.
pub fn intra_segment_ring_candidates(frame_count: usize, period: usize) -> (candidates: Vec<
    ImagePair,
>)
    requires
        period > 0,
    ensures
        strictly_sorted(candidates@),
        forall|p: ImagePair| #[trigger]
            candidates@.contains(p) <==> exists|t: int| #[trigger]
                closes_turn(frame_count, period, t, p),
{
    let mut all: Vec<ImagePair> = Vec::new();
    let turns: usize = frame_count / period;
    for turn in 0..turns
        invariant
            period > 0,
            turns == frame_count / period,
            forall|p: ImagePair| #[trigger]
                all@.contains(p) <==> closes_below(frame_count, period, turn as int, p),
    {
        assert(turn * period + period <= frame_count) by (nonlinear_arith)
            requires
                turn + 1 <= frame_count / period,
                period > 0,
        ;
        assert(turn * period >= 0) by (nonlinear_arith);
        let ghost before = all@;
        let start: usize = turn * period;
        let end: usize = start + (period - 1);
        push_closure(&mut all, start, end, 0);
        push_closure(&mut all, start, end, 1);
        push_closure(&mut all, start, end, 2);
        if period > 1 {
            push_closure(&mut all, start + 1, end, 0);
            push_closure(&mut all, start + 1, end, 1);
        }
        if period > 2 {
            push_closure(&mut all, start + 2, end, 0);
        }
        proof {
            assert forall|p: ImagePair| #[trigger] all@.contains(p) <==> closes_below(
                frame_count,
                period,
                turn + 1,
                p,
            ) by {
                assert(closes_turn(frame_count, period, turn as int, p) <==> p.left < p.right && start
                    <= p.left && p.right <= end && (p.left - start) + (end - p.right) <= 2);
                assert(all@.contains(p) <==> before.contains(p) || closes_turn(
                    frame_count,
                    period,
                    turn as int,
                    p,
                ));
                if closes_below(frame_count, period, turn as int, p) {
                    let t = choose|t: int|
                        0 <= t < turn && #[trigger] closes_turn(frame_count, period, t, p);
                    assert(0 <= t < turn + 1 && closes_turn(frame_count, period, t, p));
                }
                if closes_turn(frame_count, period, turn as int, p) {
                    assert(closes_below(frame_count, period, turn + 1, p));
                }
            }
        }
    }
    assert(ranks_all::<ImagePair>());
    let out: Vec<ImagePair> = sort_distinct(all);
    proof {
        assert forall|p: ImagePair| #[trigger] out@.contains(p) <==> exists|t: int| #[trigger]
            closes_turn(frame_count, period, t, p) by {
            assert(out@.contains(p) <==> closes_below(frame_count, period, turns as int, p));
            if exists|t: int| #[trigger] closes_turn(frame_count, period, t, p) {
                let t = choose|t: int| #[trigger] closes_turn(frame_count, period, t, p);
                assert(t < frame_count / period) by (nonlinear_arith)
                    requires
                        t * period + period - 1 < frame_count,
                        period > 0,
                ;
                assert(closes_below(frame_count, period, turns as int, p));
            }
            if closes_below(frame_count, period, turns as int, p) {
                let t = choose|t: int|
                    0 <= t < turns && #[trigger] closes_turn(frame_count, period, t, p);
                assert(closes_turn(frame_count, period, t, p));
            }
        }
    }
    out
}

} // verus!
