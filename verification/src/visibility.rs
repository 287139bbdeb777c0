//! How well the features of an image that see a point cover the image.
//!
//! The image is split into grids of 1, 2, 4, .. 32 columns and as many rows.
//! The score counts, over all grids, the cells that hold a visible feature.

use crate::indices::{
    count_where, lemma_count_bound, lemma_count_monotone, lemma_count_positive,
    lemma_count_turned_on, lemma_where_congruent,
};
use crate::types::{ImageFrame, Keypoint};
use vstd::prelude::*;

verus! {

/// Number of grids of the pyramid.
pub const PYRAMID_LEVELS: usize = 6;

/// Columns and rows of the grid of a level.
pub open spec fn grid_size(level: nat) -> nat
    decreases level,
{
    if level == 0 {
        1
    } else {
        2 * grid_size((level - 1) as nat)
    }
}

/// Position of a finest grid cell on a grid of `bins` columns.
pub open spec fn coarse_cell(cell: u8, bins: nat) -> int {
    (if cell < 32 {
        cell as int
    } else {
        31
    }) / (32int / bins as int)
}

/// The cell of a feature on a grid of `bins` columns, counted row by row.
pub open spec fn cell_of(keypoint: Keypoint, bins: nat) -> int {
    coarse_cell(keypoint.cell_y, bins) * bins + coarse_cell(keypoint.cell_x, bins)
}

/// Selects the cells that hold one of the first `n` features selected by `visible`.
pub open spec fn occupied(
    keypoints: Seq<Keypoint>,
    visible: spec_fn(int) -> bool,
    bins: nat,
    n: nat,
) -> spec_fn(int) -> bool {
    |cell: int|
        exists|f: int| 0 <= f < n && #[trigger] visible(f) && cell_of(keypoints[f], bins) == cell
}

pub open spec fn occupied_cells(
    keypoints: Seq<Keypoint>,
    visible: spec_fn(int) -> bool,
    bins: nat,
) -> nat {
    count_where(bins * bins, occupied(keypoints, visible, bins, keypoints.len()))
}

/// The score of the first `levels` grids.
pub open spec fn score_upto(
    keypoints: Seq<Keypoint>,
    visible: spec_fn(int) -> bool,
    levels: nat,
) -> nat
    decreases levels,
{
    if levels == 0 {
        0
    } else {
        score_upto(keypoints, visible, (levels - 1) as nat) + occupied_cells(
            keypoints,
            visible,
            grid_size((levels - 1) as nat),
        )
    }
}

/// The visibility score of an image whose visible features are selected by `visible`.
pub open spec fn visibility_score(frame: ImageFrame, visible: spec_fn(int) -> bool) -> nat {
    if frame.width == 0 || frame.height == 0 {
        0
    } else {
        score_upto(frame.keypoints@, visible, PYRAMID_LEVELS as nat)
    }
}

/// Selects the features with a positive count.
pub open spec fn counted(counts: Seq<usize>) -> spec_fn(int) -> bool {
    |f: int| counts[f] > 0
}

fn coarse(cell: u8, step: usize) -> (c: usize)
    requires
        step == 1 || step == 2 || step == 4 || step == 8 || step == 16 || step == 32,
    ensures
        c == (if cell < 32 {
            cell as int
        } else {
            31
        }) / step as int,
        c < 32int / step as int,
{
    let clamped: usize = if cell < 32 {
        cell as usize
    } else {
        31
    };
    clamped / step
}

/// Counts the cells of one grid that hold a visible feature.
fn count_occupied(keypoints: &Vec<Keypoint>, counts: &Vec<usize>, bins: usize, step: usize) -> (n:
    usize)
    requires
        counts@.len() == keypoints@.len(),
        bins == 1 || bins == 2 || bins == 4 || bins == 8 || bins == 16 || bins == 32,
        step == 32int / bins as int,
    ensures
        n == occupied_cells(keypoints@, counted(counts@), bins as nat),
        n <= 1024,
{
    let ghost visible = counted(counts@);
    assert(bins * bins <= 1024) by (nonlinear_arith)
        requires
            bins <= 32,
    ;
    let total: usize = bins * bins;
    let mut taken: Vec<bool> = Vec::new();
    for cell in 0..total
        invariant
            taken@.len() == cell,
            forall|c: int| 0 <= c < cell ==> !taken@[c],
    {
        taken.push(false);
    }
    let mut n: usize = 0;
    proof {
        assert forall|c: int| 0 <= c < total implies !#[trigger] occupied(
            keypoints@,
            visible,
            bins as nat,
            0,
        )(c) by {}
        lemma_where_congruent(
            total as nat,
            occupied(keypoints@, visible, bins as nat, 0),
            |c: int| false,
        );
        lemma_none(total as nat);
    }
    for f in 0..keypoints.len()
        invariant
            counts@.len() == keypoints@.len(),
            bins == 1 || bins == 2 || bins == 4 || bins == 8 || bins == 16 || bins == 32,
            step == 32int / bins as int,
            total == bins * bins,
            total <= 1024,
            visible == counted(counts@),
            taken@.len() == total,
            forall|c: int|
                0 <= c < total ==> #[trigger] taken@[c] == occupied(
                    keypoints@,
                    visible,
                    bins as nat,
                    f as nat,
                )(c),
            n == count_where(total as nat, occupied(keypoints@, visible, bins as nat, f as nat)),
    {
        let ghost before = occupied(keypoints@, visible, bins as nat, f as nat);
        let ghost after = occupied(keypoints@, visible, bins as nat, (f + 1) as nat);
        if counts[f] > 0 {
            let col: usize = coarse(keypoints[f].cell_x, step);
            let row: usize = coarse(keypoints[f].cell_y, step);
            assert(row * bins + col < bins * bins && row * bins <= 1024) by (nonlinear_arith)
                requires
                    row < bins,
                    col < bins,
                    bins <= 32,
            ;
            let cell: usize = row * bins + col;
            assert(cell == cell_of(keypoints@[f as int], bins as nat));
            assert(visible(f as int));
            assert forall|c: int| 0 <= c < total && c != cell implies #[trigger] before(c) == after(
                c,
            ) by {
                if before(c) {
                    let g = choose|g: int|
                        0 <= g < f && #[trigger] visible(g) && cell_of(keypoints@[g], bins as nat)
                            == c;
                    assert(0 <= g < f + 1 && visible(g));
                }
                if after(c) {
                    let g = choose|g: int|
                        0 <= g < f + 1 && #[trigger] visible(g) && cell_of(
                            keypoints@[g],
                            bins as nat,
                        ) == c;
                    assert(0 <= g < f && visible(g));
                }
            }
            assert(after(cell as int));
            if !taken[cell] {
                proof {
                    lemma_count_bound(total as nat, before);
                    lemma_count_turned_on(total as nat, before, after, cell as int);
                    lemma_count_bound(total as nat, after);
                }
                taken.set(cell, true);
                n = n + 1;
            } else {
                assert(before(cell as int));
                proof {
                    lemma_where_congruent(total as nat, before, after);
                }
            }
        } else {
            proof {
                assert(!visible(f as int));
                assert forall|c: int| 0 <= c < total implies #[trigger] before(c) == after(c) by {
                    if before(c) {
                        let g = choose|g: int|
                            0 <= g < f && #[trigger] visible(g) && cell_of(
                                keypoints@[g],
                                bins as nat,
                            ) == c;
                        assert(0 <= g < f + 1 && visible(g));
                    }
                    if after(c) {
                        let g = choose|g: int|
                            0 <= g < f + 1 && #[trigger] visible(g) && cell_of(
                                keypoints@[g],
                                bins as nat,
                            ) == c;
                        assert(0 <= g < f && visible(g));
                    }
                }
                lemma_where_congruent(total as nat, before, after);
            }
        }
    }
    proof {
        lemma_count_bound(
            total as nat,
            occupied(keypoints@, visible, bins as nat, keypoints@.len()),
        );
    }
    n
}

proof fn lemma_none(n: nat)
    ensures
        count_where(n, |c: int| false) == 0,
    decreases n,
{
    if n > 0 {
        lemma_none((n - 1) as nat);
    }
}

/// Scores the features of `frame` with a positive count.
pub fn visibility_pyramid_score(frame: &ImageFrame, counts: &Vec<usize>) -> (score: usize)
    requires
        counts@.len() == frame.keypoints@.len(),
    ensures
        score == visibility_score(*frame, counted(counts@)),
{
    if frame.width == 0 || frame.height == 0 {
        return 0;
    }
    let mut score: usize = 0;
    let mut bins: usize = 1;
    let mut step: usize = 32;
    let mut level: usize = 0;
    proof {
        reveal_with_fuel(grid_size, 7);
    }
    while level < PYRAMID_LEVELS
        invariant
            counts@.len() == frame.keypoints@.len(),
            level <= PYRAMID_LEVELS,
            level < PYRAMID_LEVELS ==> bins == grid_size(level as nat) && step == 32int / bins as int,
            level == 0 ==> bins == 1,
            level == 1 ==> bins == 2,
            level == 2 ==> bins == 4,
            level == 3 ==> bins == 8,
            level == 4 ==> bins == 16,
            level == 5 ==> bins == 32,
            score == score_upto(frame.keypoints@, counted(counts@), level as nat),
            score <= level * 1024,
        decreases PYRAMID_LEVELS - level,
    {
        let occupied: usize = count_occupied(&frame.keypoints, counts, bins, step);
        score = score + occupied;
        level = level + 1;
        if level < PYRAMID_LEVELS {
            bins = bins * 2;
            step = step / 2;
        }
    }
    score
}

/// An image that sees more has a score that is at least as high.
pub proof fn law_visibility_monotone(
    frame: ImageFrame,
    visible: spec_fn(int) -> bool,
    more: spec_fn(int) -> bool,
)
    requires
        forall|f: int|
            0 <= f < frame.keypoints@.len() && #[trigger] visible(f) ==> more(f),
    ensures
        visibility_score(frame, visible) <= visibility_score(frame, more),
{
    lemma_score_monotone(frame.keypoints@, visible, more, PYRAMID_LEVELS as nat);
}

proof fn lemma_score_monotone(
    keypoints: Seq<Keypoint>,
    visible: spec_fn(int) -> bool,
    more: spec_fn(int) -> bool,
    levels: nat,
)
    requires
        forall|f: int| 0 <= f < keypoints.len() && #[trigger] visible(f) ==> more(f),
    ensures
        score_upto(keypoints, visible, levels) <= score_upto(keypoints, more, levels),
    decreases levels,
{
    if levels > 0 {
        lemma_score_monotone(keypoints, visible, more, (levels - 1) as nat);
        let bins = grid_size((levels - 1) as nat);
        let p = occupied(keypoints, visible, bins, keypoints.len());
        let q = occupied(keypoints, more, bins, keypoints.len());
        assert forall|c: int| 0 <= c < bins * bins && #[trigger] p(c) implies q(c) by {
            let f = choose|f: int|
                0 <= f < keypoints.len() && #[trigger] visible(f) && cell_of(keypoints[f], bins)
                    == c;
            assert(more(f));
        }
        lemma_count_monotone(bins * bins, p, q);
    }
}

proof fn lemma_coarse_cell(cell: u8, bins: nat)
    requires
        bins == 1 || bins == 2 || bins == 4 || bins == 8 || bins == 16 || bins == 32,
    ensures
        0 <= coarse_cell(cell, bins) < bins,
{
    let fine: int = if cell < 32 {
        cell as int
    } else {
        31
    };
    let step = 32int / bins as int;
    assert(bins * step == 32);
    assert(0 <= fine / step < bins) by (nonlinear_arith)
        requires
            0 <= fine < 32,
            bins * step == 32,
            step > 0,
    ;
}

/// Each cell of a feature lies on its grid.
proof fn lemma_cell_on_grid(keypoint: Keypoint, bins: nat)
    requires
        bins == 1 || bins == 2 || bins == 4 || bins == 8 || bins == 16 || bins == 32,
    ensures
        0 <= cell_of(keypoint, bins) < bins * bins,
{
    let x = coarse_cell(keypoint.cell_x, bins);
    let y = coarse_cell(keypoint.cell_y, bins);
    lemma_coarse_cell(keypoint.cell_x, bins);
    lemma_coarse_cell(keypoint.cell_y, bins);
    assert(0 <= y * bins + x < bins * bins) by (nonlinear_arith)
        requires
            0 <= x < bins,
            0 <= y < bins,
    ;
}

/// A grid has an occupied cell just if a feature is visible, and no more of them
/// than cells.
proof fn lemma_occupied_range(keypoints: Seq<Keypoint>, visible: spec_fn(int) -> bool, bins: nat)
    requires
        bins == 1 || bins == 2 || bins == 4 || bins == 8 || bins == 16 || bins == 32,
    ensures
        occupied_cells(keypoints, visible, bins) <= bins * bins,
        occupied_cells(keypoints, visible, bins) > 0 <==> exists|f: int|
            0 <= f < keypoints.len() && #[trigger] visible(f),
{
    let p = occupied(keypoints, visible, bins, keypoints.len());
    lemma_count_bound(bins * bins, p);
    lemma_count_positive(bins * bins, p);
    if exists|f: int| 0 <= f < keypoints.len() && #[trigger] visible(f) {
        let f = choose|f: int| 0 <= f < keypoints.len() && #[trigger] visible(f);
        lemma_cell_on_grid(keypoints[f], bins);
        assert(p(cell_of(keypoints[f], bins)));
    }
}

/// Selects no more cells than visible features.
proof fn lemma_occupied_at_most(
    keypoints: Seq<Keypoint>,
    visible: spec_fn(int) -> bool,
    bins: nat,
    n: nat,
)
    requires
        bins == 1 || bins == 2 || bins == 4 || bins == 8 || bins == 16 || bins == 32,
        n <= keypoints.len(),
    ensures
        count_where(bins * bins, occupied(keypoints, visible, bins, n)) <= count_where(n, visible),
    decreases n,
{
    let after = occupied(keypoints, visible, bins, n);
    if n == 0 {
        lemma_where_congruent(bins * bins, after, |c: int| false);
        lemma_none(bins * bins);
    } else {
        let m = (n - 1) as nat;
        let before = occupied(keypoints, visible, bins, m);
        let cell = cell_of(keypoints[m as int], bins);
        lemma_occupied_at_most(keypoints, visible, bins, m);
        lemma_cell_on_grid(keypoints[m as int], bins);
        assert forall|c: int| c != cell || !visible(m as int) implies #[trigger] before(c) == after(
            c,
        ) by {
            if before(c) {
                let f = choose|f: int|
                    0 <= f < m && #[trigger] visible(f) && cell_of(keypoints[f], bins) == c;
                assert(0 <= f < n && visible(f));
            }
            if after(c) {
                let f = choose|f: int|
                    0 <= f < n && #[trigger] visible(f) && cell_of(keypoints[f], bins) == c;
                assert(0 <= f < m && visible(f));
            }
        }
        if visible(m as int) && !before(cell) {
            assert(after(cell));
            lemma_count_turned_on(bins * bins, before, after, cell);
        } else {
            if before(cell) {
                let f = choose|f: int|
                    0 <= f < m && #[trigger] visible(f) && cell_of(keypoints[f], bins) == cell;
                assert(0 <= f < n && visible(f));
            }
            lemma_where_congruent(bins * bins, before, after);
        }
    }
}

/// The score of an image is zero just if the image has no size or none of its
/// features is visible. Otherwise each grid counts once at least. The score never
/// exceeds the number of cells of all grids, nor one and five times the number
/// of visible features.
pub proof fn law_visibility_range(frame: ImageFrame, visible: spec_fn(int) -> bool)
    ensures
        visibility_score(frame, visible) <= 1365,
        visibility_score(frame, visible) == 0 <==> frame.width == 0 || frame.height == 0
            || count_where(frame.keypoints@.len(), visible) == 0,
        visibility_score(frame, visible) > 0 ==> visibility_score(frame, visible)
            >= PYRAMID_LEVELS,
        visibility_score(frame, visible) <= 1 + 5 * count_where(frame.keypoints@.len(), visible),
{
    reveal_with_fuel(grid_size, 7);
    reveal_with_fuel(score_upto, 7);
    let keypoints = frame.keypoints@;
    lemma_count_positive(keypoints.len(), visible);
    lemma_occupied_range(keypoints, visible, 1);
    lemma_occupied_range(keypoints, visible, 2);
    lemma_occupied_range(keypoints, visible, 4);
    lemma_occupied_range(keypoints, visible, 8);
    lemma_occupied_range(keypoints, visible, 16);
    lemma_occupied_range(keypoints, visible, 32);
    lemma_occupied_at_most(keypoints, visible, 2, keypoints.len());
    lemma_occupied_at_most(keypoints, visible, 4, keypoints.len());
    lemma_occupied_at_most(keypoints, visible, 8, keypoints.len());
    lemma_occupied_at_most(keypoints, visible, 16, keypoints.len());
    lemma_occupied_at_most(keypoints, visible, 32, keypoints.len());
}

/// The score depends on visibility only at the features of the image.
pub proof fn lemma_visibility_congruent(
    frame: ImageFrame,
    p: spec_fn(int) -> bool,
    q: spec_fn(int) -> bool,
)
    requires
        forall|f: int| 0 <= f < frame.keypoints@.len() ==> #[trigger] p(f) == q(f),
    ensures
        visibility_score(frame, p) == visibility_score(frame, q),
{
    assert forall|f: int| 0 <= f < frame.keypoints@.len() && #[trigger] q(f) implies p(f) by {
        assert(p(f) == q(f));
    }
    law_visibility_monotone(frame, p, q);
    law_visibility_monotone(frame, q, p);
}

} // verus!
