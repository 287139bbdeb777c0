//! A verified pair seen from its other image.

use crate::scalar::{Real32, Real64};
use crate::types::{Match, PairGeometry, RelativeGeometry};
use vstd::prelude::*;

verus! {

/// What a pair geometry holds.
#[verifier::ext_equal]
pub struct PairView {
    pub left: usize,
    pub right: usize,
    pub two_view_config: i32,
    pub f_matrix: Option<Seq<Real64>>,
    pub e_matrix: Option<Seq<Real64>>,
    pub forward: RelativeGeometry,
    pub backward: RelativeGeometry,
    pub matches: Seq<Match>,
    pub inlier_matches: Seq<Match>,
    pub inliers: usize,
    pub triangulated: usize,
    pub mean_reprojection_error_px: Real32,
    pub rotation_deg: Real32,
    pub median_triangulation_angle_deg: Real32,
    pub pose_graph_only: bool,
}

pub open spec fn matrix_view(matrix: Option<[Real64; 9]>) -> Option<Seq<Real64>> {
    match matrix {
        Some(m) => Some(m@),
        None => None,
    }
}

impl View for PairGeometry {
    type V = PairView;

    open spec fn view(&self) -> PairView {
        PairView {
            left: self.left,
            right: self.right,
            two_view_config: self.two_view_config,
            f_matrix: matrix_view(self.f_matrix),
            e_matrix: matrix_view(self.e_matrix),
            forward: self.forward,
            backward: self.backward,
            matches: self.matches@,
            inlier_matches: self.inlier_matches@,
            inliers: self.inliers,
            triangulated: self.triangulated,
            mean_reprojection_error_px: self.mean_reprojection_error_px,
            rotation_deg: self.rotation_deg,
            median_triangulation_angle_deg: self.median_triangulation_angle_deg,
            pose_graph_only: self.pose_graph_only,
        }
    }
}

pub open spec fn swapped(m: Match) -> Match {
    Match { query_idx: m.train_idx, train_idx: m.query_idx, distance: m.distance }
}

pub open spec fn swapped_matches(matches: Seq<Match>) -> Seq<Match> {
    Seq::new(matches.len(), |i: int| swapped(matches[i]))
}

/// The transpose of a matrix stored row by row.
pub open spec fn transposed(m: Seq<Real64>) -> Seq<Real64> {
    Seq::new(9, |i: int| m[(i % 3) * 3 + i / 3])
}

pub open spec fn transposed_matrix(m: Option<Seq<Real64>>) -> Option<Seq<Real64>> {
    match m {
        Some(m) => Some(transposed(m)),
        None => None,
    }
}

/// The same pair with left and right exchanged.
pub open spec fn inverted(pair: PairView) -> PairView {
    PairView {
        left: pair.right,
        right: pair.left,
        f_matrix: transposed_matrix(pair.f_matrix),
        e_matrix: transposed_matrix(pair.e_matrix),
        forward: pair.backward,
        backward: pair.forward,
        matches: swapped_matches(pair.matches),
        inlier_matches: swapped_matches(pair.inlier_matches),
        ..pair
    }
}

pub fn transpose3(m: [Real64; 9]) -> (t: [Real64; 9])
    ensures
        t@ == transposed(m@),
{
    let t = [m[0], m[3], m[6], m[1], m[4], m[7], m[2], m[5], m[8]];
    assert(t@ =~= transposed(m@));
    t
}

fn transpose_some(matrix: &Option<[Real64; 9]>) -> (t: Option<[Real64; 9]>)
    ensures
        matrix_view(t) == transposed_matrix(matrix_view(*matrix)),
{
    match matrix {
        Some(m) => Some(transpose3(*m)),
        None => None,
    }
}

fn copy_matches(matches: &Vec<Match>) -> (out: Vec<Match>)
    ensures
        out@ == matches@,
{
    let mut out: Vec<Match> = Vec::new();
    for i in 0..matches.len()
        invariant
            out@ == matches@.take(i as int),
    {
        out.push(matches[i]);
    }
    assert(out@ =~= matches@);
    out
}

/// The matches with query and train exchanged.
pub fn swap_matches(matches: &Vec<Match>) -> (out: Vec<Match>)
    ensures
        out@ == swapped_matches(matches@),
{
    let mut out: Vec<Match> = Vec::new();
    for i in 0..matches.len()
        invariant
            out@ == swapped_matches(matches@).take(i as int),
    {
        let m = matches[i];
        out.push(Match { query_idx: m.train_idx, train_idx: m.query_idx, distance: m.distance });
    }
    assert(out@ =~= swapped_matches(matches@));
    out
}

pub fn copy_pair_geometry(pair: &PairGeometry) -> (out: PairGeometry)
    ensures
        out@ == pair@,
{
    PairGeometry {
        left: pair.left,
        right: pair.right,
        two_view_config: pair.two_view_config,
        f_matrix: pair.f_matrix,
        e_matrix: pair.e_matrix,
        forward: pair.forward,
        backward: pair.backward,
        matches: copy_matches(&pair.matches),
        inlier_matches: copy_matches(&pair.inlier_matches),
        inliers: pair.inliers,
        triangulated: pair.triangulated,
        mean_reprojection_error_px: pair.mean_reprojection_error_px,
        rotation_deg: pair.rotation_deg,
        median_triangulation_angle_deg: pair.median_triangulation_angle_deg,
        pose_graph_only: pair.pose_graph_only,
    }
}

/// The pair seen from its right image.
pub fn invert_pair_geometry(pair: &PairGeometry) -> (out: PairGeometry)
    ensures
        out@ == inverted(pair@),
{
    PairGeometry {
        left: pair.right,
        right: pair.left,
        two_view_config: pair.two_view_config,
        f_matrix: transpose_some(&pair.f_matrix),
        e_matrix: transpose_some(&pair.e_matrix),
        forward: pair.backward,
        backward: pair.forward,
        matches: swap_matches(&pair.matches),
        inlier_matches: swap_matches(&pair.inlier_matches),
        inliers: pair.inliers,
        triangulated: pair.triangulated,
        mean_reprojection_error_px: pair.mean_reprojection_error_px,
        rotation_deg: pair.rotation_deg,
        median_triangulation_angle_deg: pair.median_triangulation_angle_deg,
        pose_graph_only: pair.pose_graph_only,
    }
}

/// Inverting a pair twice gives the pair back.
pub proof fn law_inversion_involutive(pair: PairView)
    requires
        pair.f_matrix matches Some(m) ==> m.len() == 9,
        pair.e_matrix matches Some(m) ==> m.len() == 9,
    ensures
        inverted(inverted(pair)) == pair,
{
    let twice = inverted(inverted(pair));
    assert(twice.matches =~= pair.matches);
    assert(twice.inlier_matches =~= pair.inlier_matches);
    if let Some(m) = pair.f_matrix {
        assert(transposed(transposed(m)) =~= m);
    }
    if let Some(m) = pair.e_matrix {
        assert(transposed(transposed(m)) =~= m);
    }
}

} // verus!
