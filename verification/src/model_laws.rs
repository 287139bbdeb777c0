//! What a model says of its images, said of its tables themselves.

use crate::config::{ascii_lower, spells};
use crate::indices::lemma_indices_where;
use crate::pair_ids::spec_pair_id;
use crate::pair_inversion::{inverted, transposed, PairView};
use crate::scalar::Real64;
use crate::seeding::{has_seed, seed_index, seed_of, seeded_row, taken_row, SeedView};
use crate::types::{in_frame, ImageFrame, ReconstructionView};
use vstd::prelude::*;

verus! {

/// An image is registered just if it has a pose. A feature observes what stands in
/// its slot, and nothing without one.
pub proof fn law_tables(r: ReconstructionView, image: int, feature: int)
    ensures
        0 <= image < r.poses.len() ==> (r.registered(image) <==> r.poses[image] is Some),
        image < 0 || image >= r.poses.len() ==> !r.registered(image),
        0 <= image < r.observations.len() && 0 <= feature < r.observations[image].len()
            ==> r.observed(image, feature) == r.observations[image][feature],
        image < 0 || image >= r.observations.len() || feature < 0 || feature
            >= r.observations[image].len() ==> r.observed(image, feature) is None,
{
}

/// Identifiers come from the tables. An image or a point without an entry counts
/// from one, a camera without one has the first identifier.
pub proof fn law_identifiers(r: ReconstructionView, image: int, point: int)
    requires
        0 <= image < u32::MAX,
        0 <= point < u64::MAX,
    ensures
        image < r.image_ids.len() ==> r.image_id_of(image) == r.image_ids[image],
        image >= r.image_ids.len() ==> r.image_id_of(image) == image + 1,
        point < r.point_ids.len() ==> r.point_id_of(point) == r.point_ids[point],
        point >= r.point_ids.len() ==> r.point_id_of(point) == point + 1,
        image < r.image_camera_indices.len() && r.image_camera_indices[image]
            < r.camera_ids.len() ==> r.camera_id_of(image)
            == r.camera_ids[r.image_camera_indices[image] as int],
        image >= r.image_camera_indices.len() && r.camera_ids.len() > 0 ==> r.camera_id_of(image)
            == r.camera_ids[0],
        r.camera_ids.len() == 0 ==> r.camera_id_of(image) == 1,
{
}

/// The camera of an image is the one its entry names, the first one without an
/// entry, and the common one if there is none at that index.
pub proof fn law_cameras(r: ReconstructionView, image: int)
    requires
        0 <= image,
    ensures
        image < r.image_camera_indices.len() && r.image_camera_indices[image] < r.cameras.len()
            ==> r.camera_of(image) == r.cameras[r.image_camera_indices[image] as int],
        image < r.image_camera_indices.len() && r.image_camera_indices[image] >= r.cameras.len()
            ==> r.camera_of(image) == r.camera,
        image >= r.image_camera_indices.len() && r.cameras.len() > 0 ==> r.camera_of(image)
            == r.cameras[0],
        r.cameras.len() == 0 ==> r.camera_of(image) == r.camera,
{
}

/// The images of a frame are those whose entry names it, in order. An image
/// without a frame is a unit of its own.
pub proof fn law_frames(r: ReconstructionView, image: usize, frame: usize)
    requires
        r.image_frame_indices.len() <= usize::MAX,
    ensures
        r.images_of_frame(frame).contains(image) <==> image < r.image_frame_indices.len()
            && r.image_frame_indices[image as int] == Some(frame),
        forall|a: int, b: int|
            0 <= a < b < r.images_of_frame(frame).len() ==> r.images_of_frame(frame)[a]
                < r.images_of_frame(frame)[b],
        image >= r.image_frame_indices.len() || r.image_frame_indices[image as int] is None
            ==> r.unit_of(image).len() == 1 && r.unit_of(image)[0] == image,
        image < r.image_frame_indices.len() && r.image_frame_indices[image as int] == Some(frame)
            ==> r.unit_of(image) == r.images_of_frame(frame),
{
    let q = in_frame(r.image_frame_indices, frame);
    lemma_indices_where(r.image_frame_indices.len(), q);
    if image < r.image_frame_indices.len() && q(image as int) {
        assert(r.images_of_frame(frame).contains(image));
    }
}

/// The identifier of a pair is the lower identifier times the largest number of
/// images, plus the higher one; there is none beyond that number.
pub proof fn law_pair_identifier(low: u32, high: u32)
    requires
        low <= high,
    ensures
        high < 2147483647 ==> spec_pair_id(low, high) == Some((low * 2147483647 + high) as u64)
            && spec_pair_id(high, low) == spec_pair_id(low, high),
        high >= 2147483647 ==> spec_pair_id(low, high) is None && spec_pair_id(high, low) is None,
{
}

/// The transpose of a matrix has its columns as rows.
pub proof fn law_transposed(m: Seq<Real64>, row: int, column: int)
    requires
        m.len() == 9,
        0 <= row < 3,
        0 <= column < 3,
    ensures
        transposed(m).len() == 9,
        transposed(m)[3 * row + column] == m[3 * column + row],
{
    let i = 3 * row + column;
    assert(i % 3 == column && i / 3 == row);
}

/// Seen from its other image a pair has its images, its geometries and the
/// features of each match exchanged, and its matrices transposed. Its counts and
/// errors stay.
pub proof fn law_turned_pair(pair: PairView, i: int)
    requires
        0 <= i < pair.inlier_matches.len(),
    ensures
        ({
            let turned = inverted(pair);
            &&& turned.left == pair.right && turned.right == pair.left
            &&& turned.forward == pair.backward && turned.backward == pair.forward
            &&& turned.inlier_matches.len() == pair.inlier_matches.len()
            &&& turned.matches.len() == pair.matches.len()
            &&& turned.inlier_matches[i].query_idx == pair.inlier_matches[i].train_idx
            &&& turned.inlier_matches[i].train_idx == pair.inlier_matches[i].query_idx
            &&& turned.inlier_matches[i].distance == pair.inlier_matches[i].distance
            &&& pair.f_matrix is None ==> turned.f_matrix is None
            &&& pair.e_matrix is None ==> turned.e_matrix is None
            &&& pair.f_matrix matches Some(m) ==> m.len() == 9 ==> {
                &&& turned.f_matrix is Some
                &&& turned.f_matrix->0[1] == m[3] && turned.f_matrix->0[3] == m[1]
                &&& turned.f_matrix->0[5] == m[7] && turned.f_matrix->0[2] == m[6]
            }
            &&& pair.e_matrix matches Some(m) ==> m.len() == 9 ==> {
                &&& turned.e_matrix is Some
                &&& turned.e_matrix->0[1] == m[3] && turned.e_matrix->0[3] == m[1]
                &&& turned.e_matrix->0[5] == m[7] && turned.e_matrix->0[2] == m[6]
            }
            &&& turned.inliers == pair.inliers && turned.triangulated == pair.triangulated
            &&& turned.two_view_config == pair.two_view_config
            &&& turned.mean_reprojection_error_px == pair.mean_reprojection_error_px
            &&& turned.median_triangulation_angle_deg == pair.median_triangulation_angle_deg
            &&& turned.rotation_deg == pair.rotation_deg
            &&& turned.pose_graph_only == pair.pose_graph_only
        }),
{
    assert(pair.f_matrix matches Some(m) ==> m.len() == 9 ==> inverted(pair).f_matrix
        == Some(transposed(m)));
    assert(pair.e_matrix matches Some(m) ==> m.len() == 9 ==> inverted(pair).e_matrix
        == Some(transposed(m)));
}

/// A file takes over the slots of its reference image, each with the place of its
/// point in the seed. Put into a model, a row is as wide as the image has
/// features.
pub proof fn law_seeded_rows(
    r: ReconstructionView,
    of: Seq<Option<usize>>,
    i: int,
    image: usize,
    f: int,
    seed: SeedView,
    frames: Seq<ImageFrame>,
)
    requires
        0 <= i < of.len(),
        of[i] == Some(image),
        image < r.observations.len(),
        0 <= f < r.observations[image as int].len(),
    ensures
        taken_row(r, of, i).len() == r.observations[image as int].len(),
        taken_row(r, of, i)[f] == seed_index(r, of, r.observations[image as int][f]),
        i < seed.observations.len() && i < frames.len() ==> {
            &&& seeded_row(r, seed, frames, i).len() == frames[i].keypoints@.len()
            &&& f < frames[i].keypoints@.len() && f < seed.observations[i].len() ==> seeded_row(
                r,
                seed,
                frames,
                i,
            )[f] == seed.observations[i][f]
            &&& f < frames[i].keypoints@.len() && f >= seed.observations[i].len() ==> seeded_row(
                r,
                seed,
                frames,
                i,
            )[f] is None
        },
        i >= seed.observations.len() ==> seeded_row(r, seed, frames, i) == r.observations[i],
{
}

/// There is something to start from just if a file stands for a reference image,
/// and a pose or a point carries over.
pub proof fn law_there_is_a_seed(r: ReconstructionView, of: Seq<Option<usize>>, i: int)
    requires
        0 <= i < of.len(),
    ensures
        (forall|j: int| 0 <= j < of.len() ==> (#[trigger] of[j]) is None) ==> !has_seed(r, of),
        of[i] is Some && seed_of(r, of).poses[i] is Some ==> has_seed(r, of),
        of[i] is Some && seed_of(r, of).points.len() > 0 ==> has_seed(r, of),
        seed_of(r, of).points.len() == 0 && (forall|j: int|
            0 <= j < of.len() ==> (#[trigger] seed_of(r, of).poses[j]) is None) ==> !has_seed(
            r,
            of,
        ),
{
}

/// The case of letters does not matter to what a text spells, and nothing else of
/// it may differ.
pub proof fn law_spelling(text: Seq<char>, word: Seq<char>)
    requires
        forall|i: int| 0 <= i < word.len() ==> 'a' <= #[trigger] word[i] <= 'z',
    ensures
        spells(word, word),
        text.len() != word.len() ==> !spells(text, word),
        spells(text, word) ==> forall|i: int|
            0 <= i < text.len() ==> #[trigger] text[i] == word[i] || text[i] as int + 32
                == word[i] as int,
{
    assert forall|i: int| 0 <= i < word.len() implies ascii_lower(#[trigger] word[i])
        == word[i] by {}
    if spells(text, word) {
        assert forall|i: int| 0 <= i < text.len() implies #[trigger] text[i] == word[i]
            || text[i] as int + 32 == word[i] as int by {
            assert(ascii_lower(text[i]) == word[i]);
        }
    }
}

} // verus!
