//! What a run writes to the database.

use crate::camera_setup::ReferenceCameraSetup;
use crate::pair_graph::{id_of_name, image_id_of_name, NamedImage};
use crate::scalar::Real64;
use crate::types::{ImageFrame, Match, PairGeometry};
use vstd::prelude::*;

verus! {

/// Two matched features.
#[derive(Debug, Clone, Copy, PartialEq, Eq, Structural)]
pub struct FeatureMatch {
    pub point2d_idx1: u32,
    pub point2d_idx2: u32,
}

/// A verified pair as it is stored.
#[derive(Debug, Clone)]
pub struct StoredGeometry {
    pub config: i32,
    pub inlier_matches: Vec<FeatureMatch>,
    pub f_matrix: Option<[Real64; 9]>,
    pub e_matrix: Option<[Real64; 9]>,
    pub h_matrix: Option<[Real64; 9]>,
    pub qvec: Option<[Real64; 4]>,
    pub tvec: Option<[Real64; 3]>,
}

/// Matches by their features alone.
pub open spec fn feature_matches(matches: Seq<Match>) -> Seq<FeatureMatch> {
    matches.map_values(
        |m: Match| FeatureMatch { point2d_idx1: m.query_idx, point2d_idx2: m.train_idx },
    )
}

pub fn matches_for_database(matches: &Vec<Match>) -> (out: Vec<FeatureMatch>)
    ensures
        out@ == feature_matches(matches@),
{
    let mut out: Vec<FeatureMatch> = Vec::new();
    for i in 0..matches.len()
        invariant
            out@ == feature_matches(matches@.take(i as int)),
    {
        out.push(
            FeatureMatch {
                point2d_idx1: matches[i].query_idx,
                point2d_idx2: matches[i].train_idx,
            },
        );
        assert(out@ =~= feature_matches(matches@.take(i + 1)));
    }
    assert(matches@.take(matches@.len() as int) =~= matches@);
    out
}

/// A verified pair as it is stored, from its left to its right image.
pub fn pair_geometry_to_colmap_two_view_geometry(pair: &PairGeometry) -> (stored: StoredGeometry)
    ensures
        stored.config == pair.two_view_config,
        stored.inlier_matches@ == feature_matches(pair.inlier_matches@),
        stored.f_matrix == pair.f_matrix,
        stored.e_matrix == pair.e_matrix,
        stored.h_matrix == pair.forward.h_matrix,
        stored.qvec == pair.forward.qvec,
        stored.tvec == pair.forward.tvec,
{
    StoredGeometry {
        config: pair.two_view_config,
        inlier_matches: matches_for_database(&pair.inlier_matches),
        f_matrix: pair.f_matrix,
        e_matrix: pair.e_matrix,
        h_matrix: pair.forward.h_matrix,
        qvec: pair.forward.qvec,
        tvec: pair.forward.tvec,
    }
}

/// A pair to store, under the identifiers of its images.
#[derive(Debug, Clone, Copy, PartialEq, Eq, Structural)]
pub struct GeometryRecord {
    pub pair: usize,
    pub left_image_id: u32,
    pub right_image_id: u32,
}

/// The record of a pair whose images the database knows.
pub open spec fn geometry_record(
    frames: Seq<ImageFrame>,
    images: Seq<NamedImage>,
    pairs: Seq<PairGeometry>,
    k: int,
) -> Option<GeometryRecord> {
    let left = pairs[k].left;
    let right = pairs[k].right;
    if left >= frames.len() || right >= frames.len() {
        None
    } else {
        match (
            image_id_of_name(images, frames[left as int].name@),
            image_id_of_name(images, frames[right as int].name@),
        ) {
            (Some(left_image_id), Some(right_image_id)) => Some(
                GeometryRecord { pair: k as usize, left_image_id, right_image_id },
            ),
            _ => None,
        }
    }
}

/// The records of the first `k` pairs.
pub open spec fn geometry_records_upto(
    frames: Seq<ImageFrame>,
    images: Seq<NamedImage>,
    pairs: Seq<PairGeometry>,
    k: nat,
) -> Seq<GeometryRecord>
    decreases k,
{
    if k == 0 {
        Seq::empty()
    } else {
        let rest = geometry_records_upto(frames, images, pairs, (k - 1) as nat);
        match geometry_record(frames, images, pairs, k - 1) {
            Some(record) => rest.push(record),
            None => rest,
        }
    }
}

/// The verified pairs to store: those whose images the database knows by name.
pub fn geometry_records(
    frames: &[ImageFrame],
    images: &Vec<NamedImage>,
    pairs: &[PairGeometry],
) -> (records: Vec<GeometryRecord>)
    ensures
        records@ == geometry_records_upto(frames@, images@, pairs@, pairs@.len()),
{
    let mut records: Vec<GeometryRecord> = Vec::new();
    for k in 0..pairs.len()
        invariant
            records@ == geometry_records_upto(frames@, images@, pairs@, k as nat),
    {
        let left: usize = pairs[k].left;
        let right: usize = pairs[k].right;
        if left < frames.len() && right < frames.len() {
            let a: Option<u32> = id_of_name(images, &frames[left].name);
            let b: Option<u32> = id_of_name(images, &frames[right].name);
            if let (Some(left_image_id), Some(right_image_id)) = (a, b) {
                records.push(GeometryRecord { pair: k, left_image_id, right_image_id });
            }
        }
    }
    records
}

#[derive(Debug, Clone, Copy, PartialEq, Eq, Structural)]
pub struct CameraRecord {
    pub camera: usize,
    pub camera_id: u32,
    pub has_prior_focal_length: bool,
}

#[derive(Debug, Clone, Copy, PartialEq, Eq, Structural)]
pub struct ImageRecord {
    pub frame: usize,
    pub image_id: u32,
    pub camera_id: u32,
}

/// A matched pair to store. Matches are stored only if there are any.
#[derive(Debug, Clone, Copy, PartialEq, Eq, Structural)]
pub struct MatchRecord {
    pub pair: usize,
    pub left_image_id: u32,
    pub right_image_id: u32,
    pub has_matches: bool,
}

/// All that is stored after images were matched, and the number of rows.
#[derive(Debug)]
pub struct LocalMatchingRecords {
    pub cameras: Vec<CameraRecord>,
    pub images: Vec<ImageRecord>,
    pub pairs: Vec<MatchRecord>,
    pub written: usize,
}

pub open spec fn camera_record(setup: ReferenceCameraSetup, c: int) -> CameraRecord {
    CameraRecord {
        camera: c as usize,
        camera_id: setup.camera_ids@[c],
        has_prior_focal_length: if c < setup.camera_has_prior_focal_length@.len() {
            setup.camera_has_prior_focal_length@[c]
        } else {
            true
        },
    }
}

pub open spec fn image_record(setup: ReferenceCameraSetup, f: int) -> ImageRecord {
    ImageRecord {
        frame: f as usize,
        image_id: setup.image_ids@[f],
        camera_id: setup.camera_ids@[setup.image_camera_indices@[f] as int],
    }
}

pub open spec fn match_record(
    setup: ReferenceCameraSetup,
    pairs: Seq<PairGeometry>,
    k: int,
) -> MatchRecord {
    MatchRecord {
        pair: k as usize,
        left_image_id: setup.image_ids@[pairs[k].left as int],
        right_image_id: setup.image_ids@[pairs[k].right as int],
        has_matches: pairs[k].matches@.len() > 0,
    }
}

/// Rows for the first `k` pairs: the geometry, and the matches if there are any.
pub open spec fn pair_rows(pairs: Seq<PairGeometry>, k: nat) -> nat
    decreases k,
{
    if k == 0 {
        0
    } else {
        pair_rows(pairs, (k - 1) as nat) + if pairs[k - 1].matches@.len() > 0 {
            2nat
        } else {
            1
        }
    }
}

/// Whether a setup covers images and pairs.
pub open spec fn covers(
    setup: ReferenceCameraSetup,
    num_frames: nat,
    pairs: Seq<PairGeometry>,
) -> bool {
    &&& setup.cameras@.len() <= setup.camera_ids@.len()
    &&& num_frames <= setup.image_ids@.len()
    &&& num_frames <= setup.image_camera_indices@.len()
    &&& forall|f: int|
        0 <= f < num_frames ==> #[trigger] setup.image_camera_indices@[f]
            < setup.camera_ids@.len()
    &&& forall|k: int|
        0 <= k < pairs.len() ==> (#[trigger] pairs[k]).left < setup.image_ids@.len()
            && pairs[k].right < setup.image_ids@.len()
}

/// The records of all cameras, images and pairs. An image takes three rows: for
/// itself, its features and their descriptors.
pub fn local_matching_records(
    num_frames: usize,
    setup: &ReferenceCameraSetup,
    pairs: &[PairGeometry],
) -> (records: LocalMatchingRecords)
    requires
        covers(*setup, num_frames as nat, pairs@),
        setup.cameras@.len() + 3 * num_frames + 2 * pairs@.len() <= usize::MAX,
    ensures
        records.cameras@ == Seq::new(setup.cameras@.len(), |c: int| camera_record(*setup, c)),
        records.images@ == Seq::new(num_frames as nat, |f: int| image_record(*setup, f)),
        records.pairs@ == Seq::new(pairs@.len(), |k: int| match_record(*setup, pairs@, k)),
        records.written == setup.cameras@.len() + 3 * num_frames + pair_rows(
            pairs@,
            pairs@.len(),
        ),
{
    let mut cameras: Vec<CameraRecord> = Vec::new();
    for c in 0..setup.cameras.len()
        invariant
            setup.cameras@.len() <= setup.camera_ids@.len(),
            cameras@ == Seq::new(c as nat, |c: int| camera_record(*setup, c)),
    {
        cameras.push(
            CameraRecord {
                camera: c,
                camera_id: setup.camera_ids[c],
                has_prior_focal_length: if c < setup.camera_has_prior_focal_length.len() {
                    setup.camera_has_prior_focal_length[c]
                } else {
                    true
                },
            },
        );
        assert(cameras@ =~= Seq::new((c + 1) as nat, |c: int| camera_record(*setup, c)));
    }
    let mut images: Vec<ImageRecord> = Vec::new();
    for f in 0..num_frames
        invariant
            covers(*setup, num_frames as nat, pairs@),
            images@ == Seq::new(f as nat, |f: int| image_record(*setup, f)),
    {
        let camera: usize = setup.image_camera_indices[f];
        assert(setup.image_camera_indices@[f as int] < setup.camera_ids@.len());
        images.push(
            ImageRecord {
                frame: f,
                image_id: setup.image_ids[f],
                camera_id: setup.camera_ids[camera],
            },
        );
        assert(images@ =~= Seq::new((f + 1) as nat, |f: int| image_record(*setup, f)));
    }
    let mut written: usize = setup.cameras.len() + 3 * num_frames;
    let mut records: Vec<MatchRecord> = Vec::new();
    for k in 0..pairs.len()
        invariant
            covers(*setup, num_frames as nat, pairs@),
            setup.cameras@.len() + 3 * num_frames + 2 * pairs@.len() <= usize::MAX,
            records@ == Seq::new(k as nat, |k: int| match_record(*setup, pairs@, k)),
            written == setup.cameras@.len() + 3 * num_frames + pair_rows(pairs@, k as nat),
            pair_rows(pairs@, k as nat) <= 2 * k,
    {
        let left: usize = pairs[k].left;
        let right: usize = pairs[k].right;
        assert(pairs@[k as int].left < setup.image_ids@.len());
        let has_matches: bool = pairs[k].matches.len() > 0;
        records.push(
            MatchRecord {
                pair: k,
                left_image_id: setup.image_ids[left],
                right_image_id: setup.image_ids[right],
                has_matches,
            },
        );
        written = written + if has_matches {
            2
        } else {
            1
        };
        assert(records@ =~= Seq::new((k + 1) as nat, |k: int| match_record(*setup, pairs@, k)));
    }
    LocalMatchingRecords { cameras, images, pairs: records, written }
}

} // verus!
