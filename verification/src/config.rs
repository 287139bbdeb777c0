//! Settings of a reconstruction run.

use crate::scalar::{Real32, Real64};
use vstd::prelude::*;
use vstd::string::StringExecFns;
use vstd::string::StrSliceExecFns;

verus! {

#[derive(Debug, Clone, Copy, PartialEq, Eq, Structural)]
pub enum FeatureType {
    Orb,
    Sift,
}

/// The name of no known feature type.
#[derive(Debug, Clone, Copy, PartialEq, Eq, Structural)]
pub struct UnsupportedFeatureType;

impl UnsupportedFeatureType {
    pub open spec fn text(value: Seq<char>) -> Seq<char> {
        "unsupported feature type '"@ + value + "', expected orb or sift"@
    }

    /// What to say of a name that stands for no kind of feature.
    pub fn message(&self, value: &str) -> (message: String)
        ensures
            message@ == UnsupportedFeatureType::text(value@),
    {
        let mut message = String::from_str("unsupported feature type '");
        message.append(value);
        message.append("', expected orb or sift");
        message
    }
}

/// The lower case form of an ASCII letter; other characters stay.
pub open spec fn ascii_lower(c: char) -> char {
    if 'A' <= c && c <= 'Z' {
        ((c as u8) + 32) as u8 as char
    } else {
        c
    }
}

/// Whether a text is a word, up to the case of ASCII letters.
pub open spec fn spells(text: Seq<char>, word: Seq<char>) -> bool {
    &&& text.len() == word.len()
    &&& forall|i: int| 0 <= i < text.len() ==> ascii_lower(#[trigger] text[i]) == word[i]
}

fn lower(c: char) -> (l: char)
    ensures
        l == ascii_lower(c),
{
    if 'A' <= c && c <= 'Z' {
        (c as u8 + 32) as char
    } else {
        c
    }
}

pub(crate) fn is_spelling(text: &str, word: &str) -> (b: bool)
    ensures
        b == spells(text@, word@),
{
    let n: usize = text.unicode_len();
    if word.unicode_len() != n {
        return false;
    }
    for i in 0..n
        invariant
            n == text@.len(),
            n == word@.len(),
            forall|j: int| 0 <= j < i ==> ascii_lower(#[trigger] text@[j]) == word@[j],
    {
        if lower(text.get_char(i)) != word.get_char(i) {
            assert(ascii_lower(text@[i as int]) != word@[i as int]);
            return false;
        }
    }
    true
}

impl FeatureType {
    /// Reads the name of a feature type; case does not matter.
    pub fn parse(value: &str) -> (feature: Result<FeatureType, UnsupportedFeatureType>)
        ensures
            feature == Ok::<FeatureType, UnsupportedFeatureType>(FeatureType::Orb) <==> spells(
                value@,
                "orb"@,
            ),
            feature == Ok::<FeatureType, UnsupportedFeatureType>(FeatureType::Sift) <==> spells(
                value@,
                "sift"@,
            ),
            feature is Err <==> !spells(value@, "orb"@) && !spells(value@, "sift"@),
    {
        proof {
            reveal_strlit("orb");
            reveal_strlit("sift");
        }
        if is_spelling(value, "orb") {
            Ok(FeatureType::Orb)
        } else if is_spelling(value, "sift") {
            Ok(FeatureType::Sift)
        } else {
            Err(UnsupportedFeatureType)
        }
    }
}

#[derive(Debug, Clone, Copy, PartialEq, Eq, Structural)]
pub enum ImageSelectionMethod {
    MaxVisiblePointsNum,
    MaxVisiblePointsRatio,
    MinUncertainty,
}

#[derive(Debug, Clone)]
pub struct MapperConfig {
    pub input: String,
    pub output: String,
    pub reference: Option<String>,
    pub database: Option<String>,
    pub write_two_view_geometries: bool,
    pub write_database: bool,
    pub max_images: Option<usize>,
    pub multiple_models: bool,
    pub max_num_models: usize,
    pub max_model_overlap: usize,
    pub min_model_size: usize,
    pub snapshot_path: Option<String>,
    pub snapshot_frames_freq: usize,
    pub extract_colors: bool,
    pub fix_existing_frames: bool,
    pub feature_type: FeatureType,
    pub max_features: usize,
    pub match_ratio: Real64,
    pub max_hamming_distance: Real32,
    pub local_matching: bool,
    pub local_window: usize,
    pub experimental_sequence_heuristics: bool,
    pub experimental_ring_closure: bool,
    pub experimental_structureless_pair_pose_fallback: bool,
    pub min_matches: usize,
    pub min_inliers: usize,
    pub min_triangulated: usize,
    pub init_min_num_inliers: usize,
    pub init_min_tri_angle_deg: Real32,
    pub init_max_forward_motion: Real32,
    pub init_num_trials: usize,
    pub init_max_reg_trials: usize,
    pub essential_threshold_px: Real32,
    pub essential_iterations: u32,
    pub pnp_threshold_px: Real32,
    pub pnp_iterations: u32,
    pub abs_pose_min_num_inliers: usize,
    pub abs_pose_min_inlier_ratio: Real32,
    pub image_selection_method: ImageSelectionMethod,
    pub random_seed: i32,
    pub max_reg_trials: usize,
    pub local_ba: bool,
    pub local_ba_num_images: usize,
    pub local_ba_min_shared_points: usize,
    pub local_ba_iterations: usize,
    pub global_ba: bool,
    pub global_ba_iterations: usize,
    pub global_ba_images_ratio: Real32,
    pub global_ba_points_ratio: Real32,
    pub global_ba_images_freq: usize,
    pub global_ba_points_freq: usize,
    pub global_ba_max_refinements: usize,
    pub global_ba_max_refinement_change: Real32,
    pub ba_refine_focal_length: bool,
    pub ba_refine_principal_point: bool,
    pub ba_refine_extra_params: bool,
    pub ba_constant_rig_ids: Vec<u32>,
    pub ba_constant_camera_ids: Vec<u32>,
    pub min_focal_length_ratio: Real64,
    pub max_focal_length_ratio: Real64,
    pub max_extra_param: Real64,
    pub max_reprojection_error_px: Real32,
    pub pose_graph: bool,
    pub copy_images: bool,
    pub threads: Option<usize>,
    pub fx: Option<Real32>,
    pub fy: Option<Real32>,
    pub cx: Option<Real32>,
    pub cy: Option<Real32>,
}

impl Default for MapperConfig {
    fn default() -> (config: MapperConfig)
        ensures
            config.input@ == Seq::<char>::empty(),
            config.output@ == Seq::<char>::empty(),
            config.reference is None,
            config.database is None,
            !config.write_two_view_geometries,
            !config.write_database,
            config.max_images is None,
            config.multiple_models,
            config.max_num_models == 50,
            config.max_model_overlap == 20,
            config.min_model_size == 10,
            config.snapshot_path is None,
            config.snapshot_frames_freq == 0,
            config.extract_colors,
            !config.fix_existing_frames,
            config.feature_type == FeatureType::Sift,
            config.max_features == 8192,
            config.match_ratio.bits == 0x3fe999999999999au64,
            config.max_hamming_distance.bits == 0x43200000u32,
            !config.local_matching,
            config.local_window == 0,
            !config.experimental_sequence_heuristics,
            !config.experimental_ring_closure,
            !config.experimental_structureless_pair_pose_fallback,
            config.min_matches == 15,
            config.min_inliers == 15,
            config.min_triangulated == 4,
            config.init_min_num_inliers == 100,
            config.init_min_tri_angle_deg.bits == 0x41800000u32,
            config.init_max_forward_motion.bits == 0x3f733333u32,
            config.init_num_trials == 200,
            config.init_max_reg_trials == 2,
            config.essential_threshold_px.bits == 0x40000000u32,
            config.essential_iterations == 10000,
            config.pnp_threshold_px.bits == 0x41400000u32,
            config.pnp_iterations == 10000,
            config.abs_pose_min_num_inliers == 30,
            config.abs_pose_min_inlier_ratio.bits == 0x3e800000u32,
            config.image_selection_method == ImageSelectionMethod::MinUncertainty,
            config.random_seed == -1,
            config.max_reg_trials == 3,
            config.local_ba,
            config.local_ba_num_images == 6,
            config.local_ba_min_shared_points == 15,
            config.local_ba_iterations == 5,
            config.global_ba,
            config.global_ba_iterations == 8,
            config.global_ba_images_ratio.bits == 0x3f8ccccdu32,
            config.global_ba_points_ratio.bits == 0x3f8ccccdu32,
            config.global_ba_images_freq == 500,
            config.global_ba_points_freq == 250_000,
            config.global_ba_max_refinements == 5,
            config.global_ba_max_refinement_change.bits == 0x3a03126fu32,
            config.ba_refine_focal_length,
            !config.ba_refine_principal_point,
            config.ba_refine_extra_params,
            config.ba_constant_rig_ids@ == Seq::<u32>::empty(),
            config.ba_constant_camera_ids@ == Seq::<u32>::empty(),
            config.min_focal_length_ratio.bits == 0x3fb999999999999au64,
            config.max_focal_length_ratio.bits == 0x4024000000000000u64,
            config.max_extra_param.bits == 0x3ff0000000000000u64,
            config.max_reprojection_error_px.bits == 0x41000000u32,
            !config.pose_graph,
            config.copy_images,
            config.threads is None,
            config.fx is None,
            config.fy is None,
            config.cx is None,
            config.cy is None,
    {
        MapperConfig {
            input: String::new(),
            output: String::new(),
            reference: None,
            database: None,
            write_two_view_geometries: false,
            write_database: false,
            max_images: None,
            multiple_models: true,
            max_num_models: 50,
            max_model_overlap: 20,
            min_model_size: 10,
            snapshot_path: None,
            snapshot_frames_freq: 0,
            extract_colors: true,
            fix_existing_frames: false,
            feature_type: FeatureType::Sift,
            max_features: 8192,
            match_ratio: Real64 { bits: 0x3fe999999999999au64 },
            max_hamming_distance: Real32 { bits: 0x43200000u32 },
            local_matching: false,
            local_window: 0,
            experimental_sequence_heuristics: false,
            experimental_ring_closure: false,
            experimental_structureless_pair_pose_fallback: false,
            min_matches: 15,
            min_inliers: 15,
            min_triangulated: 4,
            init_min_num_inliers: 100,
            init_min_tri_angle_deg: Real32 { bits: 0x41800000u32 },
            init_max_forward_motion: Real32 { bits: 0x3f733333u32 },
            init_num_trials: 200,
            init_max_reg_trials: 2,
            essential_threshold_px: Real32 { bits: 0x40000000u32 },
            essential_iterations: 10000,
            pnp_threshold_px: Real32 { bits: 0x41400000u32 },
            pnp_iterations: 10000,
            abs_pose_min_num_inliers: 30,
            abs_pose_min_inlier_ratio: Real32 { bits: 0x3e800000u32 },
            image_selection_method: ImageSelectionMethod::MinUncertainty,
            random_seed: -1,
            max_reg_trials: 3,
            local_ba: true,
            local_ba_num_images: 6,
            local_ba_min_shared_points: 15,
            local_ba_iterations: 5,
            global_ba: true,
            global_ba_iterations: 8,
            global_ba_images_ratio: Real32 { bits: 0x3f8ccccdu32 },
            global_ba_points_ratio: Real32 { bits: 0x3f8ccccdu32 },
            global_ba_images_freq: 500,
            global_ba_points_freq: 250_000,
            global_ba_max_refinements: 5,
            global_ba_max_refinement_change: Real32 { bits: 0x3a03126fu32 },
            ba_refine_focal_length: true,
            ba_refine_principal_point: false,
            ba_refine_extra_params: true,
            ba_constant_rig_ids: Vec::new(),
            ba_constant_camera_ids: Vec::new(),
            min_focal_length_ratio: Real64 { bits: 0x3fb999999999999au64 },
            max_focal_length_ratio: Real64 { bits: 0x4024000000000000u64 },
            max_extra_param: Real64 { bits: 0x3ff0000000000000u64 },
            max_reprojection_error_px: Real32 { bits: 0x41000000u32 },
            pose_graph: false,
            copy_images: true,
            threads: None,
            fx: None,
            fy: None,
            cx: None,
            cy: None,
        }
    }
}

} // verus!
