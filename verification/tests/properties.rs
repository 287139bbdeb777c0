use rustsfm::absolute_pose::{
    absolute_pose_camera_params, absolute_pose_inlier_indices,
    absolute_pose_scratch_reconstruction, accept_initial_absolute_pose, AbsolutePoseEval,
    AbsolutePoseObservation, CameraParameterRoles, PoseCorrespondence,
};
use rustsfm::camera_selection::apply_image_camera;
use rustsfm::colors::ColorExtractionReport;
use rustsfm::config::{FeatureType, MapperConfig, UnsupportedFeatureType};
use rustsfm::disjoint_set::DisjointSet;
use rustsfm::generalized_frame::{
    accept_generalized_frame_pose, collect_generalized_frame_absolute_pose_problem,
    enough_frame_correspondences, frame_image_pose, generalized_frame_refinement_reconstruction,
    initial_generalized_frame_inliers, unique_generalized_frame_point_count,
    GeneralizedFrameInlier,
};
use rustsfm::global_ba::{
    global_ba_size_tag, should_run_final_global_ba, GlobalBaSchedule, ModelSize,
};
use rustsfm::initial_pair::TWO_VIEW_CALIBRATED;
use rustsfm::local_bundle::{
    local_bundle_refinement_required, local_refinement_enabled, points_to_complete,
};
use rustsfm::mapping_attempt::{
    add_generalized_inliers, any_unregistered, count_failed_registrations, first_registered_image,
    mapping_pair_indices, place_image, register_initial_pair, roll_back_registration,
    settle_registration, RegistrationChoice,
};
use rustsfm::next_image::{registration_visibility, RankTerms};
use rustsfm::observation_manager::ObservationManager;
use rustsfm::order_statistics::{median_f32, percentile_f32, strong_feature_indices};
use rustsfm::pair_candidates::{intra_segment_ring_candidates, is_ring_bridge_candidate, ImagePair};
use rustsfm::pair_graph::{
    colmap_two_view_config_name, connectivity, filter_match_distances, finish_candidate_pair,
    guided_matching_applies, keep_verified_pair, limited_indices, matching_plan, merge_matches,
    mutual_matches, num_high_error_pairs, pair_config_counts, pair_degrees, pair_effort,
    pair_metadata, prefers_guided, retain_best_ring_closures, select_stored_pose_inliers,
    thorough_effort, TWO_VIEW_DEGENERATE, Connectivity, MatchFit, MatchingPlan, PairEffort,
    PairEstimationOptions,
};
use rustsfm::pair_ids::image_pair_to_pair_id;
use rustsfm::pair_inversion::{copy_pair_geometry, invert_pair_geometry};
use rustsfm::pair_stats::ImagePairStat;
use rustsfm::pair_tracks::{pair_graph_tracks, unique_track_observations};
use rustsfm::pair_triangulation::{
    add_existing_observations, existing_observation_candidates, observations_by_image,
    triangulate_match, triangulation_candidates, ExistingObservation,
};
use rustsfm::point_ids::next_point3d_id;
use rustsfm::reconstruction_run::{pose_graph_applies, restart_from_poses};
use rustsfm::registration_stats::RegistrationStats;
use rustsfm::registration_units::{
    expand_images_to_registration_frames, registration_unit_key, reset_registration_unit_trials,
    RegistrationUnitKey, UnitSet,
};
use rustsfm::scalar::{Real32, Real64};
use rustsfm::session::{IncrementalMapperSession, InitialPairSelectionState};
use rustsfm::structureless::{
    best_hypothesis, collect_structureless_problem, distinct_structureless_inlier_neighbors,
    structureless_registration_ready, StructurelessInlier,
};
use rustsfm::translation_votes::{
    best_local_translation_anchor, enough_images_to_vote, find_adjacent, keeps_translation,
    neighbors_in_order, takes_anchor, takes_vote, translation_votes, turns_to_anchor,
    turns_to_vote, VoteSource,
};
use rustsfm::types::{
    CameraModel, DataId, Frame, ImageFrame, Keypoint, Match, PairGeometry, Point3D, Pose,
    Reconstruction, RelativeGeometry, Rig, RigSensor, Rigid3, SensorId, SensorType,
    TrackObservation,
};
use rustsfm::visibility::visibility_pyramid_score;
use std::collections::HashSet;

fn single(x: f32) -> Real32 {
    Real32 { bits: x.to_bits() }
}

fn double(x: f64) -> Real64 {
    Real64 { bits: x.to_bits() }
}

fn pose(x: f32, y: f32, z: f32) -> Pose {
    Pose {
        qw: single(1.0),
        qx: single(0.0),
        qy: single(0.0),
        qz: single(0.0),
        tx: single(x),
        ty: single(y),
        tz: single(z),
    }
}

fn identity() -> Pose {
    pose(0.0, 0.0, 0.0)
}

fn rigid(translation: [f64; 3]) -> Rigid3 {
    Rigid3 {
        qvec: [double(1.0), double(0.0), double(0.0), double(0.0)],
        tvec: translation.map(double),
    }
}

fn pinhole(width: u32, height: u32, fx: f32, fy: f32, cx: f32, cy: f32) -> CameraModel {
    let mut params = [double(0.0); 12];
    for (slot, value) in params.iter_mut().zip([fx, fy, cx, cy]) {
        *slot = double(value as f64);
    }
    let ratio = fx / width.max(height) as f32;
    CameraModel {
        model_id: 1,
        width,
        height,
        params,
        num_params: 4,
        bogus: !(0.1..=10.0).contains(&ratio),
    }
}

fn usual_camera() -> CameraModel {
    pinhole(100, 100, 50.0, 50.0, 50.0, 50.0)
}

fn keypoint(x: f32, y: f32, width: u32, height: u32) -> Keypoint {
    Keypoint {
        x: single(x),
        y: single(y),
        cell_x: ((x / width as f32) * 32.0).clamp(0.0, 31.0) as u8,
        cell_y: ((y / height as f32) * 32.0).clamp(0.0, 31.0) as u8,
    }
}

fn observation(image: usize, feature: usize) -> TrackObservation {
    TrackObservation { image, feature }
}

fn point(xyz: [f32; 3], track: &[(usize, usize)]) -> Point3D {
    Point3D {
        xyz: xyz.map(single),
        color: [0, 0, 0],
        error: single(0.0),
        track: track.iter().map(|&(image, feature)| observation(image, feature)).collect(),
    }
}

fn relative(translation: [f32; 3]) -> RelativeGeometry {
    let norm = translation.iter().map(|t| t * t).sum::<f32>().sqrt();
    let forward_motion = if norm <= f32::EPSILON || !norm.is_finite() {
        f32::INFINITY
    } else {
        (translation[2] / norm).abs()
    };
    RelativeGeometry {
        pose: pose(translation[0], translation[1], translation[2]),
        h_matrix: None,
        qvec: None,
        tvec: None,
        forward_motion: single(forward_motion),
    }
}

fn test_pair(
    left: usize,
    right: usize,
    inliers: usize,
    triangulated: usize,
    median_triangulation_angle_deg: f32,
    translation: [f32; 3],
) -> PairGeometry {
    PairGeometry {
        left,
        right,
        two_view_config: TWO_VIEW_CALIBRATED,
        f_matrix: None,
        e_matrix: None,
        forward: relative(translation),
        backward: relative(translation.map(|t| -t)),
        matches: Vec::new(),
        inlier_matches: Vec::new(),
        inliers,
        triangulated,
        mean_reprojection_error_px: single(1.0),
        rotation_deg: single(0.0),
        median_triangulation_angle_deg: single(median_triangulation_angle_deg),
        pose_graph_only: false,
    }
}

fn matched(query_idx: u32, train_idx: u32) -> Match {
    Match { query_idx, train_idx, distance: single(0.0) }
}

fn pair_with_inliers(left: usize, right: usize, matches: &[(u32, u32)]) -> PairGeometry {
    let mut pair = test_pair(left, right, matches.len(), 0, 1.0, [1.0, 0.0, 0.0]);
    pair.inlier_matches = matches.iter().map(|&(query, train)| matched(query, train)).collect();
    pair
}

fn minimal_frame(id: usize, name: &str) -> ImageFrame {
    ImageFrame {
        id,
        name: name.to_string(),
        width: 100,
        height: 100,
        keypoints: vec![keypoint(0.0, 0.0, 100, 100), keypoint(1.0, 1.0, 100, 100)],
        strong_feature_indices: Vec::new(),
        colors: vec![[0, 0, 0], [0, 0, 0]],
    }
}

fn minimal_frames(count: usize) -> Vec<ImageFrame> {
    (0..count).map(|idx| minimal_frame(idx, &format!("image_{idx}.jpg"))).collect()
}

fn structureless_frames(count: usize) -> Vec<ImageFrame> {
    (0..count)
        .map(|idx| {
            let mut frame = minimal_frame(idx, &format!("image_{idx}.jpg"));
            frame.keypoints = (0..64)
                .map(|feature| {
                    let col = (feature % 8) as f32;
                    let row = (feature / 8) as f32;
                    keypoint(10.0 + col * 8.0, 12.0 + row * 7.0, 100, 100)
                })
                .collect();
            frame.colors = vec![[0, 0, 0]; frame.keypoints.len()];
            frame
        })
        .collect()
}

fn test_reconstruction(frames: &[ImageFrame]) -> Reconstruction {
    Reconstruction {
        camera: usual_camera(),
        cameras: vec![usual_camera()],
        camera_ids: vec![1],
        rigs: Vec::new(),
        frames: Vec::new(),
        image_names: frames.iter().map(|frame| frame.name.clone()).collect(),
        image_ids: (0..frames.len()).map(|idx| idx as u32 + 1).collect(),
        image_camera_indices: vec![0; frames.len()],
        image_frame_indices: vec![None; frames.len()],
        poses: vec![None; frames.len()],
        observations: frames.iter().map(|frame| vec![None; frame.keypoints.len()]).collect(),
        keypoints: frames.iter().map(|frame| frame.keypoints.clone()).collect(),
        point_ids: Vec::new(),
        points: Vec::new(),
    }
}

fn register_all(reconstruction: &mut Reconstruction) {
    for pose in &mut reconstruction.poses {
        *pose = Some(identity());
    }
}

fn add_point(reconstruction: &mut Reconstruction, xyz: [f32; 3], track: &[(usize, usize)]) {
    let index = reconstruction.points.len();
    for &(image, feature) in track {
        reconstruction.observations[image][feature] = Some(index);
    }
    reconstruction.point_ids.push(index as u64 + 1);
    reconstruction.points.push(point(xyz, track));
}

fn camera_sensor(sensor_id: u32) -> SensorId {
    SensorId { sensor_type: SensorType::Camera, sensor_id }
}

fn two_sensor_rig(rig_id: u32, reference: SensorId, other: SensorId, offset: [f64; 3]) -> Rig {
    Rig {
        rig_id,
        ref_sensor_id: Some(reference),
        sensors: vec![
            RigSensor { sensor_id: reference, sensor_from_rig: None },
            RigSensor { sensor_id: other, sensor_from_rig: Some(rigid(offset)) },
        ],
    }
}

fn bare_frame(frame_id: u32, rig_id: u32) -> Frame {
    Frame { frame_id, rig_id, rig_from_world: rigid([0.0, 0.0, 0.0]), data_ids: Vec::new() }
}

fn attach_two_image_rig_frame(
    reconstruction: &mut Reconstruction,
    ref_image: usize,
    aux_image: usize,
) {
    let reference = camera_sensor(reconstruction.image_id(ref_image));
    let other = camera_sensor(reconstruction.image_id(aux_image));
    reconstruction.rigs = vec![two_sensor_rig(99, reference, other, [0.0, 0.0, 0.0])];
    let mut frame = bare_frame(199, 99);
    frame.data_ids = vec![
        DataId { sensor_id: reference, data_id: reconstruction.image_id(ref_image) as u64 },
        DataId { sensor_id: other, data_id: reconstruction.image_id(aux_image) as u64 },
    ];
    reconstruction.frames = vec![frame];
    reconstruction.image_frame_indices = vec![None; reconstruction.poses.len()];
    reconstruction.image_frame_indices[ref_image] = Some(0);
    reconstruction.image_frame_indices[aux_image] = Some(0);
}

fn registration_stats(reconstruction: &Reconstruction) -> RegistrationStats {
    RegistrationStats::from_reconstruction(reconstruction)
}

fn three_registered() -> (Vec<ImageFrame>, Vec<PairGeometry>, Reconstruction) {
    let frames = minimal_frames(3);
    let pairs = vec![
        pair_with_inliers(0, 1, &[(0, 0), (1, 1)]),
        pair_with_inliers(1, 2, &[(0, 0), (1, 1)]),
    ];
    let mut reconstruction = test_reconstruction(&frames);
    register_all(&mut reconstruction);
    (frames, pairs, reconstruction)
}

fn statistics(manager: &ObservationManager, image: usize) -> [usize; 6] {
    [
        manager.num_observations(image),
        manager.num_correspondences(image),
        manager.num_visible_correspondences(image),
        manager.num_visible_points3d(image),
        manager.point3d_visibility_score(image),
        manager.num_correspondences_have_point3d(image, 0),
    ]
}

#[test]
fn statistics_follow_from_the_model_alone() {
    let (frames, pairs, mut reconstruction) = three_registered();
    let mut manager = ObservationManager::new(&frames, &pairs, &reconstruction);
    let id = manager
        .add_point3d(&frames, &pairs, &mut reconstruction, point([0.0; 3], &[(0, 0), (1, 0)]))
        .unwrap();
    assert!(manager.add_observation(&frames, &pairs, &mut reconstruction, id, observation(2, 0)));
    assert!(manager.deregister_image(&frames, &pairs, &mut reconstruction, 0));

    let fresh = ObservationManager::new(&frames, &pairs, &reconstruction);

    for image in 0..3 {
        assert_eq!(statistics(&manager, image), statistics(&fresh, image));
    }
    assert_eq!(manager.image_pairs().get(&(1, 2)), fresh.image_pairs().get(&(1, 2)));
}

#[test]
fn tracks_and_observations_stay_in_agreement() {
    let (frames, pairs, mut reconstruction) = three_registered();
    let mut manager = ObservationManager::new(&frames, &pairs, &reconstruction);
    let first = manager
        .add_point3d(&frames, &pairs, &mut reconstruction, point([0.0; 3], &[(0, 0), (1, 0)]))
        .unwrap();
    let second = manager
        .add_point3d(&frames, &pairs, &mut reconstruction, point([0.0; 3], &[(1, 1), (2, 1)]))
        .unwrap();
    assert_eq!((first, second), (0, 1));

    assert!(manager.delete_point3d(&frames, &pairs, &mut reconstruction, first));

    assert_eq!(reconstruction.points.len(), 1);
    for (index, point) in reconstruction.points.iter().enumerate() {
        for obs in &point.track {
            assert_eq!(reconstruction.observations[obs.image][obs.feature], Some(index));
        }
    }
    let slots: usize = reconstruction
        .observations
        .iter()
        .map(|row| row.iter().filter(|slot| slot.is_some()).count())
        .sum();
    assert_eq!(slots, 2);
}

#[test]
fn adding_a_point_and_deleting_it_changes_nothing() {
    let (frames, pairs, mut reconstruction) = three_registered();
    let before = reconstruction.observations.clone();
    let mut manager = ObservationManager::new(&frames, &pairs, &reconstruction);

    let id = manager
        .add_point3d(&frames, &pairs, &mut reconstruction, point([0.0; 3], &[(0, 0), (1, 0)]))
        .unwrap();
    assert!(manager.delete_point3d(&frames, &pairs, &mut reconstruction, id));

    assert_eq!(reconstruction.observations, before);
    assert!(reconstruction.points.is_empty());
    assert!(reconstruction.point_ids.is_empty());
}

#[test]
fn points_get_new_ids() {
    let (frames, pairs, mut reconstruction) = three_registered();
    let mut manager = ObservationManager::new(&frames, &pairs, &reconstruction);
    add_point(&mut reconstruction, [0.0; 3], &[(0, 0), (1, 0)]);
    reconstruction.point_ids = vec![41];

    manager
        .add_point3d(&frames, &pairs, &mut reconstruction, point([0.0; 3], &[(1, 1), (2, 1)]))
        .unwrap();

    assert_eq!(reconstruction.point_ids, vec![41, 42]);
    assert_eq!(next_point3d_id(&reconstruction), 43);
}

#[test]
fn points_need_free_slots() {
    let (frames, pairs, mut reconstruction) = three_registered();
    let mut manager = ObservationManager::new(&frames, &pairs, &reconstruction);
    add_point(&mut reconstruction, [0.0; 3], &[(0, 0), (1, 0)]);

    let taken = point([0.0; 3], &[(1, 0), (2, 0)]);
    assert_eq!(manager.add_point3d(&frames, &pairs, &mut reconstruction, taken), None);
    let missing = point([0.0; 3], &[(1, 1), (2, 9)]);
    assert_eq!(manager.add_point3d(&frames, &pairs, &mut reconstruction, missing), None);
    assert!(!manager.add_observation(
        &frames,
        &pairs,
        &mut reconstruction,
        0,
        observation(1, 0)
    ));
    assert!(!manager.delete_observation(&frames, &pairs, &mut reconstruction, 2, 1));
    assert!(!manager.delete_point3d(&frames, &pairs, &mut reconstruction, 1));
    assert_eq!(reconstruction.points.len(), 1);
}

#[test]
fn modified_points_are_marked_until_cleared() {
    let (frames, pairs, reconstruction) = three_registered();
    let mut manager = ObservationManager::new(&frames, &pairs, &reconstruction);

    manager.mark_point3d_modified(4);
    assert!(manager.modified_point3d_ids().contains(&4));
    manager.clear_modified_point3d_ids();
    assert!(manager.modified_point3d_ids().is_empty());
}

#[test]
fn visibility_scores_count_cells_on_six_grids() {
    let frame = minimal_frame(0, "a.jpg");

    assert_eq!(visibility_pyramid_score(&frame, &vec![0, 0]), 0);
    assert_eq!(visibility_pyramid_score(&frame, &vec![3, 0]), 6);
    assert_eq!(visibility_pyramid_score(&frame, &vec![1, 1]), 6);
    let mut spread = minimal_frame(1, "b.jpg");
    spread.keypoints[1] = keypoint(99.0, 99.0, 100, 100);
    assert_eq!(visibility_pyramid_score(&spread, &vec![1, 1]), 11);
    spread.width = 0;
    assert_eq!(visibility_pyramid_score(&spread, &vec![1, 1]), 0);
}

#[test]
fn visibility_scores_are_bounded_by_the_cells() {
    let mut full = minimal_frame(0, "a.jpg");
    full.keypoints = (0..1024)
        .map(|k| Keypoint {
            x: single(0.0),
            y: single(0.0),
            cell_x: (k % 32) as u8,
            cell_y: (k / 32) as u8,
        })
        .collect();

    assert_eq!(visibility_pyramid_score(&full, &vec![1; 1024]), 1365);
    full.keypoints[0].cell_x = 255;
    full.keypoints[0].cell_y = 255;
    assert_eq!(visibility_pyramid_score(&full, &vec![1; 1024]), 1364);
    let mut spread = minimal_frame(1, "b.jpg");
    spread.keypoints[1] = keypoint(99.0, 99.0, 100, 100);
    assert_eq!(visibility_pyramid_score(&spread, &vec![1, 1]), 1 + 5 * 2);
}

#[test]
fn turning_pairs_round_changes_no_statistic() {
    let frames = structureless_frames(3);
    let mut reconstruction = test_reconstruction(&frames);
    reconstruction.poses[0] = Some(identity());
    reconstruction.poses[1] = Some(identity());
    add_point(&mut reconstruction, [0.0; 3], &[(0, 0), (1, 5)]);
    let pairs =
        [pair_with_inliers(0, 1, &[(0, 5), (1, 6)]), pair_with_inliers(1, 2, &[(5, 9), (6, 70)])];
    let turned = [invert_pair_geometry(&pairs[0]), copy_pair_geometry(&pairs[1])];

    let one = ObservationManager::new(&frames, &pairs, &reconstruction);
    let other = ObservationManager::new(&frames, &turned, &reconstruction);

    for image in 0..3 {
        assert_eq!(one.num_observations(image), other.num_observations(image));
        assert_eq!(one.num_correspondences(image), other.num_correspondences(image));
        assert_eq!(
            one.num_visible_correspondences(image),
            other.num_visible_correspondences(image)
        );
        assert_eq!(one.num_visible_points3d(image), other.num_visible_points3d(image));
        assert_eq!(one.point3d_visibility_score(image), other.point3d_visibility_score(image));
    }
    assert_eq!(one.image_pairs().get(&(0, 1)), other.image_pairs().get(&(0, 1)));
    assert_eq!(one.image_pairs().get(&(0, 1)).unwrap().num_tri_corrs, 1);
    assert_eq!(other.num_visible_points3d(2), 1);
}

#[test]
fn counts_of_an_image_bound_each_other() {
    let frames = structureless_frames(3);
    let mut reconstruction = test_reconstruction(&frames);
    register_all(&mut reconstruction);
    add_point(&mut reconstruction, [0.0; 3], &[(0, 0), (1, 0)]);
    let pairs = [
        pair_with_inliers(0, 1, &[(0, 0), (1, 1)]),
        pair_with_inliers(0, 2, &[(0, 0), (2, 2)]),
    ];
    let mut manager = ObservationManager::new(&frames, &pairs, &reconstruction);

    assert_eq!(manager.num_observations(0), 3);
    assert_eq!(manager.num_correspondences(0), 4);
    assert_eq!(manager.num_visible_correspondences(0), 4);
    assert_eq!(manager.num_visible_points3d(0), 1);
    assert_eq!(manager.point3d_visibility_score(0), 6);
    let stat = *manager.image_pairs().get(&(0, 1)).unwrap();
    assert_eq!(stat, ImagePairStat { num_tri_corrs: 1, num_total_corrs: 2 });

    reconstruction.poses[2] = None;
    manager.rebuild(&frames, &pairs, &reconstruction);
    assert_eq!(manager.num_visible_correspondences(0), 2);
    assert_eq!(manager.num_visible_points3d(2), 1);
    assert_eq!(manager.num_visible_points3d(0), 1);
}

#[test]
fn correspondences_are_twice_the_counted_matches() {
    let frames = minimal_frames(3);
    let reconstruction = test_reconstruction(&frames);
    let pairs = [
        pair_with_inliers(0, 1, &[(0, 0), (1, 1), (5, 0)]),
        pair_with_inliers(2, 1, &[(0, 1)]),
        pair_with_inliers(0, 9, &[(0, 0)]),
    ];

    let manager = ObservationManager::new(&frames, &pairs, &reconstruction);

    let sum: usize = (0..3).map(|image| manager.num_correspondences(image)).sum();
    assert_eq!(sum, 6);
}

#[test]
fn deletions_leave_two_observations_or_none() {
    let frames = minimal_frames(4);
    let mut reconstruction = test_reconstruction(&frames);
    register_all(&mut reconstruction);
    add_point(&mut reconstruction, [0.0; 3], &[(0, 0), (1, 0), (2, 0)]);
    add_point(&mut reconstruction, [1.0; 3], &[(0, 1), (1, 1)]);
    let mut manager = ObservationManager::new(&frames, &[], &reconstruction);

    assert!(manager.delete_observation(&frames, &[], &mut reconstruction, 0, 0));
    assert_eq!(reconstruction.points[0].track, vec![observation(1, 0), observation(2, 0)]);
    assert!(manager.delete_observation(&frames, &[], &mut reconstruction, 0, 1));
    assert_eq!(reconstruction.points.len(), 1);
    assert!(manager.delete_observation(&frames, &[], &mut reconstruction, 2, 0));
    assert!(reconstruction.points.is_empty());
}

#[test]
fn deleting_an_added_observation_restores_the_model() {
    let frames = minimal_frames(3);
    let mut reconstruction = test_reconstruction(&frames);
    register_all(&mut reconstruction);
    add_point(&mut reconstruction, [0.0; 3], &[(0, 0), (1, 0)]);
    let before = reconstruction.clone();
    let mut manager = ObservationManager::new(&frames, &[], &reconstruction);

    let own = observation(2, 1);
    assert!(manager.add_observation(&frames, &[], &mut reconstruction, 0, own));
    assert_eq!(reconstruction.points[0].track.len(), 3);
    assert!(manager.delete_observation(&frames, &[], &mut reconstruction, 2, 1));

    assert_eq!(reconstruction.points[0].track, before.points[0].track);
    assert_eq!(reconstruction.observations, before.observations);
    assert_eq!(reconstruction.point_ids, before.point_ids);
    assert_eq!(*manager.modified_point3d_ids(), HashSet::from([0]));
}

#[test]
fn deleting_an_added_point_restores_identifiers_and_marks() {
    let frames = minimal_frames(2);
    let mut reconstruction = test_reconstruction(&frames);
    add_point(&mut reconstruction, [0.0; 3], &[(0, 0), (1, 0)]);
    let mut manager = ObservationManager::new(&frames, &[], &reconstruction);
    manager.mark_point3d_modified(0);

    let added = point([1.0; 3], &[(0, 1), (1, 1)]);
    let id = manager.add_point3d(&frames, &[], &mut reconstruction, added).unwrap();
    assert_eq!(manager.modified_point3d_ids().len(), 2);
    assert!(manager.delete_point3d(&frames, &[], &mut reconstruction, id));

    assert_eq!(reconstruction.points.len(), 1);
    assert_eq!(reconstruction.point_ids, vec![1]);
    assert_eq!(reconstruction.observations, vec![vec![Some(0), None], vec![Some(0), None]]);
    assert_eq!(*manager.modified_point3d_ids(), HashSet::from([0]));
}

#[test]
fn statistics_see_only_images_and_inliers_of_pairs() {
    let frames = minimal_frames(2);
    let mut reconstruction = test_reconstruction(&frames);
    register_all(&mut reconstruction);
    let pair = pair_with_inliers(0, 1, &[(0, 1)]);
    let mut other = pair_with_inliers(1, 0, &[(1, 0)]);
    other.inliers = 77;
    other.two_view_config = 5;
    other.inlier_matches[0].distance = single(3.0);

    let one = ObservationManager::new(&frames, &[pair], &reconstruction);
    let two = ObservationManager::new(&frames, &[other], &reconstruction);

    for image in 0..2 {
        assert_eq!(one.num_observations(image), two.num_observations(image));
        assert_eq!(
            one.num_visible_correspondences(image),
            two.num_visible_correspondences(image)
        );
    }
    assert_eq!(one.image_pairs().get(&(0, 1)), two.image_pairs().get(&(0, 1)));
}

#[test]
fn points_with_enough_other_observations_survive_deregistration() {
    let frames = minimal_frames(3);
    let mut reconstruction = test_reconstruction(&frames);
    register_all(&mut reconstruction);
    add_point(&mut reconstruction, [0.0; 3], &[(0, 0), (1, 0)]);
    add_point(&mut reconstruction, [1.0; 3], &[(1, 1), (0, 1), (2, 1)]);
    add_point(&mut reconstruction, [2.0; 3], &[(2, 0)]);
    reconstruction.point_ids = vec![10, 20, 30];
    let mut manager = ObservationManager::new(&frames, &[], &reconstruction);

    assert!(manager.deregister_image(&frames, &[], &mut reconstruction, 0));

    assert_eq!(reconstruction.points.len(), 2);
    assert_eq!(reconstruction.points[0].track, vec![observation(1, 1), observation(2, 1)]);
    assert_eq!(reconstruction.points[1].track, vec![observation(2, 0)]);
    assert_eq!(reconstruction.point_ids, vec![20, 30]);
    assert_eq!(*manager.modified_point3d_ids(), HashSet::from([0]));
}

#[test]
fn deregistration_is_final_and_raises_no_count() {
    let frames = minimal_frames(3);
    let pairs = [pair_with_inliers(0, 1, &[(0, 0), (1, 1)]), pair_with_inliers(1, 2, &[(0, 0)])];
    let mut reconstruction = test_reconstruction(&frames);
    register_all(&mut reconstruction);
    add_point(&mut reconstruction, [0.0; 3], &[(0, 0), (1, 0), (2, 0)]);
    let mut manager = ObservationManager::new(&frames, &pairs, &reconstruction);
    let before = manager.clone();

    assert!(manager.deregister_image(&frames, &pairs, &mut reconstruction, 0));
    let once = reconstruction.clone();
    for image in 0..3 {
        assert_eq!(manager.num_correspondences(image), before.num_correspondences(image));
        assert!(
            manager.num_visible_correspondences(image)
                <= before.num_visible_correspondences(image)
        );
        assert!(manager.num_visible_points3d(image) <= before.num_visible_points3d(image));
    }
    assert_eq!(manager.num_visible_correspondences(1), 1);
    assert!(manager.deregister_image(&frames, &pairs, &mut reconstruction, 0));
    assert_eq!(reconstruction.points[0].track, once.points[0].track);
    assert_eq!(reconstruction.observations, once.observations);

    assert!(manager.register_image(&frames, &pairs, &mut reconstruction, 0, identity()));
    assert!(manager.deregister_image(&frames, &pairs, &mut reconstruction, 0));
    assert_eq!(reconstruction.poses, once.poses);
    assert_eq!(reconstruction.observations, once.observations);
}

#[test]
fn a_rolled_back_registration_leaves_a_trial_only() {
    let frames = minimal_frames(3);
    let pairs = [pair_with_inliers(0, 1, &[(0, 0)])];
    let mut reconstruction = test_reconstruction(&frames);
    attach_two_image_rig_frame(&mut reconstruction, 1, 2);
    reconstruction.poses[0] = Some(identity());
    let before = reconstruction.clone();
    let mut manager = ObservationManager::new(&frames, &pairs, &reconstruction);
    assert!(manager.register_image(&frames, &pairs, &mut reconstruction, 1, identity()));
    assert_eq!(manager.num_visible_correspondences(0), 1);
    let mut trials = vec![4, 0, 1];

    roll_back_registration(
        &frames,
        &pairs,
        &mut reconstruction,
        before,
        &mut manager,
        &mut trials,
        1,
    );

    assert_eq!(reconstruction.poses, vec![Some(identity()), None, None]);
    assert_eq!(manager.num_visible_correspondences(0), 0);
    assert_eq!(manager.num_visible_correspondences(1), 1);
    assert_eq!(trials, vec![4, 1, 2]);
}

#[test]
fn registering_an_image_lowers_no_count() {
    let frames = minimal_frames(3);
    let mut reconstruction = test_reconstruction(&frames);
    reconstruction.poses[0] = Some(identity());
    add_point(&mut reconstruction, [0.0; 3], &[(0, 0), (1, 0)]);
    let pairs = [pair_with_inliers(0, 1, &[(0, 0)]), pair_with_inliers(1, 2, &[(0, 1)])];
    let mut manager = ObservationManager::new(&frames, &pairs, &reconstruction);
    let before = manager.clone();

    assert!(manager.register_image(&frames, &pairs, &mut reconstruction, 1, identity()));

    assert_eq!(before.num_visible_points3d(2), 0);
    assert_eq!(manager.num_visible_points3d(2), 1);
    assert_eq!(before.point3d_visibility_score(2), 0);
    assert_eq!(manager.point3d_visibility_score(2), 6);
    assert_eq!(before.num_correspondences_have_point3d(2, 1), 0);
    assert_eq!(manager.num_correspondences_have_point3d(2, 1), 1);
    assert_eq!(manager.num_visible_points3d(1), before.num_visible_points3d(1));
    assert_eq!(manager.num_correspondences(1), before.num_correspondences(1));
    assert_eq!(manager.image_pairs().get(&(0, 1)), before.image_pairs().get(&(0, 1)));
}

#[test]
fn cloned_state_is_its_own() {
    let frames = minimal_frames(2);
    let mut reconstruction = test_reconstruction(&frames);
    register_all(&mut reconstruction);
    let mut stats = registration_stats(&reconstruction);
    stats.init_image_pairs.insert(7);
    stats.existing_registration_units.insert(RegistrationUnitKey::Image(1));
    let copy = stats.clone();
    stats.init_image_pairs.insert(8);
    stats.register_image_event(&reconstruction, 0);

    assert_eq!(copy.init_image_pairs, HashSet::from([7]));
    assert_eq!(copy.num_registrations, vec![1, 1]);
    assert_eq!(stats.num_registrations, vec![2, 1]);
    assert!(copy.existing_registration_units.contains(&RegistrationUnitKey::Image(1)));
    assert_eq!(ColorExtractionReport::default().updated_points, 0);
    let fresh = RegistrationStats::default();
    assert_eq!(fresh.num_total_reg_images, 0);
    assert!(fresh.num_registrations.is_empty());

    let mut state = InitialPairSelectionState::default();
    assert!(state.init_num_reg_trials.is_empty());
    state.init_image_pairs.insert(3);
    assert_eq!(state.clone().init_image_pairs, HashSet::from([3]));
}

#[test]
fn units_split_the_images() {
    let frames = minimal_frames(4);
    let mut reconstruction = test_reconstruction(&frames);
    attach_two_image_rig_frame(&mut reconstruction, 1, 3);

    assert_eq!(registration_unit_key(&reconstruction, 0), RegistrationUnitKey::Image(0));
    assert_eq!(registration_unit_key(&reconstruction, 1), RegistrationUnitKey::Frame(0));
    assert_eq!(registration_unit_key(&reconstruction, 3), RegistrationUnitKey::Frame(0));
    assert_eq!(expand_images_to_registration_frames(&reconstruction, &[3, 0]), vec![0, 1, 3]);
    let expanded = expand_images_to_registration_frames(&reconstruction, &[0, 1, 3]);
    assert_eq!(expanded, vec![0, 1, 3]);
}

#[test]
fn trials_are_raised_and_reset_by_unit() {
    let frames = minimal_frames(3);
    let mut reconstruction = test_reconstruction(&frames);
    attach_two_image_rig_frame(&mut reconstruction, 1, 2);
    let mut trials = vec![4, 0, 2];

    count_failed_registrations(&reconstruction, &vec![2, 0], &mut trials);
    assert_eq!(trials, vec![5, 1, 3]);
    reset_registration_unit_trials(&reconstruction, 1, &mut trials);
    assert_eq!(trials, vec![5, 0, 0]);
}

#[test]
fn deregistration_takes_a_registration_back() {
    let frames = minimal_frames(2);
    let mut reconstruction = test_reconstruction(&frames);
    reconstruction.poses[0] = Some(identity());
    let mut stats = registration_stats(&reconstruction);

    stats.register_image_event(&reconstruction, 1);
    assert_eq!(stats.num_total_reg_images, 2);
    stats.deregister_image_event(&reconstruction, 1);

    assert_eq!(stats.num_total_reg_images, 1);
    assert_eq!(stats.registered_images_with_camera_id(1), 1);
    assert_eq!(stats.num_registrations, vec![1, 0]);
}

#[test]
fn initial_trials_come_back_after_a_commit() {
    let frames = minimal_frames(3);
    let reconstruction = test_reconstruction(&frames);
    let mut session = IncrementalMapperSession::new();
    let mut state = session.initial_pair_selection_state(&reconstruction);
    state.register_initial_pair(&reconstruction, 0, 2);
    session.commit_initial_pair_selection_state(&reconstruction, &state);

    let mut again = session.initial_pair_selection_state(&reconstruction);

    assert_eq!(again.init_num_reg_trials, vec![1, 0, 1]);
    assert!(!again.mark_initial_pair_tried(&reconstruction, 2, 0));
    assert!(again.mark_initial_pair_tried(&reconstruction, 0, 1));
}

#[test]
fn pair_ids_tell_pairs_apart() {
    assert_eq!(image_pair_to_pair_id(1, 2), Some(2147483649));
    assert_eq!(image_pair_to_pair_id(2, 1), image_pair_to_pair_id(1, 2));
    assert_ne!(image_pair_to_pair_id(1, 3), image_pair_to_pair_id(1, 2));
}

#[test]
fn inverting_a_pair_twice_gives_it_back() {
    let mut pair = pair_with_inliers(0, 1, &[(3, 7), (4, 8)]);
    pair.f_matrix = Some([1.0, 2.0, 3.0, 4.0, 5.0, 6.0, 7.0, 8.0, 9.0].map(double));

    let inverted = invert_pair_geometry(&pair);
    assert_eq!((inverted.left, inverted.right), (1, 0));
    assert_eq!(inverted.inlier_matches[0], matched(7, 3));
    assert_eq!(
        inverted.f_matrix,
        Some([1.0, 4.0, 7.0, 2.0, 5.0, 8.0, 3.0, 6.0, 9.0].map(double))
    );
    assert_eq!(inverted.forward.pose, pose(-1.0, -0.0, -0.0));

    let back = invert_pair_geometry(&inverted);
    assert_eq!((back.left, back.right), (0, 1));
    assert_eq!(back.inlier_matches, pair.inlier_matches);
    assert_eq!(back.f_matrix, pair.f_matrix);
    assert_eq!(back.forward.pose, pair.forward.pose);
}

#[test]
fn linked_elements_share_a_root() {
    let mut set = DisjointSet::new(5);
    set.union(0, 3);
    set.union(3, 4);

    assert_eq!(set.find(0), set.find(4));
    assert_ne!(set.find(0), set.find(1));
    assert_ne!(set.find(1), set.find(2));
}

#[test]
fn tracks_join_matches_across_pairs() {
    let frames = minimal_frames(3);
    let mut reconstruction = test_reconstruction(&frames);
    register_all(&mut reconstruction);
    let pairs = [pair_with_inliers(0, 1, &[(0, 1)]), pair_with_inliers(1, 2, &[(1, 0)])];

    let tracks = pair_graph_tracks(&frames, &pairs, &reconstruction);

    assert_eq!(tracks, vec![vec![observation(0, 0), observation(1, 1), observation(2, 0)]]);
}

#[test]
fn tracks_see_an_image_once() {
    assert_eq!(
        unique_track_observations(vec![observation(1, 0), observation(0, 2)]),
        Some(vec![observation(0, 2), observation(1, 0)])
    );
    assert_eq!(unique_track_observations(vec![observation(1, 0), observation(1, 2)]), None);
}

#[test]
fn applied_cameras_are_used() {
    let frames = minimal_frames(2);
    let mut reconstruction = test_reconstruction(&frames);
    let refined = pinhole(100, 100, 65.0, 65.0, 50.0, 50.0);

    apply_image_camera(&mut reconstruction, 1, refined);

    assert_eq!(reconstruction.camera_for_image(1).params, refined.params);
}

#[test]
fn the_best_hypothesis_comes_first_among_equals() {
    assert_eq!(best_hypothesis(&[]), None);
    assert_eq!(best_hypothesis(&[None, None]), None);
    let scores = [Some(single(1.0)), None, Some(single(3.0)), Some(single(3.0))];
    assert_eq!(best_hypothesis(&scores), Some(2));
}

#[test]
fn medians_and_percentiles_pick_sorted_values() {
    let values = vec![single(3.0), single(1.0), single(2.0), single(-4.0)];

    assert_eq!(median_f32(values.clone()), single(2.0));
    assert_eq!(median_f32(Vec::new()), single(0.0));
    assert_eq!(percentile_f32(values.clone(), 0), Some(single(-4.0)));
    assert_eq!(percentile_f32(values.clone(), 3), Some(single(3.0)));
    assert_eq!(percentile_f32(values, 4), None);
}

#[test]
fn strong_features_are_sorted_by_response() {
    let responses = [single(0.5), single(2.0), single(1.0)];

    assert_eq!(strong_feature_indices(&responses, 2), vec![1, 2]);
    assert_eq!(strong_feature_indices(&responses, 9), vec![1, 2, 0]);
}

#[test]
fn feature_types_are_parsed_without_regard_to_case() {
    assert_eq!(FeatureType::parse("SIFT"), Ok(FeatureType::Sift));
    assert_eq!(FeatureType::parse("orb"), Ok(FeatureType::Orb));
    assert_eq!(FeatureType::parse("surf"), Err(UnsupportedFeatureType));
}

#[test]
fn reals_compare_as_numbers() {
    assert!(single(-2.0).lt(&single(-1.0)));
    assert!(!single(-0.0).lt(&single(0.0)));
    assert!(single(-0.0).le(&single(0.0)));
    assert!(!single(f32::NAN).le(&single(f32::NAN)));
    assert!(single(f32::NAN).is_nan());
    assert!(!single(f32::INFINITY).is_finite());
    assert_eq!(single(16.0).half(), single(8.0));
    assert_eq!(single(0.3).half(), single(0.3 * 0.5));
    assert_eq!(single(-1.5e-38).half(), single(-1.5e-38 * 0.5));
    assert_eq!(single(1.0e-45).half(), single(1.0e-45 * 0.5));
    assert_eq!(single(f32::INFINITY).half(), single(f32::INFINITY));
}

#[test]
fn verified_pairs_must_earn_trust() {
    let mut near = test_pair(3, 4, 15, 0, 1.0, [1.0, 0.0, 0.0]);
    assert!(keep_verified_pair(&near));
    near.inliers = 14;
    assert!(!keep_verified_pair(&near));

    let mut far = test_pair(3, 6, 52, 0, 1.0, [1.0, 0.0, 0.0]);
    assert!(keep_verified_pair(&far));
    far.inliers = 51;
    assert!(!keep_verified_pair(&far));
    far.inliers = 500;
    far.two_view_config = TWO_VIEW_DEGENERATE;
    assert!(!keep_verified_pair(&far));
    assert_eq!(colmap_two_view_config_name(far.two_view_config), "DEGENERATE");
    assert_eq!(colmap_two_view_config_name(77), "UNKNOWN");
}

#[test]
fn pairs_that_close_a_turn_only_fix_the_pose_graph() {
    let closing = test_pair(0, 192, 40, 0, 1.0, [1.0, 0.0, 0.0]);
    assert!(is_ring_bridge_candidate(0, 192));
    assert!(!is_ring_bridge_candidate(10, 202));

    let finished = finish_candidate_pair(closing).unwrap();
    assert!(finished.pose_graph_only);
    assert!(mapping_pair_indices(&[finished]).is_empty());
    let plain = finish_candidate_pair(test_pair(0, 1, 20, 0, 1.0, [1.0, 0.0, 0.0])).unwrap();
    assert!(!plain.pose_graph_only);
    assert_eq!(mapping_pair_indices(&[plain]), vec![0]);
}

#[test]
fn turns_are_closed_between_their_ends() {
    let candidates = intra_segment_ring_candidates(4, 4);

    assert!(candidates.contains(&ImagePair { left: 0, right: 3 }));
    assert!(candidates.contains(&ImagePair { left: 2, right: 3 }));
    assert!(!intra_segment_ring_candidates(8, 8).contains(&ImagePair { left: 2, right: 3 }));
    assert!(intra_segment_ring_candidates(3, 4).is_empty());
}

#[test]
fn matching_plans_follow_features_and_distance() {
    assert_eq!(matching_plan(FeatureType::Sift, 0, 1, false), Some(MatchingPlan::Sift));
    assert_eq!(
        matching_plan(FeatureType::Sift, 0, 192, false),
        Some(MatchingPlan::SiftAcrossTurn)
    );
    assert_eq!(matching_plan(FeatureType::Orb, 0, 1, true), Some(MatchingPlan::Orb));
    assert_eq!(matching_plan(FeatureType::Orb, 0, 1, false), None);
    assert_eq!(
        matching_plan(FeatureType::Orb, 0, 192, false),
        Some(MatchingPlan::OrbAcrossTurn)
    );
}

#[test]
fn matches_are_filtered_merged_and_confirmed() {
    let mut near = matched(0, 1);
    near.distance = single(10.0);
    let mut far = matched(1, 2);
    far.distance = single(90.0);
    let both = vec![near, far];

    assert_eq!(filter_match_distances(&both, single(64.0), false), vec![near]);
    assert_eq!(filter_match_distances(&both, single(64.0), true), both);
    let mut merged = vec![near];
    merge_matches(&mut merged, &both);
    assert_eq!(merged, both);
    assert_eq!(mutual_matches(&both, &vec![matched(1, 0)]), vec![near]);
    assert_eq!(limited_indices(&[5, 6, 7], 2), vec![5, 6]);
}

#[test]
fn guided_matches_are_taken_if_they_support_more() {
    let mut pair = test_pair(0, 1, 30, 0, 1.0, [1.0, 0.0, 0.0]);
    let mut refined = test_pair(0, 1, 30, 0, 1.0, [1.0, 0.0, 0.0]);
    let config = MapperConfig { min_matches: 20, ..MapperConfig::default() };

    assert!(!guided_matching_applies(FeatureType::Sift, true, &pair));
    pair.f_matrix = Some([double(0.0); 9]);
    assert!(guided_matching_applies(FeatureType::Sift, true, &pair));
    assert!(!guided_matching_applies(FeatureType::Orb, true, &pair));
    assert!(prefers_guided(20, &config, &pair, Some(&refined)));
    assert!(!prefers_guided(19, &config, &pair, Some(&refined)));
    assert!(!prefers_guided(20, &config, &pair, None));
    refined.inliers = 29;
    assert!(!prefers_guided(20, &config, &pair, Some(&refined)));
}

#[test]
fn stored_poses_need_inliers_that_triangulate() {
    let matches: Vec<Match> = (0..4).map(|idx| matched(idx, idx)).collect();
    let fit = |error: f32| Some(MatchFit { error: single(error), angle: Some(single(5.0)) });
    let config = MapperConfig {
        min_inliers: 2,
        min_triangulated: 2,
        max_reprojection_error_px: single(1.0),
        ..MapperConfig::default()
    };

    let fits = [fit(0.5), fit(2.0), None, fit(0.25)];
    let selection = select_stored_pose_inliers(&matches, 4, 4, &fits, &config).unwrap();
    assert_eq!(selection.inlier_matches, vec![matched(0, 0), matched(3, 3)]);
    assert_eq!(selection.errors, vec![single(0.5), single(0.25)]);
    assert_eq!(selection.angles, vec![single(5.0), single(5.0)]);
    assert!(select_stored_pose_inliers(&matches, 4, 3, &fits, &config).is_none());
}

#[test]
fn database_pair_geometry_uses_stored_two_view_pose() {
    let matches: Vec<Match> = (0..4).map(|idx| matched(idx, idx)).collect();
    let fits = [Some(MatchFit { error: single(1.0e-6), angle: Some(single(10.0)) }); 4];
    let config = MapperConfig {
        min_inliers: 4,
        min_triangulated: 4,
        max_reprojection_error_px: single(1.0),
        ..MapperConfig::default()
    };

    let selection =
        select_stored_pose_inliers(&matches, 4, 4, &fits, &config).expect("stored pose pair");

    assert_eq!(selection.inlier_matches.len(), 4);
    assert_eq!(selection.angles.len(), 4);
    assert!(selection.errors.iter().all(|error| error.lt(&single(1.0e-4))));
}

#[test]
fn pair_graphs_are_summed_up() {
    let mut with_f = test_pair(0, 1, 30, 0, 1.0, [1.0, 0.0, 0.0]);
    with_f.f_matrix = Some([double(0.0); 9]);
    let pairs = [with_f, test_pair(1, 2, 30, 0, 1.0, [1.0, 0.0, 0.0])];

    let degrees = pair_degrees(&pairs, 4);
    assert_eq!(degrees, vec![1, 2, 1, 0]);
    assert_eq!(connectivity(&degrees), Connectivity { isolated: 1, min_degree: 0, max_degree: 2 });
    assert_eq!(pair_metadata(&pairs).with_f, 1);
    assert_eq!(pair_metadata(&pairs).with_e, 0);
    assert_eq!(pair_config_counts(&pairs), vec![(2, 2)]);
}

#[test]
fn the_best_ring_closures_stay() {
    let pairs = vec![
        test_pair(0, 1, 30, 0, 1.0, [1.0, 0.0, 0.0]),
        test_pair(0, 192, 50, 0, 1.0, [1.0, 0.0, 0.0]),
        test_pair(1, 193, 50, 0, 1.0, [1.0, 0.0, 0.0]),
    ];

    let kept = retain_best_ring_closures(&pairs, &[single(9.0), single(1.0), single(2.0)], 1);

    assert!(kept.contains(&2));
    assert!(!kept.contains(&1));
}

#[test]
fn neighbors_vote_on_translations() {
    let mut pairs: Vec<PairGeometry> = (0..4)
        .map(|left| test_pair(left, left + 1, 80, 0, 2.0, [1.0, 0.0, 0.0]))
        .collect();
    pairs[1].median_triangulation_angle_deg = single(0.5);
    pairs.push(test_pair(0, 2, 80, 0, 2.0, [1.0, 0.0, 0.0]));

    let votes = translation_votes(&pairs, &[true; 5], &[true; 5], 1);

    assert!(votes.contains(&VoteSource::Adjacent(0)));
    assert!(votes.contains(&VoteSource::Spanning(4)));
    assert!(!votes.contains(&VoteSource::Adjacent(1)));
    assert!(takes_vote(&pairs[1], 2));
    assert!(!takes_vote(&pairs[1], 1));
    assert!(!takes_vote(&pairs[0], 2));
    assert_eq!(find_adjacent(&pairs, 2), Some(2));
    let order: Vec<usize> = neighbors_in_order(&pairs).iter().map(|pair| pair.left).collect();
    assert_eq!(order, vec![0, 1, 2, 3]);
}

#[test]
fn pairs_turn_to_votes_and_anchors() {
    assert!(!turns_to_vote(single(7.5)));
    assert!(turns_to_vote(single(8.0)));
    assert!(turns_to_vote(single(f32::NAN)));

    let flat = test_pair(2, 3, 80, 0, 0.75, [1.0, 0.0, 0.0]);
    let deep = test_pair(2, 3, 80, 0, 0.8, [1.0, 0.0, 0.0]);
    assert!(takes_anchor(&flat));
    assert!(!takes_anchor(&deep));
    assert!(takes_anchor(&test_pair(2, 3, 80, 0, f32::NAN, [1.0, 0.0, 0.0])));
    assert!(!takes_anchor(&test_pair(0, 1, 80, 0, 0.5, [1.0, 0.0, 0.0])));
    assert!(!takes_anchor(&test_pair(2, 4, 80, 0, 0.5, [1.0, 0.0, 0.0])));
    assert!(turns_to_anchor(&flat, single(1.0)));
    assert!(!turns_to_anchor(&deep, single(2.5)));
    assert!(turns_to_anchor(&deep, single(3.0)));
}

#[test]
fn ring_closures_are_estimated_quickly() {
    let config = MapperConfig::default();
    let quick = PairEstimationOptions {
        max_pose_matches: 128,
        use_hartley_refinement: false,
        use_five_point: false,
        refine_sampson: false,
    };

    assert_eq!(
        pair_effort(&config, 0, 192),
        PairEffort { iterations: 200, options: Some(quick) }
    );
    assert_eq!(pair_effort(&config, 0, 1), PairEffort { iterations: 10000, options: None });
    assert_eq!(thorough_effort(&config), PairEffort { iterations: 10000, options: None });
    let brief = MapperConfig { essential_iterations: 50, ..MapperConfig::default() };
    assert_eq!(
        pair_effort(&brief, 0, 192),
        PairEffort { iterations: 50, options: Some(quick) }
    );
}

#[test]
fn wide_pairs_keep_translations_that_agree() {
    let adjacent = test_pair(2, 3, 80, 0, 2.0, [1.0, 0.0, 0.0]);
    let wide = test_pair(0, 3, 80, 0, 2.0, [1.0, 0.0, 0.0]);

    assert!(keeps_translation(&adjacent, false, None));
    assert!(keeps_translation(&wide, true, Some(single(24.0))));
    assert!(!keeps_translation(&wide, true, Some(single(24.5))));
    assert!(keeps_translation(&wide, true, None));
    assert!(!keeps_translation(&wide, false, None));
}

#[test]
fn anchors_are_well_supported_pairs_to_the_same_image() {
    let adjacent = test_pair(2, 3, 80, 0, 0.5, [1.0, 0.0, 0.0]);
    let pairs = [
        test_pair(1, 3, 80, 0, 2.0, [1.0, 0.0, 0.0]),
        test_pair(0, 3, 80, 0, 2.0, [1.0, 0.0, 0.0]),
        test_pair(1, 3, 59, 0, 2.0, [1.0, 0.0, 0.0]),
    ];

    let best =
        best_local_translation_anchor(&adjacent, &pairs, &[single(1.0), single(2.0), single(9.0)]);
    assert_eq!(best, Some(1));
    assert_eq!(best_local_translation_anchor(&adjacent, &[], &[]), None);
}

#[test]
fn registering_the_initial_pair_sets_both_poses() {
    let frames = minimal_frames(3);
    let pairs = [pair_with_inliers(0, 1, &[(0, 0)])];
    let mut reconstruction = test_reconstruction(&frames);
    let mut manager = ObservationManager::new(&frames, &pairs, &reconstruction);

    register_initial_pair(
        &frames,
        &pairs,
        &mut reconstruction,
        &mut manager,
        (0, identity()),
        (1, pose(1.0, 0.0, 0.0)),
    );

    assert_eq!(reconstruction.poses, vec![Some(identity()), Some(pose(1.0, 0.0, 0.0)), None]);
    assert_eq!(first_registered_image(&reconstruction), Some(0));
    assert!(any_unregistered(&reconstruction));
    assert_eq!(manager.num_visible_correspondences(1), 1);
}

#[test]
fn settled_images_are_counted_and_tried_anew() {
    let frames = minimal_frames(2);
    let mut reconstruction = test_reconstruction(&frames);
    reconstruction.poses[0] = Some(identity());
    let mut stats = registration_stats(&reconstruction);
    reconstruction.poses[1] = Some(identity());
    let mut filtered_units = UnitSet::new();
    filtered_units.insert(RegistrationUnitKey::Image(1));
    let mut trials = vec![0, 3];
    let mut manager = ObservationManager::new(&frames, &[], &reconstruction);

    let filtered = settle_registration(
        &frames,
        &[],
        &mut reconstruction,
        &MapperConfig::default(),
        &mut stats,
        &mut filtered_units,
        &mut trials,
        &mut manager,
        1,
    );

    assert_eq!(filtered, 0);
    assert_eq!(trials, vec![0, 0]);
    assert!(!filtered_units.contains(&RegistrationUnitKey::Image(1)));
    assert_eq!(stats.num_total_reg_images, 2);
}

#[test]
fn matches_become_points_of_two_images() {
    let frames = minimal_frames(2);
    let pairs = [pair_with_inliers(0, 1, &[(0, 1), (5, 0)])];
    let mut reconstruction = test_reconstruction(&frames);
    register_all(&mut reconstruction);
    let mut manager = ObservationManager::new(&frames, &pairs, &reconstruction);

    assert_eq!(triangulation_candidates(&pairs[0], &frames, &reconstruction), vec![0]);
    let xyz = [0.0, 0.0, 2.0].map(single);
    assert!(triangulate_match(
        &frames,
        &pairs,
        &mut reconstruction,
        &mut manager,
        &MapperConfig::default(),
        &pairs[0],
        0,
        xyz,
        single(0.5),
    ));

    assert_eq!(reconstruction.points[0].track, vec![observation(0, 0), observation(1, 1)]);
    assert!(triangulation_candidates(&pairs[0], &frames, &reconstruction).is_empty());
    let by_image = observations_by_image(&reconstruction);
    assert_eq!(by_image, vec![vec![(0, 0)], vec![(0, 1)]]);
}

#[test]
fn new_images_join_points_that_fit() {
    let frames = minimal_frames(3);
    let pairs = [pair_with_inliers(0, 2, &[(0, 1)])];
    let mut reconstruction = test_reconstruction(&frames);
    register_all(&mut reconstruction);
    add_point(&mut reconstruction, [0.0, 0.0, 2.0], &[(0, 0), (1, 0)]);
    let mut manager = ObservationManager::new(&frames, &pairs, &reconstruction);

    let found = existing_observation_candidates(2, &frames, &pairs, &reconstruction);
    assert_eq!(found, vec![ExistingObservation { feature: 1, point_id: 0 }]);
    add_existing_observations(
        2,
        &frames,
        &pairs,
        &mut reconstruction,
        &mut manager,
        &found,
        &[single(0.5)],
        &MapperConfig::default(),
    );

    assert_eq!(reconstruction.observations[2][1], Some(0));
    assert_eq!(reconstruction.points[0].track.len(), 3);
}

#[test]
fn restarting_keeps_nothing_but_poses() {
    let frames = minimal_frames(2);
    let mut reconstruction = test_reconstruction(&frames);
    register_all(&mut reconstruction);
    add_point(&mut reconstruction, [0.0, 0.0, 2.0], &[(0, 0), (1, 0)]);
    let config = MapperConfig { pose_graph: true, ..MapperConfig::default() };
    assert!(pose_graph_applies(&config, &reconstruction));

    let poses = vec![pose(1.0, 0.0, 0.0), pose(2.0, 0.0, 0.0)];
    restart_from_poses(&mut reconstruction, &frames, &poses);

    assert_eq!(
        reconstruction.poses,
        vec![Some(pose(1.0, 0.0, 0.0)), Some(pose(2.0, 0.0, 0.0))]
    );
    assert!(reconstruction.points.is_empty());
    assert!(reconstruction.point_ids.is_empty());
    assert_eq!(reconstruction.observations, vec![vec![None, None], vec![None, None]]);
    assert!(!pose_graph_applies(&MapperConfig::default(), &reconstruction));
    reconstruction.poses[0] = None;
    assert!(!pose_graph_applies(&config, &reconstruction));
}

#[test]
fn points_to_complete_are_listed_once() {
    let frames = minimal_frames(2);
    let mut reconstruction = test_reconstruction(&frames);
    add_point(&mut reconstruction, [0.0; 3], &[(0, 0), (1, 0)]);
    add_point(&mut reconstruction, [0.0; 3], &[(0, 1), (1, 1)]);

    assert_eq!(points_to_complete(&reconstruction, &[2, 7], &vec![1]), vec![1]);
    assert_eq!(points_to_complete(&reconstruction, &[2], &vec![0]), vec![0, 1]);
}

#[test]
fn frame_correspondences_come_from_all_images_of_the_frame() {
    let frames = minimal_frames(3);
    let mut reconstruction = test_reconstruction(&frames);
    attach_two_image_rig_frame(&mut reconstruction, 1, 2);
    reconstruction.poses[0] = Some(identity());
    add_point(&mut reconstruction, [0.0; 3], &[(0, 0)]);
    add_point(&mut reconstruction, [0.0; 3], &[(0, 1)]);
    let pairs = [pair_with_inliers(0, 1, &[(0, 0)]), pair_with_inliers(0, 2, &[(1, 1)])];

    let problem =
        collect_generalized_frame_absolute_pose_problem(0, &frames, &pairs, &reconstruction)
            .unwrap();

    assert_eq!(
        problem.correspondences,
        vec![
            GeneralizedFrameInlier { image: 1, feature: 0, point_id: 0 },
            GeneralizedFrameInlier { image: 2, feature: 1, point_id: 1 },
        ]
    );
    assert_eq!(problem.images.len(), 2);
    assert_eq!(unique_generalized_frame_point_count(&problem.correspondences), 2);
    let config = MapperConfig { abs_pose_min_num_inliers: 2, ..MapperConfig::default() };
    assert!(accept_generalized_frame_pose(&problem.correspondences, &config));
    assert!(enough_frame_correspondences(&problem, &config));
    let list = &problem.correspondences;
    assert!(initial_generalized_frame_inliers(list, 2, &[true, false], &config).is_none());
    assert!(initial_generalized_frame_inliers(list, 1, &[true, true], &config).is_none());
    assert!(initial_generalized_frame_inliers(list, 2, &[true], &config).is_none());
    assert_eq!(
        initial_generalized_frame_inliers(list, 2, &[true, true], &config).as_ref(),
        Some(list)
    );
    let more = MapperConfig { abs_pose_min_num_inliers: 3, ..MapperConfig::default() };
    assert!(!enough_frame_correspondences(&problem, &more));
}

#[test]
fn scratch_models_hold_one_point_per_observation() {
    let frames = minimal_frames(2);
    let mut scratch = test_reconstruction(&frames);
    add_point(&mut scratch, [0.0; 3], &[(0, 0)]);
    let xyz = [0.0, 0.0, 2.0].map(single);

    absolute_pose_scratch_reconstruction(
        &mut scratch,
        1,
        pose(1.0, 0.0, 0.0),
        &vec![AbsolutePoseObservation { feature: 1, xyz }],
    );

    assert_eq!(scratch.poses[1], Some(pose(1.0, 0.0, 0.0)));
    assert_eq!(scratch.points.len(), 1);
    assert_eq!(scratch.points[0].xyz, xyz);
    assert_eq!(scratch.points[0].track, vec![observation(1, 1)]);
    assert_eq!(scratch.observations, vec![vec![None, None], vec![None, Some(0)]]);
}

#[test]
fn camera_parameters_vary_by_role() {
    let roles =
        CameraParameterRoles { focal: vec![0, 1], principal_point: vec![2, 3], extra: vec![4] };
    let config = MapperConfig::default();

    assert_eq!(absolute_pose_camera_params(usual_camera(), &roles, &config), vec![0, 1]);
    let mut radial = usual_camera();
    radial.num_params = 5;
    assert_eq!(absolute_pose_camera_params(radial, &roles, &config), vec![0, 1, 4]);
}

#[test]
fn inliers_of_a_pose_stay_below_the_threshold() {
    let errors = [single(1.0), single(13.0), single(12.0), single(f32::NAN)];

    assert_eq!(absolute_pose_inlier_indices(&errors, None, single(12.0)), vec![0, 2]);
    assert_eq!(
        absolute_pose_inlier_indices(
            &errors,
            Some([true, true, false, true].as_slice()),
            single(12.0)
        ),
        vec![0]
    );
}

#[test]
fn final_refinement_is_due_after_any_growth() {
    let frames = minimal_frames(3);
    let mut reconstruction = test_reconstruction(&frames);
    reconstruction.poses[0] = Some(identity());
    reconstruction.poses[1] = Some(identity());
    add_point(&mut reconstruction, [0.0; 3], &[(0, 0), (1, 0)]);
    let config = MapperConfig::default();
    let schedule = GlobalBaSchedule::new(&reconstruction);

    assert!(!should_run_final_global_ba(&schedule, &reconstruction, &config));
    reconstruction.poses[2] = Some(identity());
    assert!(should_run_final_global_ba(&schedule, &reconstruction, &config));
    assert_eq!(global_ba_size_tag(&reconstruction, &config).as_str(), "small");
    let eager = MapperConfig { global_ba_images_freq: 3, ..MapperConfig::default() };
    assert_eq!(global_ba_size_tag(&reconstruction, &eager), ModelSize::Large);
}

#[test]
fn local_refinement_follows_the_configuration() {
    assert!(local_refinement_enabled(&MapperConfig::default()));
    let off = MapperConfig { local_ba: false, ..MapperConfig::default() };
    assert!(!local_refinement_enabled(&off));
    let idle = MapperConfig { local_ba_iterations: 0, ..MapperConfig::default() };
    assert!(!local_refinement_enabled(&idle));
    let frames = minimal_frames(2);
    let reconstruction = test_reconstruction(&frames);
    assert!(!local_bundle_refinement_required(&reconstruction, 1, 0, &MapperConfig::default()));
}

#[test]
fn placed_images_take_camera_and_poses() {
    let frames = minimal_frames(3);
    let mut reconstruction = test_reconstruction(&frames);
    attach_two_image_rig_frame(&mut reconstruction, 1, 2);
    let refined = pinhole(100, 100, 65.0, 65.0, 50.0, 50.0);
    let priors = reconstruction.cameras.clone();
    let mut manager = ObservationManager::new(&frames, &[], &reconstruction);
    let choice = RegistrationChoice {
        image: 1,
        pose: pose(1.0, 0.0, 0.0),
        camera: refined,
        frame_image_poses: vec![(1, pose(1.0, 0.0, 0.0)), (2, pose(2.0, 0.0, 0.0))],
    };

    place_image(&frames, &[], &mut reconstruction, &mut manager, &choice, &priors);

    assert_eq!(reconstruction.poses[1], Some(pose(1.0, 0.0, 0.0)));
    assert_eq!(reconstruction.poses[2], Some(pose(2.0, 0.0, 0.0)));
    assert_eq!(reconstruction.cameras[0].params, refined.params);
    assert_eq!(frame_image_pose(&choice.frame_image_poses, 2), Some(pose(2.0, 0.0, 0.0)));
    assert_eq!(frame_image_pose(&choice.frame_image_poses, 0), None);
}

#[test]
fn frame_inliers_join_their_points() {
    let frames = minimal_frames(3);
    let mut reconstruction = test_reconstruction(&frames);
    register_all(&mut reconstruction);
    add_point(&mut reconstruction, [0.0; 3], &[(0, 0)]);
    let mut manager = ObservationManager::new(&frames, &[], &reconstruction);

    add_generalized_inliers(
        &frames,
        &[],
        &mut reconstruction,
        &mut manager,
        &vec![
            GeneralizedFrameInlier { image: 1, feature: 1, point_id: 0 },
            GeneralizedFrameInlier { image: 2, feature: 0, point_id: 9 },
        ],
    );

    assert_eq!(reconstruction.points[0].track, vec![observation(0, 0), observation(1, 1)]);
    assert_eq!(reconstruction.observations[2][0], None);
}

#[test]
fn frame_refinement_works_on_a_copy_of_the_frame() {
    let frames = minimal_frames(3);
    let mut reconstruction = test_reconstruction(&frames);
    attach_two_image_rig_frame(&mut reconstruction, 1, 2);
    reconstruction.poses[0] = Some(identity());
    add_point(&mut reconstruction, [0.0, 0.0, 2.0], &[(0, 0)]);
    let correspondences = vec![
        GeneralizedFrameInlier { image: 1, feature: 0, point_id: 0 },
        GeneralizedFrameInlier { image: 2, feature: 1, point_id: 0 },
    ];
    let mut scratch = reconstruction.clone();

    let usable = generalized_frame_refinement_reconstruction(
        &mut scratch,
        0,
        &reconstruction,
        &correspondences,
        rigid([3.0, 0.0, 0.0]),
        &vec![(1, pose(3.0, 0.0, 0.0)), (2, pose(4.0, 0.0, 0.0))],
        &[true, false],
    );

    assert!(usable);
    assert_eq!(scratch.points.len(), 1);
    assert_eq!(scratch.points[0].track, vec![observation(1, 0)]);
    assert_eq!(scratch.poses[2], Some(pose(4.0, 0.0, 0.0)));
    assert_eq!(scratch.frames[0].rig_from_world.tvec[0], double(3.0));
}

#[test]
fn initial_poses_need_enough_inliers() {
    let correspondences: Vec<PoseCorrespondence> =
        (0..3).map(|idx| PoseCorrespondence { feature: idx, point_id: idx }).collect();
    let config = MapperConfig { abs_pose_min_num_inliers: 2, ..MapperConfig::default() };
    let eval = Some(AbsolutePoseEval { inliers: 3, mean_error_px: single(0.5) });

    let kept =
        accept_initial_absolute_pose(eval, &correspondences, &[true, false, true], &config);
    assert_eq!(kept, Some(vec![correspondences[0], correspondences[2]]));
    let few = accept_initial_absolute_pose(eval, &correspondences, &[true, false, false], &config);
    assert_eq!(few, None);
    let none =
        accept_initial_absolute_pose(None, &correspondences, &[true, true, true], &config);
    assert_eq!(none, None);
}

#[test]
fn structureless_problems_list_images_once() {
    let frames = structureless_frames(3);
    let mut reconstruction = test_reconstruction(&frames);
    reconstruction.poses[0] = Some(identity());
    reconstruction.poses[2] = Some(identity());
    let pairs = [pair_with_inliers(1, 0, &[(0, 0), (1, 1)]), pair_with_inliers(2, 1, &[(3, 4)])];

    let problem = collect_structureless_problem(1, &frames, &pairs, &reconstruction);

    assert_eq!(problem.world_images, vec![0, 2]);
    assert_eq!(problem.world_camera_idxs, vec![0, 0, 1]);
    assert_eq!(
        problem.correspondences[2],
        StructurelessInlier { image: 1, feature: 4, other: 2, other_feature: 3 }
    );
    assert_eq!(distinct_structureless_inlier_neighbors(&problem.correspondences), 2);
    let manager = ObservationManager::new(&frames, &pairs, &reconstruction);
    let one = MapperConfig { abs_pose_min_num_inliers: 1, ..MapperConfig::default() };
    let two = MapperConfig { abs_pose_min_num_inliers: 2, ..MapperConfig::default() };
    let camera = usual_camera();
    assert!(structureless_registration_ready(&reconstruction, &one, &manager, 1, camera));
    assert!(!structureless_registration_ready(&reconstruction, &two, &manager, 1, camera));
}

#[test]
fn visible_points_are_counted_against_features() {
    let frames = minimal_frames(2);
    let pairs = [pair_with_inliers(0, 1, &[(0, 0), (1, 1)])];
    let mut reconstruction = test_reconstruction(&frames);
    reconstruction.poses[0] = Some(identity());
    add_point(&mut reconstruction, [0.0; 3], &[(0, 0)]);
    let manager = ObservationManager::new(&frames, &pairs, &reconstruction);

    assert_eq!(
        registration_visibility(&manager, 1),
        RankTerms { numerator: 1, denominator: 2 }
    );
    assert_eq!(
        registration_visibility(&manager, 7),
        RankTerms { numerator: 0, denominator: 1 }
    );
}

#[test]
fn votes_need_three_images() {
    assert!(!enough_images_to_vote(&[test_pair(0, 1, 30, 0, 1.0, [1.0, 0.0, 0.0])]));
    assert!(enough_images_to_vote(&[test_pair(1, 2, 30, 0, 1.0, [1.0, 0.0, 0.0])]));
}

#[test]
fn pairs_with_high_errors_are_counted() {
    let mut turned = test_pair(0, 1, 30, 0, 1.0, [1.0, 0.0, 0.0]);
    turned.rotation_deg = single(25.5);
    let mut off = test_pair(0, 1, 30, 0, 1.0, [1.0, 0.0, 0.0]);
    off.mean_reprojection_error_px = single(4.5);
    let mut fair = test_pair(0, 1, 30, 0, 1.0, [1.0, 0.0, 0.0]);
    fair.mean_reprojection_error_px = single(4.0);

    assert_eq!(num_high_error_pairs(&[turned, off, fair]), 2);
}

#[test]
fn statistics_remember_how_initialization_went() {
    let frames = minimal_frames(2);
    let reconstruction = test_reconstruction(&frames);
    let mut stats = registration_stats(&reconstruction);

    stats.set_initial_pair_selection_state(vec![1, 2], HashSet::from([7]));

    assert_eq!(stats.init_num_reg_trials, vec![1, 2]);
    assert!(stats.init_image_pairs.contains(&7));
}
