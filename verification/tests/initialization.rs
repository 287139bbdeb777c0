use rustsfm::absolute_pose::collect_pose_correspondences;
use rustsfm::camera_setup::{setup_for_reconstruction_attempt, ReferenceCameraSetup};
use rustsfm::colors::{
    extract_colors_for_all_registered_images, extract_colors_for_registration_unit,
    registered_color_sum, ColorExtractionReport,
};
use rustsfm::config::MapperConfig;
use rustsfm::global_ba::registered_image_count;
use rustsfm::initial_pair::{
    choose_initial_pair, reject_bad_initial_pair_after_registration, TWO_VIEW_CALIBRATED,
    TWO_VIEW_CALIBRATED_RIG,
};
use rustsfm::local_bundle::RollbackReason;
use rustsfm::mapping_attempt::{
    first_registered_image, place_image, register_initial_pair, AttemptAction, AttemptEvent,
    AttemptState, RegistrationChoice,
};
use rustsfm::next_image::{next_registration_modes, pose_source};
use rustsfm::observation_manager::ObservationManager;
use rustsfm::pipeline::{
    initialization_stage_configs, pipeline_callback_event, pipeline_result,
    IncrementalPipelineCallback, InitializationRelaxationStage, PipelineCallbackEvent,
    PipelineFailure, PipelineRun, PipelineSnapshotState,
};
use rustsfm::registration_units::registered_frame_count;
use rustsfm::scalar::{Real32, Real64};
use rustsfm::seeding::{apply_reconstruction_seed, blank_reconstruction, ReconstructionSeed};
use rustsfm::session::{IncrementalMapperSession, InitialPairFailure, InitialPairSelectionState};
use rustsfm::types::{
    CameraModel, Frame, ImageFrame, Keypoint, Match, PairGeometry, Point3D, Pose, Reconstruction,
    RelativeGeometry, Rig, RigSensor, Rigid3, SensorId, SensorType, TrackObservation,
};

fn single(x: f32) -> Real32 {
    Real32 { bits: x.to_bits() }
}

fn double(x: f64) -> Real64 {
    Real64 { bits: x.to_bits() }
}

fn pose(x: f32, y: f32, z: f32) -> Pose {
    Pose {
        qw: single(1.0),
        qx: single(0.0),
        qy: single(0.0),
        qz: single(0.0),
        tx: single(x),
        ty: single(y),
        tz: single(z),
    }
}

fn identity() -> Pose {
    pose(0.0, 0.0, 0.0)
}

fn rigid(translation: [f64; 3]) -> Rigid3 {
    Rigid3 {
        qvec: [double(1.0), double(0.0), double(0.0), double(0.0)],
        tvec: translation.map(double),
    }
}

fn pinhole(width: u32, height: u32, fx: f32, fy: f32, cx: f32, cy: f32) -> CameraModel {
    let mut params = [double(0.0); 12];
    for (slot, value) in params.iter_mut().zip([fx, fy, cx, cy]) {
        *slot = double(value as f64);
    }
    let ratio = fx / width.max(height) as f32;
    CameraModel {
        model_id: 1,
        width,
        height,
        params,
        num_params: 4,
        bogus: !(0.1..=10.0).contains(&ratio),
    }
}

fn usual_camera() -> CameraModel {
    pinhole(100, 100, 50.0, 50.0, 50.0, 50.0)
}

fn keypoint(x: f32, y: f32, width: u32, height: u32) -> Keypoint {
    Keypoint {
        x: single(x),
        y: single(y),
        cell_x: ((x / width as f32) * 32.0).clamp(0.0, 31.0) as u8,
        cell_y: ((y / height as f32) * 32.0).clamp(0.0, 31.0) as u8,
    }
}

fn observation(image: usize, feature: usize) -> TrackObservation {
    TrackObservation { image, feature }
}

fn point(xyz: [f32; 3], track: &[(usize, usize)]) -> Point3D {
    Point3D {
        xyz: xyz.map(single),
        color: [0, 0, 0],
        error: single(0.0),
        track: track.iter().map(|&(image, feature)| observation(image, feature)).collect(),
    }
}

fn relative(translation: [f32; 3]) -> RelativeGeometry {
    let norm = translation.iter().map(|t| t * t).sum::<f32>().sqrt();
    let forward_motion = if norm <= f32::EPSILON || !norm.is_finite() {
        f32::INFINITY
    } else {
        (translation[2] / norm).abs()
    };
    RelativeGeometry {
        pose: pose(translation[0], translation[1], translation[2]),
        h_matrix: None,
        qvec: None,
        tvec: None,
        forward_motion: single(forward_motion),
    }
}

fn test_pair(
    left: usize,
    right: usize,
    inliers: usize,
    triangulated: usize,
    median_triangulation_angle_deg: f32,
    translation: [f32; 3],
) -> PairGeometry {
    PairGeometry {
        left,
        right,
        two_view_config: TWO_VIEW_CALIBRATED,
        f_matrix: None,
        e_matrix: None,
        forward: relative(translation),
        backward: relative(translation.map(|t| -t)),
        matches: Vec::new(),
        inlier_matches: Vec::new(),
        inliers,
        triangulated,
        mean_reprojection_error_px: single(1.0),
        rotation_deg: single(0.0),
        median_triangulation_angle_deg: single(median_triangulation_angle_deg),
        pose_graph_only: false,
    }
}

fn matched(query_idx: u32, train_idx: u32) -> Match {
    Match { query_idx, train_idx, distance: single(0.0) }
}

fn pair_with_inliers(left: usize, right: usize, matches: &[(u32, u32)]) -> PairGeometry {
    let mut pair = test_pair(left, right, matches.len(), 0, 1.0, [1.0, 0.0, 0.0]);
    pair.inlier_matches = matches.iter().map(|&(query, train)| matched(query, train)).collect();
    pair
}

fn minimal_frame(id: usize, name: &str) -> ImageFrame {
    ImageFrame {
        id,
        name: name.to_string(),
        width: 100,
        height: 100,
        keypoints: vec![keypoint(0.0, 0.0, 100, 100), keypoint(1.0, 1.0, 100, 100)],
        strong_feature_indices: Vec::new(),
        colors: vec![[0, 0, 0], [0, 0, 0]],
    }
}

fn structureless_frames(count: usize) -> Vec<ImageFrame> {
    (0..count)
        .map(|idx| {
            let mut frame = minimal_frame(idx, &format!("image_{idx}.jpg"));
            frame.keypoints = (0..64)
                .map(|feature| {
                    let col = (feature % 8) as f32;
                    let row = (feature / 8) as f32;
                    keypoint(10.0 + col * 8.0, 12.0 + row * 7.0, 100, 100)
                })
                .collect();
            frame.colors = vec![[0, 0, 0]; frame.keypoints.len()];
            frame
        })
        .collect()
}

fn test_reconstruction(frames: &[ImageFrame]) -> Reconstruction {
    Reconstruction {
        camera: usual_camera(),
        cameras: vec![usual_camera()],
        camera_ids: vec![1],
        rigs: Vec::new(),
        frames: Vec::new(),
        image_names: frames.iter().map(|frame| frame.name.clone()).collect(),
        image_ids: (0..frames.len()).map(|idx| idx as u32 + 1).collect(),
        image_camera_indices: vec![0; frames.len()],
        image_frame_indices: vec![None; frames.len()],
        poses: vec![None; frames.len()],
        observations: frames.iter().map(|frame| vec![None; frame.keypoints.len()]).collect(),
        keypoints: frames.iter().map(|frame| frame.keypoints.clone()).collect(),
        point_ids: Vec::new(),
        points: Vec::new(),
    }
}

fn register_all(reconstruction: &mut Reconstruction) {
    for pose in &mut reconstruction.poses {
        *pose = Some(identity());
    }
}

fn add_point(reconstruction: &mut Reconstruction, xyz: [f32; 3], track: &[(usize, usize)]) {
    let index = reconstruction.points.len();
    for &(image, feature) in track {
        reconstruction.observations[image][feature] = Some(index);
    }
    reconstruction.point_ids.push(index as u64 + 1);
    reconstruction.points.push(point(xyz, track));
}

fn camera_sensor(sensor_id: u32) -> SensorId {
    SensorId { sensor_type: SensorType::Camera, sensor_id }
}

fn two_sensor_rig(rig_id: u32, reference: SensorId, other: SensorId, offset: [f64; 3]) -> Rig {
    Rig {
        rig_id,
        ref_sensor_id: Some(reference),
        sensors: vec![
            RigSensor { sensor_id: reference, sensor_from_rig: None },
            RigSensor { sensor_id: other, sensor_from_rig: Some(rigid(offset)) },
        ],
    }
}

fn bare_frame(frame_id: u32, rig_id: u32) -> Frame {
    Frame { frame_id, rig_id, rig_from_world: rigid([0.0, 0.0, 0.0]), data_ids: Vec::new() }
}

fn camera_prior_focal_flags(reconstruction: &Reconstruction, value: bool) -> Vec<bool> {
    vec![value; reconstruction.cameras.len()]
}

fn choose_initial_pair_for_test(
    pairs: &[PairGeometry],
    reconstruction: &Reconstruction,
    config: &MapperConfig,
    flags: &[bool],
) -> Option<PairGeometry> {
    let mut state = InitialPairSelectionState::from_reconstruction(reconstruction);
    choose_initial_pair(pairs, reconstruction, config, flags, &mut state)
}

#[test]
fn initial_pair_prefers_strong_non_adjacent_colmap_style_candidate() {
    let weak_adjacent = test_pair(0, 1, 120, 60, 20.0, [1.0, 0.0, 0.0]);
    let strong_non_adjacent = test_pair(0, 3, 220, 140, 25.0, [1.0, 0.1, 0.0]);
    let pairs = vec![weak_adjacent, strong_non_adjacent];
    let reconstruction = test_reconstruction(&structureless_frames(4));

    let chosen = choose_initial_pair_for_test(
        &pairs,
        &reconstruction,
        &MapperConfig::default(),
        &camera_prior_focal_flags(&reconstruction, true),
    )
    .unwrap();

    assert_eq!((chosen.left, chosen.right), (0, 3));
}

#[test]
fn initial_pair_selection_follows_colmap_prior_focal_first_ordering() {
    let strong_unknown_focal = test_pair(0, 1, 600, 500, 30.0, [1.0, 0.0, 0.0]);
    let weaker_prior_focal = test_pair(2, 3, 180, 140, 18.0, [1.0, 0.0, 0.0]);
    let pairs = vec![strong_unknown_focal, weaker_prior_focal];
    let mut reconstruction = test_reconstruction(&structureless_frames(4));
    reconstruction.cameras = vec![usual_camera(), pinhole(100, 100, 55.0, 55.0, 50.0, 50.0)];
    reconstruction.camera_ids = vec![11, 12];
    reconstruction.image_camera_indices = vec![0, 0, 1, 1];

    let chosen = choose_initial_pair_for_test(
        &pairs,
        &reconstruction,
        &MapperConfig::default(),
        &[false, true],
    )
    .unwrap();

    assert_eq!((chosen.left, chosen.right), (2, 3));
}

#[test]
fn initial_pair_selection_orients_pair_to_colmap_first_image_order() {
    let stored_as_reverse = pair_with_inliers(1, 0, &[(7, 3), (8, 4)]);
    let pairs = vec![stored_as_reverse];
    let mut reconstruction = test_reconstruction(&structureless_frames(2));
    reconstruction.cameras = vec![usual_camera(), pinhole(100, 100, 55.0, 55.0, 50.0, 50.0)];
    reconstruction.camera_ids = vec![11, 12];
    reconstruction.image_camera_indices = vec![0, 1];

    let chosen = choose_initial_pair_for_test(
        &pairs,
        &reconstruction,
        &MapperConfig {
            init_min_num_inliers: 2,
            init_min_tri_angle_deg: single(0.5),
            min_triangulated: 0,
            ..MapperConfig::default()
        },
        &[true, false],
    )
    .unwrap();

    assert_eq!((chosen.left, chosen.right), (0, 1));
    assert_eq!(chosen.inlier_matches[0].query_idx, 3);
    assert_eq!(chosen.inlier_matches[0].train_idx, 7);
    assert_eq!(chosen.forward.pose, pose(-1.0, -0.0, -0.0));
}

#[test]
fn initial_pair_rejects_forward_motion_and_low_triangulation_in_strict_pass() {
    let forward_motion = test_pair(0, 1, 300, 200, 30.0, [0.0, 0.0, 1.0]);
    let low_angle = test_pair(0, 2, 260, 180, 2.0, [1.0, 0.0, 0.0]);
    let stable = test_pair(1, 3, 140, 90, 18.0, [1.0, 0.0, 0.1]);
    let pairs = vec![forward_motion, low_angle, stable];
    let reconstruction = test_reconstruction(&structureless_frames(4));

    let chosen = choose_initial_pair_for_test(
        &pairs,
        &reconstruction,
        &MapperConfig::default(),
        &camera_prior_focal_flags(&reconstruction, true),
    )
    .unwrap();

    assert_eq!((chosen.left, chosen.right), (1, 3));
}

#[test]
fn initial_pair_returns_none_when_no_pair_passes_colmap_checks() {
    let forward_motion = test_pair(0, 1, 300, 200, 30.0, [0.0, 0.0, 1.0]);
    let low_angle = test_pair(0, 2, 260, 180, 2.0, [1.0, 0.0, 0.0]);
    let low_inliers = test_pair(1, 3, 50, 90, 18.0, [1.0, 0.0, 0.1]);
    let pairs = vec![forward_motion, low_angle, low_inliers];
    let reconstruction = test_reconstruction(&structureless_frames(4));

    assert!(choose_initial_pair_for_test(
        &pairs,
        &reconstruction,
        &MapperConfig::default(),
        &camera_prior_focal_flags(&reconstruction, true),
    )
    .is_none());
}

#[test]
fn initial_pair_skips_images_from_same_frame() {
    let same_frame = test_pair(0, 1, 500, 450, 25.0, [1.0, 0.0, 0.0]);
    let cross_frame = test_pair(1, 2, 180, 140, 18.0, [1.0, 0.0, 0.0]);
    let pairs = vec![same_frame, cross_frame];
    let mut reconstruction = test_reconstruction(&structureless_frames(3));
    reconstruction.frames = vec![bare_frame(9, 3)];
    reconstruction.image_frame_indices[0] = Some(0);
    reconstruction.image_frame_indices[1] = Some(0);

    let chosen = choose_initial_pair_for_test(
        &pairs,
        &reconstruction,
        &MapperConfig::default(),
        &camera_prior_focal_flags(&reconstruction, true),
    )
    .unwrap();

    assert_eq!((chosen.left, chosen.right), (1, 2));
}

#[test]
fn initial_pair_requires_calibrated_rig_config_for_non_trivial_rigs() {
    let regular = test_pair(0, 1, 500, 450, 25.0, [1.0, 0.0, 0.0]);
    let mut rig_pair = test_pair(0, 2, 300, 240, 20.0, [1.0, 0.0, 0.0]);
    rig_pair.two_view_config = TWO_VIEW_CALIBRATED_RIG;
    let pairs = vec![regular, rig_pair];
    let mut reconstruction = test_reconstruction(&structureless_frames(3));
    reconstruction.rigs =
        vec![two_sensor_rig(3, camera_sensor(11), camera_sensor(12), [1.0, 0.0, 0.0])];
    reconstruction.frames = vec![bare_frame(9, 3), bare_frame(10, 3), bare_frame(11, 3)];
    reconstruction.image_frame_indices = vec![Some(0), Some(1), Some(2)];

    let chosen = choose_initial_pair_for_test(
        &pairs,
        &reconstruction,
        &MapperConfig::default(),
        &camera_prior_focal_flags(&reconstruction, true),
    )
    .unwrap();

    assert_eq!((chosen.left, chosen.right), (0, 2));
    assert_eq!(chosen.two_view_config, TWO_VIEW_CALIBRATED_RIG);
}

#[test]
fn initial_pair_default_init_trial_limit_matches_colmap() {
    assert_eq!(MapperConfig::default().init_max_reg_trials, 2);
}

#[test]
fn initialization_defaults_match_colmap_pipeline_trials() {
    assert_eq!(MapperConfig::default().init_num_trials, 200);
}

#[test]
fn initialization_relaxation_schedule_matches_colmap_order() {
    let config = MapperConfig {
        init_num_trials: 3,
        init_min_num_inliers: 100,
        init_min_tri_angle_deg: single(16.0),
        ..MapperConfig::default()
    };
    let stages = initialization_stage_configs(&config);

    assert_eq!(
        stages.iter().map(|stage| stage.stage).collect::<Vec<_>>(),
        vec![
            InitializationRelaxationStage::Strict,
            InitializationRelaxationStage::MinInliersRelaxed(1),
            InitializationRelaxationStage::MinTriAngleRelaxed(1),
            InitializationRelaxationStage::MinInliersRelaxed(2),
            InitializationRelaxationStage::MinTriAngleRelaxed(2),
        ]
    );
    assert_eq!(
        stages.iter().map(|stage| stage.init_min_num_inliers).collect::<Vec<_>>(),
        vec![100, 50, 50, 25, 25]
    );
    assert_eq!(
        stages
            .iter()
            .map(|stage| f32::from_bits(stage.init_min_tri_angle_deg.bits))
            .collect::<Vec<_>>(),
        vec![16.0, 16.0, 8.0, 8.0, 4.0]
    );
    assert_eq!(
        stages.iter().map(|stage| stage.stage.name()).collect::<Vec<_>>(),
        vec![
            "strict",
            "relaxed_min_inliers",
            "relaxed_min_tri_angle",
            "relaxed_min_inliers",
            "relaxed_min_tri_angle",
        ]
    );
}

#[test]
fn relaxed_inlier_limit_stays_positive() {
    let config = MapperConfig { init_min_num_inliers: 1, ..MapperConfig::default() };

    let stages = initialization_stage_configs(&config);

    assert!(stages.iter().all(|stage| stage.init_min_num_inliers == 1));
}

#[test]
fn relaxed_initialization_can_select_pair_rejected_by_strict_inlier_gate() {
    let pairs = vec![test_pair(0, 1, 60, 50, 20.0, [1.0, 0.0, 0.0])];
    let reconstruction = test_reconstruction(&structureless_frames(2));
    let strict_config = MapperConfig { init_min_num_inliers: 100, ..MapperConfig::default() };
    let relaxed_config = MapperConfig {
        init_min_num_inliers: strict_config.init_min_num_inliers / 2,
        ..strict_config.clone()
    };
    let focal_flags = camera_prior_focal_flags(&reconstruction, true);
    let mut session = IncrementalMapperSession::new();
    let mut strict_state = session.initial_pair_selection_state(&reconstruction);

    assert!(choose_initial_pair(
        &pairs,
        &reconstruction,
        &strict_config,
        &focal_flags,
        &mut strict_state,
    )
    .is_none());

    session.commit_initial_pair_selection_state(&reconstruction, &strict_state);
    session.reset_initialization_stats();
    let mut relaxed_state = session.initial_pair_selection_state(&reconstruction);
    let relaxed = choose_initial_pair(
        &pairs,
        &reconstruction,
        &relaxed_config,
        &focal_flags,
        &mut relaxed_state,
    )
    .unwrap();

    assert_eq!((relaxed.left, relaxed.right), (0, 1));
}

fn strong_and_weaker_pair() -> Vec<PairGeometry> {
    vec![
        test_pair(0, 1, 600, 500, 30.0, [1.0, 0.0, 0.0]),
        test_pair(2, 3, 180, 140, 18.0, [1.0, 0.0, 0.0]),
    ]
}

#[test]
fn initial_pair_skips_first_images_that_reached_init_trial_limit() {
    let reconstruction = test_reconstruction(&structureless_frames(4));
    let mut state = InitialPairSelectionState::from_reconstruction(&reconstruction);
    state.init_num_reg_trials[0] = MapperConfig::default().init_max_reg_trials;
    state.init_num_reg_trials[1] = MapperConfig::default().init_max_reg_trials;

    let chosen = choose_initial_pair(
        &strong_and_weaker_pair(),
        &reconstruction,
        &MapperConfig::default(),
        &camera_prior_focal_flags(&reconstruction, true),
        &mut state,
    )
    .unwrap();

    assert_eq!((chosen.left, chosen.right), (2, 3));
}

#[test]
fn initial_pair_skips_images_registered_in_other_reconstruction() {
    let reconstruction = test_reconstruction(&structureless_frames(4));
    let mut state = InitialPairSelectionState::from_reconstruction(&reconstruction);
    state.num_registrations[0] = 1;

    let chosen = choose_initial_pair(
        &strong_and_weaker_pair(),
        &reconstruction,
        &MapperConfig::default(),
        &camera_prior_focal_flags(&reconstruction, true),
        &mut state,
    )
    .unwrap();

    assert_eq!((chosen.left, chosen.right), (2, 3));
}

#[test]
fn initial_pair_suppresses_already_tried_pairs() {
    let reconstruction = test_reconstruction(&structureless_frames(4));
    let mut state = InitialPairSelectionState::from_reconstruction(&reconstruction);
    state.mark_initial_pair_tried(&reconstruction, 0, 1);

    let chosen = choose_initial_pair(
        &strong_and_weaker_pair(),
        &reconstruction,
        &MapperConfig::default(),
        &camera_prior_focal_flags(&reconstruction, true),
        &mut state,
    )
    .unwrap();

    assert_eq!((chosen.left, chosen.right), (2, 3));
}

#[test]
fn initial_pair_session_keeps_tried_pairs_across_reconstruction_attempts() {
    let pairs = strong_and_weaker_pair();
    let reconstruction = test_reconstruction(&structureless_frames(4));
    let config = MapperConfig::default();
    let focal_flags = camera_prior_focal_flags(&reconstruction, true);
    let mut session = IncrementalMapperSession::new();

    let mut first_state = session.initial_pair_selection_state(&reconstruction);
    let first =
        choose_initial_pair(&pairs, &reconstruction, &config, &focal_flags, &mut first_state)
            .unwrap();
    first_state.register_initial_pair(&reconstruction, first.left, first.right);
    session.commit_initial_pair_selection_state(&reconstruction, &first_state);

    let mut second_state = session.initial_pair_selection_state(&reconstruction);
    let second =
        choose_initial_pair(&pairs, &reconstruction, &config, &focal_flags, &mut second_state)
            .unwrap();

    assert_eq!((first.left, first.right), (0, 1));
    assert_eq!((second.left, second.right), (2, 3));
}

#[test]
fn initial_pair_session_reset_matches_colmap_relaxation_reset() {
    let pairs = strong_and_weaker_pair();
    let reconstruction = test_reconstruction(&structureless_frames(4));
    let config = MapperConfig::default();
    let focal_flags = camera_prior_focal_flags(&reconstruction, true);
    let mut session = IncrementalMapperSession::new();

    let mut first_state = session.initial_pair_selection_state(&reconstruction);
    let first =
        choose_initial_pair(&pairs, &reconstruction, &config, &focal_flags, &mut first_state)
            .unwrap();
    first_state.register_initial_pair(&reconstruction, first.left, first.right);
    session.commit_initial_pair_selection_state(&reconstruction, &first_state);

    session.reset_initialization_stats();
    let mut reset_state = session.initial_pair_selection_state(&reconstruction);
    let reset_choice =
        choose_initial_pair(&pairs, &reconstruction, &config, &focal_flags, &mut reset_state)
            .unwrap();

    assert_eq!((reset_choice.left, reset_choice.right), (0, 1));
}

#[test]
fn initial_pair_session_counts_kept_and_discarded_registrations_like_colmap() {
    let mut reconstruction = test_reconstruction(&structureless_frames(2));
    register_all(&mut reconstruction);
    let mut session = IncrementalMapperSession::new();

    session.end_reconstruction(&reconstruction, false);
    let kept_state = session.initial_pair_selection_state(&reconstruction);
    assert_eq!(kept_state.num_registrations, vec![1, 1]);

    session.end_reconstruction(&reconstruction, true);
    let discarded_state = session.initial_pair_selection_state(&reconstruction);
    assert_eq!(discarded_state.num_registrations, vec![0, 0]);
}

#[test]
fn initial_pair_session_shared_images_are_current_submodel_only_like_colmap() {
    let frames = structureless_frames(5);
    let with_poses = |images: &[usize]| {
        let mut reconstruction = test_reconstruction(&frames);
        for &image in images {
            reconstruction.poses[image] = Some(identity());
        }
        reconstruction
    };
    let mut session = IncrementalMapperSession::new();
    let first = with_poses(&[0, 1]);
    session.begin_reconstruction(&first);
    assert_eq!(session.num_shared_registered_image_events(), 0);
    session.end_reconstruction(&first, false);
    assert_eq!(session.num_total_registered_images(), 2);
    assert_eq!(session.num_shared_registered_image_events(), 0);

    let second = with_poses(&[0, 2]);
    session.begin_reconstruction(&second);
    assert_eq!(session.num_shared_registered_image_events(), 1);
    session.end_reconstruction(&second, false);
    assert_eq!(session.num_total_registered_images(), 3);
    assert_eq!(session.num_shared_registered_image_events(), 1);

    let third = with_poses(&[3, 4]);
    session.begin_reconstruction(&third);
    assert_eq!(session.num_shared_registered_image_events(), 0);
    session.end_reconstruction(&third, false);
    assert_eq!(session.num_total_registered_images(), 5);
    assert_eq!(session.num_shared_registered_image_events(), 0);

    let fourth = with_poses(&[0, 3]);
    session.begin_reconstruction(&fourth);
    assert_eq!(session.num_shared_registered_image_events(), 2);
    session.end_reconstruction(&fourth, true);
    assert_eq!(session.num_total_registered_images(), 5);
    assert_eq!(session.num_shared_registered_image_events(), 0);
}

#[test]
fn bad_initial_pair_retries_next_pair_in_same_stage_like_colmap() {
    let frames = structureless_frames(4);
    let reconstruction = test_reconstruction(&frames);
    let pairs = [
        test_pair(0, 1, 400, 300, 20.0, [1.0, 0.0, 0.0]),
        test_pair(2, 3, 12, 12, 6.0, [0.45, 0.0, 0.0]),
    ];
    let config = MapperConfig {
        init_num_trials: 2,
        init_min_num_inliers: 4,
        init_min_tri_angle_deg: single(0.5),
        min_triangulated: 0,
        abs_pose_min_num_inliers: 4,
        local_ba: false,
        global_ba: false,
        ..MapperConfig::default()
    };
    let focal_flags = camera_prior_focal_flags(&reconstruction, true);
    let mut session = IncrementalMapperSession::new();
    let mut run = PipelineRun::new(&config);

    let attempt = run.next_single_attempt(&config, &mut session).unwrap();
    assert_eq!((attempt.stage, attempt.trial), (0, 0));
    let mut state = AttemptState::start(None);
    let mut selection = session.initial_pair_selection_state(&reconstruction);
    let bad =
        choose_initial_pair(&pairs, &reconstruction, &config, &focal_flags, &mut selection)
            .unwrap();
    assert_eq!((bad.left, bad.right), (0, 1));
    selection.register_initial_pair(&reconstruction, bad.left, bad.right);
    session.commit_initial_pair_selection_state(&reconstruction, &selection);
    state.advance(AttemptEvent::InitialPair(Some((0, 1))));
    assert_eq!(state.action, AttemptAction::BuildInitialPair { left: 0, right: 1 });
    assert!(reject_bad_initial_pair_after_registration(&reconstruction, &config).is_err());
    state.advance(AttemptEvent::Checked(false));
    assert_eq!(state.action, AttemptAction::Fail(InitialPairFailure::BadInitialPair));
    assert_eq!(InitialPairFailure::BadInitialPair.message(), "bad initial pair");
    run.record_failure(&config, false);

    let attempt = run.next_single_attempt(&config, &mut session).unwrap();
    assert_eq!((attempt.stage, attempt.trial), (0, 1));
    let mut selection = session.initial_pair_selection_state(&reconstruction);
    let good =
        choose_initial_pair(&pairs, &reconstruction, &config, &focal_flags, &mut selection)
            .unwrap();
    assert_eq!((good.left, good.right), (2, 3));
    assert_eq!((good.inliers, good.triangulated), (12, 12));
    run.record_single_model();
    assert_eq!(run.models, 1);
    assert_eq!(run.next_single_attempt(&config, &mut session), None);
}

fn pipeline_config() -> MapperConfig {
    MapperConfig {
        multiple_models: true,
        max_num_models: 2,
        min_model_size: 3,
        init_num_trials: 1,
        init_min_num_inliers: 4,
        init_min_tri_angle_deg: single(0.5),
        min_triangulated: 0,
        abs_pose_min_num_inliers: 4,
        local_ba: false,
        global_ba: false,
        ..MapperConfig::default()
    }
}

#[test]
fn pipeline_keeps_first_small_model_and_discards_later_small_models_like_colmap() {
    let frames = structureless_frames(6);
    let config = pipeline_config();
    let model = |left: usize, right: usize| {
        let mut reconstruction = test_reconstruction(&frames);
        reconstruction.poses[left] = Some(identity());
        reconstruction.poses[right] = Some(identity());
        reconstruction
    };
    let mut session = IncrementalMapperSession::new();
    let mut run = PipelineRun::new(&config);

    let attempt = run.next_attempt(&config, &mut session, frames.len()).unwrap();
    assert!(attempt.uses_seed);
    assert_eq!(attempt.model_index, 0);
    let first = model(0, 1);
    session.begin_reconstruction(&first);
    session.end_reconstruction(&first, false);
    assert!(run.record_model(&config, &mut session, &first, frames.len()));

    let attempt = run.next_attempt(&config, &mut session, frames.len()).unwrap();
    assert!(!attempt.uses_seed);
    assert_eq!((attempt.stage, attempt.model_index), (1, 1));
    let second = model(2, 3);
    session.begin_reconstruction(&second);
    session.end_reconstruction(&second, false);
    assert_eq!(session.num_total_registered_images(), 4);
    assert!(!run.record_model(&config, &mut session, &second, frames.len()));

    assert_eq!(run.models, 1);
    assert_eq!(session.num_total_registered_images(), 2);
}

#[test]
fn pipeline_without_initial_pairs_goes_through_all_stages() {
    let config = pipeline_config();
    let mut session = IncrementalMapperSession::new();
    let mut run = PipelineRun::new(&config);
    let mut stages = Vec::new();
    while let Some(attempt) = run.next_attempt(&config, &mut session, 6) {
        stages.push(attempt.stage);
        run.record_failure(&config, true);
    }

    assert_eq!(stages, vec![0, 1, 2, 3, 4]);
    assert_eq!(pipeline_result(run.models, true), Err(PipelineFailure::AttemptsFailed));
    assert_eq!(pipeline_result(0, false), Err(PipelineFailure::NoModelKept));
    assert_eq!(pipeline_result(2, true), Ok(2));
}

#[test]
fn pipeline_stops_when_all_but_one_image_are_registered() {
    let frames = structureless_frames(3);
    let config = pipeline_config();
    let mut session = IncrementalMapperSession::new();
    let mut run = PipelineRun::new(&config);
    assert!(run.next_attempt(&config, &mut session, frames.len()).is_some());
    let mut model = test_reconstruction(&frames);
    model.poses[0] = Some(identity());
    model.poses[1] = Some(identity());
    session.end_reconstruction(&model, false);
    assert!(run.record_model(&config, &mut session, &model, frames.len()));

    assert!(run.next_attempt(&config, &mut session, frames.len()).is_none());
    assert!(run.finished);
}

#[test]
fn pipeline_writes_sparse_snapshots_after_registered_frame_frequency_like_colmap() {
    let frames = structureless_frames(3);
    let mut reconstruction = test_reconstruction(&frames);
    reconstruction.poses[0] = Some(identity());
    reconstruction.poses[1] = Some(identity());
    let config = MapperConfig {
        snapshot_path: Some("snapshots".to_string()),
        snapshot_frames_freq: 1,
        ..MapperConfig::default()
    };
    let mut snapshots = PipelineSnapshotState::new(&reconstruction);
    let first = snapshots.next_index;

    assert_eq!(snapshots.take_snapshot(&reconstruction, &config), None);
    reconstruction.poses[2] = Some(identity());
    assert_eq!(snapshots.take_snapshot(&reconstruction, &config), Some(1));
    assert_eq!(first, 0);
    assert_eq!(snapshots.previous_registered_frames, 3);
    assert_eq!(snapshots.take_snapshot(&reconstruction, &config), None);
    assert_eq!(snapshots.take_snapshot(&reconstruction, &MapperConfig::default()), None);
}

#[test]
fn pipeline_callback_events_follow_colmap_controller_order() {
    let mut state = AttemptState::start(None);
    let mut actions = Vec::new();
    for event in [
        AttemptEvent::InitialPair(Some((0, 1))),
        AttemptEvent::Checked(true),
        AttemptEvent::Checked(true),
        AttemptEvent::Carried,
        AttemptEvent::NextImage(Some(2)),
        AttemptEvent::Registered(None),
        AttemptEvent::Carried,
        AttemptEvent::Carried,
        AttemptEvent::NextImage(None),
        AttemptEvent::Carried,
    ] {
        actions.push(state.action);
        state.advance(event);
    }

    assert_eq!(
        actions,
        vec![
            AttemptAction::ChooseInitialPair,
            AttemptAction::BuildInitialPair { left: 0, right: 1 },
            AttemptAction::RefineInitialModel { gauge_image: 0 },
            AttemptAction::ReportInitialPair { left: 0, right: 1 },
            AttemptAction::ChooseNextImage,
            AttemptAction::RegisterImage { image: 2 },
            AttemptAction::SettleImage { image: 2 },
            AttemptAction::ReportImage { image: 2 },
            AttemptAction::ChooseNextImage,
            AttemptAction::Finish,
        ]
    );
    assert_eq!(state.action, AttemptAction::Done);
}

/// Carries an attempt out: an initial pair yields one point per feature, and a
/// registered image joins the points it corresponds to.
fn carry_out_attempt(
    frames: &[ImageFrame],
    pairs: &[PairGeometry],
    model: &mut Reconstruction,
    initial_pair: Option<(usize, usize)>,
    model_index: usize,
) -> (Vec<AttemptAction>, Vec<PipelineCallbackEvent>) {
    let mut manager = ObservationManager::new(frames, pairs, model);
    let mut state = AttemptState::start(first_registered_image(model));
    let mut actions = Vec::new();
    let mut events = Vec::new();
    loop {
        actions.push(state.action);
        if let Some(callback) = state.action.callback() {
            events.push(pipeline_callback_event(callback, model_index, model));
        }
        let event = match state.action {
            AttemptAction::ChooseInitialPair => AttemptEvent::InitialPair(initial_pair),
            AttemptAction::BuildInitialPair { left, right } => {
                let ends = ((left, identity()), (right, pose(-0.35, 0.0, 0.0)));
                register_initial_pair(frames, pairs, model, &mut manager, ends.0, ends.1);
                for idx in 0..frames[left].keypoints.len() {
                    let added = point([0.0, 0.0, 3.0], &[(left, idx), (right, idx)]);
                    assert!(manager.add_point3d(frames, pairs, model, added).is_some());
                }
                AttemptEvent::Checked(true)
            }
            AttemptAction::RefineInitialModel { .. } => AttemptEvent::Checked(true),
            AttemptAction::ChooseNextImage => {
                AttemptEvent::NextImage(model.poses.iter().position(Option::is_none))
            }
            AttemptAction::RegisterImage { image } => {
                let found = collect_pose_correspondences(image, frames, pairs, model);
                let choice = RegistrationChoice {
                    image,
                    pose: pose(0.45, 0.0, 0.0),
                    camera: model.camera_for_image(image),
                    frame_image_poses: Vec::new(),
                };
                let priors = model.cameras.clone();
                place_image(frames, pairs, model, &mut manager, &choice, &priors);
                for c in found {
                    let own = observation(image, c.feature);
                    assert!(manager.add_observation(frames, pairs, model, c.point_id, own));
                }
                AttemptEvent::Registered(None)
            }
            AttemptAction::Done => return (actions, events),
            AttemptAction::Rollback { .. } | AttemptAction::Fail(_) => unreachable!(),
            _ => AttemptEvent::Carried,
        };
        state.advance(event);
    }
}

fn twelve_feature_frames(count: usize) -> Vec<ImageFrame> {
    let mut frames = structureless_frames(count);
    for frame in &mut frames {
        frame.keypoints.truncate(12);
        frame.colors.truncate(12);
    }
    frames
}

fn fully_matched_pairs(count: usize) -> Vec<PairGeometry> {
    let matches: Vec<(u32, u32)> = (0..12).map(|idx| (idx, idx)).collect();
    (0..count)
        .flat_map(|left| (left + 1..count).map(move |right| (left, right)))
        .map(|(left, right)| pair_with_inliers(left, right, &matches))
        .collect()
}

#[test]
fn pipeline_callback_sink_receives_colmap_controller_events_with_payloads() {
    let frames = twelve_feature_frames(3);
    let pairs = fully_matched_pairs(3);
    let camera = pinhole(200, 160, 80.0, 80.0, 100.0, 80.0);
    let config = MapperConfig {
        multiple_models: false,
        init_num_trials: 1,
        init_min_num_inliers: 4,
        init_min_tri_angle_deg: single(0.5),
        min_triangulated: 0,
        abs_pose_min_num_inliers: 4,
        local_ba: false,
        global_ba: false,
        ..MapperConfig::default()
    };
    let mut session = IncrementalMapperSession::new();
    let mut run = PipelineRun::new(&config);
    let mut models = Vec::new();
    let mut events = Vec::new();
    while let Some(next) = run.next_attempt(&config, &mut session, frames.len()) {
        let (mut model, _, _) = blank_reconstruction(&frames, camera, None);
        session.begin_reconstruction(&model);
        let (_, mut reported) =
            carry_out_attempt(&frames, &pairs, &mut model, Some((0, 1)), next.model_index);
        events.append(&mut reported);
        session.end_reconstruction(&model, false);
        let keep = run.record_model(&config, &mut session, &model, frames.len());
        events.push(pipeline_callback_event(
            IncrementalPipelineCallback::LastImageReg,
            next.model_index,
            &model,
        ));
        if keep {
            models.push(model);
        }
    }

    assert_eq!(
        events.iter().map(|event| event.callback).collect::<Vec<_>>(),
        vec![
            IncrementalPipelineCallback::InitialImagePairReg,
            IncrementalPipelineCallback::NextImageReg,
            IncrementalPipelineCallback::LastImageReg,
        ]
    );
    assert_eq!(
        events.iter().map(|event| event.callback.as_str()).collect::<Vec<_>>(),
        vec!["initial_image_pair_reg", "next_image_reg", "last_image_reg"]
    );
    assert_eq!(events[0].model_index, 0);
    assert_eq!(events[0].registered_images, 2);
    assert_eq!(events[0].registered_frames, 2);
    assert_eq!(events[0].points, 12);
    assert_eq!(events[1].registered_images, 3);
    assert_eq!(events[1].registered_frames, 3);
    assert_eq!(events[1].points, 12);
    assert_eq!(events[2].registered_images, 3);
    assert_eq!(events[2].registered_frames, 3);
    assert_eq!(events[2].points, 12);
    assert_eq!(models.len(), 1);
    assert!(models[0].poses.iter().all(Option::is_some));
}

#[test]
fn pipeline_extracts_colors_after_each_successful_registration_like_colmap() {
    let mut frames = structureless_frames(3);
    for (image, frame) in frames.iter_mut().enumerate() {
        frame.colors = vec![[image as u8 + 1, 20, 30]; frame.keypoints.len()];
    }
    let mut reconstruction = test_reconstruction(&frames);
    register_all(&mut reconstruction);
    for idx in 0..12 {
        add_point(&mut reconstruction, [0.0, 0.0, 3.0], &[(0, idx), (1, idx), (2, idx)]);
    }
    let config = MapperConfig::default();

    let updated: Vec<(usize, usize)> = (0..3)
        .map(|image| {
            let report = extract_colors_for_registration_unit(
                &frames,
                &mut reconstruction,
                image,
                &config,
            );
            (report.images, report.updated_points)
        })
        .collect();
    assert_eq!(updated, vec![(1, 12), (1, 0), (1, 0)]);
    let means: Vec<[u8; 3]> = (0..reconstruction.points.len())
        .map(|point| {
            let sum = registered_color_sum(&frames, &reconstruction, point);
            [sum.red, sum.green, sum.blue].map(|channel| (channel / sum.count) as u8)
        })
        .collect();
    let report =
        extract_colors_for_all_registered_images(&frames, &mut reconstruction, &config, &means);

    assert_eq!(report, ColorExtractionReport { images: 3, updated_points: 12 });
    assert!(reconstruction.points.iter().all(|point| point.color == [2, 20, 30]));
}

fn seeded_setup(image_count: usize, poses: Vec<Option<Pose>>) -> ReferenceCameraSetup {
    let camera = pinhole(200, 160, 80.0, 80.0, 100.0, 80.0);
    let mut observations = vec![Vec::new(); image_count];
    for (image, pose) in poses.iter().enumerate() {
        if pose.is_some() {
            observations[image] = (0..12).map(Some).collect();
        }
    }
    let track: Vec<usize> = (0..image_count).filter(|&image| poses[image].is_some()).collect();
    ReferenceCameraSetup {
        cameras: vec![camera],
        camera_ids: vec![1],
        camera_has_prior_focal_length: vec![true],
        rigs: Vec::new(),
        frames: Vec::new(),
        image_ids: (0..image_count).map(|image| image as u32 + 1).collect(),
        image_camera_indices: vec![0; image_count],
        image_frame_indices: vec![None; image_count],
        seed_reconstruction: Some(ReconstructionSeed {
            poses,
            observations,
            point_ids: (0..12).map(|idx| idx + 100).collect(),
            points: (0..12)
                .map(|idx| {
                    let track: Vec<(usize, usize)> =
                        track.iter().map(|&image| (image, idx)).collect();
                    point([0.0, 0.0, 3.0], &track)
                })
                .collect(),
        }),
    }
}

#[test]
fn seeded_reconstruction_continues_without_initial_pair_like_colmap() {
    let frames = twelve_feature_frames(3);
    let pairs = fully_matched_pairs(3);
    let camera = pinhole(200, 160, 80.0, 80.0, 100.0, 80.0);
    let setup = seeded_setup(3, vec![Some(identity()), Some(pose(-0.35, 0.0, 0.0)), None]);

    let (mut reconstruction, flags, seed) = blank_reconstruction(&frames, camera, Some(setup));
    apply_reconstruction_seed(&mut reconstruction, seed.unwrap(), &frames);
    assert_eq!(flags, vec![true]);
    assert_eq!(registered_image_count(&reconstruction), 2);
    assert_eq!(reconstruction.points.len(), 12);
    let mode = next_registration_modes(&MapperConfig::default(), false)[0];
    assert_eq!(pose_source(mode, false).as_str(), "pnp");
    let (actions, events) =
        carry_out_attempt(&frames, &pairs, &mut reconstruction, None, 0);

    assert_eq!(
        actions,
        vec![
            AttemptAction::RefineInitialModel { gauge_image: 0 },
            AttemptAction::ChooseNextImage,
            AttemptAction::RegisterImage { image: 2 },
            AttemptAction::SettleImage { image: 2 },
            AttemptAction::ReportImage { image: 2 },
            AttemptAction::ChooseNextImage,
            AttemptAction::Finish,
            AttemptAction::Done,
        ]
    );
    assert!(events
        .iter()
        .all(|event| event.callback == IncrementalPipelineCallback::NextImageReg));
    assert!(reconstruction.poses.iter().all(Option::is_some));
    assert_eq!(reconstruction.poses[2], Some(pose(0.45, 0.0, 0.0)));
    assert_eq!(reconstruction.point_ids[0], 100);
    assert!(reconstruction
        .points
        .iter()
        .any(|point| point.track.iter().any(|obs| obs.image == 2)));
    assert_eq!(reconstruction.points[3].track.last(), Some(&observation(2, 3)));
}

#[test]
fn continuation_seed_is_only_reused_for_first_trial_like_colmap_manager_index_zero() {
    let frames = structureless_frames(3);
    let camera = pinhole(200, 160, 80.0, 80.0, 100.0, 80.0);
    let setup = seeded_setup(3, vec![Some(identity()), None, None]);
    let config = MapperConfig {
        min_model_size: 2,
        init_num_trials: 2,
        abs_pose_min_num_inliers: 1,
        ..pipeline_config()
    };
    let mut session = IncrementalMapperSession::new();
    let mut run = PipelineRun::new(&config);
    let mut models = Vec::new();
    while let Some(attempt) = run.next_attempt(&config, &mut session, frames.len()) {
        let attempt_setup =
            setup_for_reconstruction_attempt(Some(setup.clone()), attempt.uses_seed);
        let (mut model, _, seed) = blank_reconstruction(&frames, camera, attempt_setup);
        match seed {
            Some(seed) => apply_reconstruction_seed(&mut model, seed, &frames),
            None => {
                model.poses[1] = Some(identity());
                model.poses[2] = Some(identity());
            }
        }
        session.begin_reconstruction(&model);
        session.end_reconstruction(&model, false);
        if run.record_model(&config, &mut session, &model, frames.len()) {
            models.push(model);
        }
    }

    assert_eq!(models.len(), 2);
    assert!(models[0].poses[0].is_some());
    assert!(models[0].poses[1].is_none());
    assert!(models[1].poses[0].is_none());
    assert!(models[1].poses[1].is_some());
    assert!(models[1].poses[2].is_some());
}

#[test]
fn rig_frame_continuation_seed_is_only_reused_for_first_trial_like_colmap() {
    let frames = structureless_frames(4);
    let camera = pinhole(200, 160, 80.0, 80.0, 100.0, 80.0);
    let mut setup =
        seeded_setup(4, vec![Some(identity()), Some(pose(-0.35, 0.0, 0.0)), None, None]);
    setup.rigs = vec![two_sensor_rig(10, camera_sensor(1), camera_sensor(2), [0.35, 0.0, 0.0])];
    setup.frames = vec![bare_frame(20, 10)];
    setup.image_frame_indices = vec![Some(0), Some(0), None, None];
    let config = MapperConfig {
        init_num_trials: 2,
        abs_pose_min_num_inliers: 1,
        ..pipeline_config()
    };
    let mut session = IncrementalMapperSession::new();
    let mut run = PipelineRun::new(&config);
    let mut models = Vec::new();
    while let Some(attempt) = run.next_attempt(&config, &mut session, frames.len()) {
        let attempt_setup =
            setup_for_reconstruction_attempt(Some(setup.clone()), attempt.uses_seed);
        let (mut model, _, seed) = blank_reconstruction(&frames, camera, attempt_setup);
        match seed {
            Some(seed) => apply_reconstruction_seed(&mut model, seed, &frames),
            None => {
                model.poses[2] = Some(identity());
                model.poses[3] = Some(identity());
            }
        }
        session.begin_reconstruction(&model);
        session.end_reconstruction(&model, false);
        if run.record_model(&config, &mut session, &model, frames.len()) {
            models.push(model);
        }
    }

    assert_eq!(models.len(), 2);
    assert_eq!(registered_frame_count(&models[0]), 1);
    assert!(models[0].poses[0].is_some());
    assert!(models[0].poses[1].is_some());
    assert!(models[1].poses[0].is_none());
    assert!(models[1].poses[1].is_none());
    assert!(models[1].poses[2].is_some());
    assert!(models[1].poses[3].is_some());
}

#[test]
fn attempts_without_an_initial_pair_fail() {
    let mut state = AttemptState::start(None);
    state.advance(AttemptEvent::InitialPair(None));

    assert_eq!(state.action, AttemptAction::Fail(InitialPairFailure::NoInitialPair));
    let failed = state;
    state.advance(AttemptEvent::Carried);
    assert_eq!(state, failed);
}

#[test]
fn rolled_back_images_make_room_for_the_next_choice() {
    let mut state = AttemptState::start(Some(3));
    state.advance(AttemptEvent::Checked(true));
    state.advance(AttemptEvent::NextImage(Some(5)));
    state.advance(AttemptEvent::Registered(Some(RollbackReason::BogusCamera)));

    assert_eq!(
        state.action,
        AttemptAction::Rollback { image: 5, reason: RollbackReason::BogusCamera }
    );
    state.advance(AttemptEvent::Carried);
    assert_eq!(state.action, AttemptAction::ChooseNextImage);
    assert_eq!(state.gauge_image, 3);
}
