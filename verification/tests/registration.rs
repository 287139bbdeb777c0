use rustsfm::absolute_pose::{
    absolute_pose_estimate_focal_length_enabled, absolute_pose_ransac_seed,
    absolute_pose_refine_camera_params_enabled, accept_absolute_pose_eval,
    inlier_absolute_pose_observations, prepare_absolute_pose, AbsolutePoseEval, PoseCorrespondence,
};
use rustsfm::bundle_options::{
    bundle_result_kept, capture_bundle_state, frame_anchor, mapper_ba_loss_function,
    mapper_ba_options, mapper_local_ba_options, restore_ba_state, BundleGauge, BundleLoss,
};
use rustsfm::camera_selection::{
    registration_camera_for_image, reset_bogus_frame_cameras_from_priors,
};
use rustsfm::config::{ImageSelectionMethod, MapperConfig};
use rustsfm::frame_filtering::filter_registered_frames;
use rustsfm::generalized_frame::{
    frame_image_camera_has_good_focal_length, frame_images,
    generalized_frame_registration_applicable,
};
use rustsfm::initial_pair::TWO_VIEW_CALIBRATED;
use rustsfm::local_bundle::{registration_rollback_reason, RollbackReason};
use rustsfm::mapping_attempt::{move_frame, FramePoses};
use rustsfm::next_image::{
    find_next_registration_images, images_to_probe, mark_unregistered_images_with_no_absolute_pose,
    next_image_rank_terms, next_registration_modes, pose_agrees_with_pairs, pose_source,
    NextImageRegistrationMode, PoseSource, RegistrationSearch,
};
use rustsfm::observation_manager::ObservationManager;
use rustsfm::registration_stats::RegistrationStats;
use rustsfm::registration_units::{
    increment_registration_unit_trials, registered_frame_count, registration_unit_num_trials,
    RegistrationUnitKey, UnitSet,
};
use rustsfm::scalar::{Real32, Real64};
use rustsfm::text::trim;
use rustsfm::types::{
    CameraModel, DataId, Frame, ImageFrame, Keypoint, Match, PairGeometry, Point3D, Pose,
    Reconstruction, RelativeGeometry, Rig, RigSensor, Rigid3, SensorId, SensorType,
    TrackObservation,
};

fn single(x: f32) -> Real32 {
    Real32 { bits: x.to_bits() }
}

fn double(x: f64) -> Real64 {
    Real64 { bits: x.to_bits() }
}

fn pose(x: f32, y: f32, z: f32) -> Pose {
    Pose {
        qw: single(1.0),
        qx: single(0.0),
        qy: single(0.0),
        qz: single(0.0),
        tx: single(x),
        ty: single(y),
        tz: single(z),
    }
}

fn identity() -> Pose {
    pose(0.0, 0.0, 0.0)
}

fn rigid(translation: [f64; 3]) -> Rigid3 {
    Rigid3 {
        qvec: [double(1.0), double(0.0), double(0.0), double(0.0)],
        tvec: translation.map(double),
    }
}

fn pinhole(width: u32, height: u32, fx: f32, fy: f32, cx: f32, cy: f32) -> CameraModel {
    let mut params = [double(0.0); 12];
    for (slot, value) in params.iter_mut().zip([fx, fy, cx, cy]) {
        *slot = double(value as f64);
    }
    let ratio = fx / width.max(height) as f32;
    CameraModel {
        model_id: 1,
        width,
        height,
        params,
        num_params: 4,
        bogus: !(0.1..=10.0).contains(&ratio),
    }
}

fn usual_camera() -> CameraModel {
    pinhole(100, 100, 50.0, 50.0, 50.0, 50.0)
}

fn keypoint(x: f32, y: f32, width: u32, height: u32) -> Keypoint {
    Keypoint {
        x: single(x),
        y: single(y),
        cell_x: ((x / width as f32) * 32.0).clamp(0.0, 31.0) as u8,
        cell_y: ((y / height as f32) * 32.0).clamp(0.0, 31.0) as u8,
    }
}

fn observation(image: usize, feature: usize) -> TrackObservation {
    TrackObservation { image, feature }
}

fn point(xyz: [f32; 3], track: &[(usize, usize)]) -> Point3D {
    Point3D {
        xyz: xyz.map(single),
        color: [0, 0, 0],
        error: single(0.0),
        track: track.iter().map(|&(image, feature)| observation(image, feature)).collect(),
    }
}

fn relative(translation: [f32; 3]) -> RelativeGeometry {
    let norm = translation.iter().map(|t| t * t).sum::<f32>().sqrt();
    let forward_motion = if norm <= f32::EPSILON || !norm.is_finite() {
        f32::INFINITY
    } else {
        (translation[2] / norm).abs()
    };
    RelativeGeometry {
        pose: pose(translation[0], translation[1], translation[2]),
        h_matrix: None,
        qvec: None,
        tvec: None,
        forward_motion: single(forward_motion),
    }
}

fn test_pair(
    left: usize,
    right: usize,
    inliers: usize,
    triangulated: usize,
    median_triangulation_angle_deg: f32,
    translation: [f32; 3],
) -> PairGeometry {
    PairGeometry {
        left,
        right,
        two_view_config: TWO_VIEW_CALIBRATED,
        f_matrix: None,
        e_matrix: None,
        forward: relative(translation),
        backward: relative(translation.map(|t| -t)),
        matches: Vec::new(),
        inlier_matches: Vec::new(),
        inliers,
        triangulated,
        mean_reprojection_error_px: single(1.0),
        rotation_deg: single(0.0),
        median_triangulation_angle_deg: single(median_triangulation_angle_deg),
        pose_graph_only: false,
    }
}

fn matched(query_idx: u32, train_idx: u32) -> Match {
    Match { query_idx, train_idx, distance: single(0.0) }
}

fn pair_with_inliers(left: usize, right: usize, matches: &[(u32, u32)]) -> PairGeometry {
    let mut pair = test_pair(left, right, matches.len(), 0, 1.0, [1.0, 0.0, 0.0]);
    pair.inlier_matches = matches.iter().map(|&(query, train)| matched(query, train)).collect();
    pair
}

fn minimal_frame(id: usize, name: &str) -> ImageFrame {
    ImageFrame {
        id,
        name: name.to_string(),
        width: 100,
        height: 100,
        keypoints: vec![keypoint(0.0, 0.0, 100, 100), keypoint(1.0, 1.0, 100, 100)],
        strong_feature_indices: Vec::new(),
        colors: vec![[0, 0, 0], [0, 0, 0]],
    }
}

fn minimal_frames(count: usize) -> Vec<ImageFrame> {
    (0..count).map(|idx| minimal_frame(idx, &format!("image_{idx}.jpg"))).collect()
}

fn structureless_frames(count: usize) -> Vec<ImageFrame> {
    (0..count)
        .map(|idx| {
            let mut frame = minimal_frame(idx, &format!("image_{idx}.jpg"));
            frame.keypoints = (0..64)
                .map(|feature| {
                    let col = (feature % 8) as f32;
                    let row = (feature / 8) as f32;
                    keypoint(10.0 + col * 8.0, 12.0 + row * 7.0, 100, 100)
                })
                .collect();
            frame.colors = vec![[0, 0, 0]; frame.keypoints.len()];
            frame
        })
        .collect()
}

fn row_of_keypoints(count: usize, y: f32) -> Vec<Keypoint> {
    (0..count).map(|idx| keypoint(idx as f32, y, 100, 100)).collect()
}

fn test_reconstruction(frames: &[ImageFrame]) -> Reconstruction {
    Reconstruction {
        camera: usual_camera(),
        cameras: vec![usual_camera()],
        camera_ids: vec![1],
        rigs: Vec::new(),
        frames: Vec::new(),
        image_names: frames.iter().map(|frame| frame.name.clone()).collect(),
        image_ids: (0..frames.len()).map(|idx| idx as u32 + 1).collect(),
        image_camera_indices: vec![0; frames.len()],
        image_frame_indices: vec![None; frames.len()],
        poses: vec![None; frames.len()],
        observations: frames.iter().map(|frame| vec![None; frame.keypoints.len()]).collect(),
        keypoints: frames.iter().map(|frame| frame.keypoints.clone()).collect(),
        point_ids: Vec::new(),
        points: Vec::new(),
    }
}

fn register_all(reconstruction: &mut Reconstruction) {
    for pose in &mut reconstruction.poses {
        *pose = Some(identity());
    }
}

fn add_point(reconstruction: &mut Reconstruction, xyz: [f32; 3], track: &[(usize, usize)]) {
    let index = reconstruction.points.len();
    for &(image, feature) in track {
        reconstruction.observations[image][feature] = Some(index);
    }
    reconstruction.point_ids.push(index as u64 + 1);
    reconstruction.points.push(point(xyz, track));
}

fn camera_sensor(sensor_id: u32) -> SensorId {
    SensorId { sensor_type: SensorType::Camera, sensor_id }
}

fn two_sensor_rig(rig_id: u32, reference: SensorId, other: SensorId, offset: [f64; 3]) -> Rig {
    Rig {
        rig_id,
        ref_sensor_id: Some(reference),
        sensors: vec![
            RigSensor { sensor_id: reference, sensor_from_rig: None },
            RigSensor { sensor_id: other, sensor_from_rig: Some(rigid(offset)) },
        ],
    }
}

fn bare_frame(frame_id: u32, rig_id: u32) -> Frame {
    Frame { frame_id, rig_id, rig_from_world: rigid([0.0, 0.0, 0.0]), data_ids: Vec::new() }
}

fn attach_two_image_rig_frame(
    reconstruction: &mut Reconstruction,
    ref_image: usize,
    aux_image: usize,
) {
    let reference = camera_sensor(reconstruction.image_id(ref_image));
    let other = camera_sensor(reconstruction.image_id(aux_image));
    reconstruction.rigs = vec![two_sensor_rig(99, reference, other, [0.0, 0.0, 0.0])];
    let mut frame = bare_frame(199, 99);
    frame.data_ids = vec![
        DataId { sensor_id: reference, data_id: reconstruction.image_id(ref_image) as u64 },
        DataId { sensor_id: other, data_id: reconstruction.image_id(aux_image) as u64 },
    ];
    reconstruction.frames = vec![frame];
    reconstruction.image_frame_indices = vec![None; reconstruction.poses.len()];
    reconstruction.image_frame_indices[ref_image] = Some(0);
    reconstruction.image_frame_indices[aux_image] = Some(0);
}

fn registration_stats(reconstruction: &Reconstruction) -> RegistrationStats {
    RegistrationStats::from_reconstruction(reconstruction)
}

fn rank(
    reconstruction: &Reconstruction,
    image: usize,
    manager: &ObservationManager,
    config: &MapperConfig,
    mode: NextImageRegistrationMode,
) -> f32 {
    let terms = next_image_rank_terms(reconstruction, image, manager, config, mode);
    terms.numerator as f32 / terms.denominator as f32
}

fn all_ranks(
    reconstruction: &Reconstruction,
    manager: &ObservationManager,
    config: &MapperConfig,
    mode: NextImageRegistrationMode,
) -> Vec<Real32> {
    (0..reconstruction.poses.len())
        .map(|image| single(rank(reconstruction, image, manager, config, mode)))
        .collect()
}

#[test]
fn mapper_ba_defaults_match_colmap_intrinsic_refinement_policy() {
    let frames = vec![minimal_frame(0, "a.jpg")];
    let reconstruction = test_reconstruction(&frames);

    let options = mapper_ba_options(
        &MapperConfig::default(),
        &reconstruction,
        3,
        Some(vec![0]),
        &Vec::new(),
        None,
        None,
    );

    assert!(options.refine_focal_length);
    assert!(!options.refine_principal_point);
    assert!(options.refine_extra_params);
    assert!(options.constant_cameras.is_empty());
    assert_eq!(options.gradient_tolerance, double(1.0));
    assert_eq!(options.parameter_tolerance, double(0.0));
    assert_eq!(options.max_linear_solver_iterations, 100);
}

#[test]
fn local_ba_options_expand_images_to_frames_and_fix_partial_shared_cameras() {
    let frames = minimal_frames(4);
    let mut reconstruction = test_reconstruction(&frames);
    reconstruction.cameras = vec![usual_camera(), pinhole(100, 100, 60.0, 60.0, 50.0, 50.0)];
    reconstruction.camera_ids = vec![11, 12];
    reconstruction.image_camera_indices = vec![0, 0, 1, 1];
    register_all(&mut reconstruction);
    reconstruction.frames = vec![bare_frame(9, 3)];
    reconstruction.image_frame_indices[1] = Some(0);
    reconstruction.image_frame_indices[2] = Some(0);
    let stats = registration_stats(&reconstruction);

    let options = mapper_local_ba_options(
        &MapperConfig::default(),
        &reconstruction,
        &stats,
        5,
        &vec![1, 3],
        &vec![],
        None,
        None,
    );

    assert_eq!(options.variable_images, Some(vec![1, 2, 3]));
    assert_eq!(options.constant_images, Vec::<usize>::new());
    assert_eq!(options.constant_cameras, vec![0]);
    assert_eq!(options.gauge, BundleGauge::ThreePoints);
    assert_eq!(options.gradient_tolerance, double(10.0));
    assert_eq!(options.parameter_tolerance, double(0.0));
    assert_eq!(options.max_linear_solver_iterations, 100);
}

#[test]
fn local_ba_options_fix_sensor_from_rig_when_rig_is_partially_covered() {
    let frames = minimal_frames(4);
    let mut reconstruction = test_reconstruction(&frames);
    let ref_sensor = camera_sensor(11);
    let aux_sensor = camera_sensor(12);
    reconstruction.rigs = vec![two_sensor_rig(3, ref_sensor, aux_sensor, [1.0, 0.0, 0.0])];
    reconstruction.frames = vec![bare_frame(9, 3), bare_frame(10, 3)];
    reconstruction.image_frame_indices = vec![Some(0), Some(0), Some(1), Some(1)];
    register_all(&mut reconstruction);
    let stats = registration_stats(&reconstruction);

    let partial_options = mapper_local_ba_options(
        &MapperConfig::default(),
        &reconstruction,
        &stats,
        5,
        &vec![0],
        &vec![],
        None,
        None,
    );
    assert_eq!(partial_options.variable_images, Some(vec![0, 1]));
    assert_eq!(partial_options.constant_sensor_from_rig, vec![aux_sensor]);

    let full_options = mapper_local_ba_options(
        &MapperConfig::default(),
        &reconstruction,
        &stats,
        5,
        &vec![0, 2],
        &vec![],
        None,
        None,
    );
    assert_eq!(full_options.variable_images, Some(vec![0, 1, 2, 3]));
    assert!(full_options.constant_sensor_from_rig.is_empty());
}

#[test]
fn mapper_ba_constant_rig_ids_fix_non_ref_sensors() {
    let frames = minimal_frames(2);
    let mut reconstruction = test_reconstruction(&frames);
    let aux_sensor = camera_sensor(12);
    reconstruction.rigs = vec![two_sensor_rig(3, camera_sensor(11), aux_sensor, [1.0, 0.0, 0.0])];
    let config =
        MapperConfig { ba_constant_rig_ids: vec![99, 3, 3], ..MapperConfig::default() };

    let options =
        mapper_ba_options(&config, &reconstruction, 3, None, &Vec::new(), None, None);

    assert_eq!(options.constant_rigs, vec![3]);
    assert_eq!(options.constant_sensor_from_rig, vec![aux_sensor]);
}

#[test]
fn mapper_ba_defaults_to_colmap_cauchy_loss() {
    assert_eq!(mapper_ba_loss_function(None, None, None), BundleLoss::Cauchy(double(1.0)));
}

#[test]
fn bundle_losses_are_chosen_by_name() {
    let wide = Some(double(3.0));
    let scale = Some(double(2.5));

    assert_eq!(mapper_ba_loss_function(Some("Trivial"), scale, wide), BundleLoss::Trivial);
    assert_eq!(
        mapper_ba_loss_function(Some("huber"), None, wide),
        BundleLoss::Huber(double(3.0))
    );
    assert_eq!(
        mapper_ba_loss_function(Some("HUBER"), scale, wide),
        BundleLoss::Huber(double(2.5))
    );
    assert_eq!(
        mapper_ba_loss_function(Some("huber"), None, None),
        BundleLoss::Huber(double(4.0))
    );
    assert_eq!(
        mapper_ba_loss_function(Some("soft_l1"), None, wide),
        BundleLoss::SoftL1(double(1.0))
    );
    assert_eq!(
        mapper_ba_loss_function(Some("softl1"), scale, wide),
        BundleLoss::SoftL1(double(2.5))
    );
    assert_eq!(
        mapper_ba_loss_function(Some("cauchy"), None, wide),
        BundleLoss::Cauchy(double(1.0))
    );
    assert_eq!(
        mapper_ba_loss_function(Some("other"), scale, wide),
        BundleLoss::Cauchy(double(2.5))
    );
}

#[test]
fn white_space_around_the_name_of_a_loss_is_ignored() {
    for name in [" huber", "huber \n", "\t HuBer\u{a0}", "\u{2003}\u{3000}huber\u{85}"] {
        assert_eq!(
            mapper_ba_loss_function(Some(name), None, None),
            BundleLoss::Huber(double(4.0))
        );
    }
    for name in ["hu ber", "", "  ", "\u{200b}huber"] {
        assert_eq!(
            mapper_ba_loss_function(Some(name), None, None),
            BundleLoss::Cauchy(double(1.0))
        );
    }
}

#[test]
fn trimming_drops_unicode_white_space_at_the_ends() {
    for c in '\u{0}'..='\u{3001}' {
        let text = format!("{c}a{c}b{c}");
        assert_eq!(trim(&text), text.trim());
    }
    assert_eq!(trim(""), "");
    assert_eq!(trim(" \n\t "), "");
}

#[test]
fn scales_that_are_no_positive_number_count_as_none() {
    for scale in [0.0, -0.0, -1.0, f64::INFINITY, f64::NEG_INFINITY, f64::NAN, -f64::NAN] {
        assert_eq!(
            mapper_ba_loss_function(None, Some(double(scale)), None),
            BundleLoss::Cauchy(double(1.0))
        );
        assert_eq!(
            mapper_ba_loss_function(Some("huber"), Some(double(scale)), Some(double(scale))),
            BundleLoss::Huber(double(4.0))
        );
    }
    for scale in [f64::MIN_POSITIVE, 5.0e-324, f64::MAX] {
        assert_eq!(
            mapper_ba_loss_function(None, Some(double(scale)), None),
            BundleLoss::Cauchy(double(scale))
        );
    }
}

#[test]
fn mapper_absolute_pose_defaults_match_colmap_thresholds() {
    let config = MapperConfig::default();

    assert_eq!(config.pnp_threshold_px, single(12.0));
    assert_eq!(config.pnp_iterations, 10000);
    assert_eq!(config.abs_pose_min_num_inliers, 30);
    assert_eq!(config.abs_pose_min_inlier_ratio, single(0.25));
    assert_eq!(config.random_seed, -1);
    let mut count = 1;
    let default_seed_a = absolute_pose_ransac_seed(&config, &mut count);
    let default_seed_b = absolute_pose_ransac_seed(&config, &mut count);
    assert_ne!(default_seed_a, default_seed_b);
    assert_eq!((default_seed_a, default_seed_b), (1, 2));
    assert_eq!(
        absolute_pose_ransac_seed(
            &MapperConfig { random_seed: 42, ..MapperConfig::default() },
            &mut count
        ),
        42
    );
    assert_eq!(count, 3);
}

#[test]
fn registration_rollback_reason_rejects_failed_refinement_or_bogus_camera() {
    let frames = vec![minimal_frame(0, "registered.jpg")];
    let mut reconstruction = test_reconstruction(&frames);
    reconstruction.poses[0] = Some(identity());

    assert_eq!(
        registration_rollback_reason(&reconstruction, 0, true, false),
        Some(RollbackReason::LocalBaFailed)
    );
    assert_eq!(RollbackReason::LocalBaFailed.as_str(), "local_ba_failed");
    assert_eq!(registration_rollback_reason(&reconstruction, 0, true, true), None);

    reconstruction.cameras[0] = pinhole(100, 100, 1.0, 50.0, 50.0, 50.0);
    assert_eq!(
        registration_rollback_reason(&reconstruction, 0, false, false),
        Some(RollbackReason::BogusCamera)
    );
    assert_eq!(RollbackReason::BogusCamera.as_str(), "bogus_camera");
}

#[test]
fn absolute_pose_camera_refinement_follows_colmap_shared_camera_schedule() {
    let frames = minimal_frames(3);
    let mut reconstruction = test_reconstruction(&frames);
    reconstruction.cameras = vec![usual_camera(), pinhole(100, 100, 60.0, 60.0, 50.0, 50.0)];
    reconstruction.camera_ids = vec![11, 42];
    reconstruction.image_camera_indices = vec![0, 0, 1];
    reconstruction.poses[0] = Some(identity());
    let stats = registration_stats(&reconstruction);

    assert!(!absolute_pose_refine_camera_params_enabled(
        1,
        reconstruction.camera_for_image(1),
        &reconstruction,
        &MapperConfig::default(),
        &stats,
    ));
    assert!(absolute_pose_refine_camera_params_enabled(
        2,
        reconstruction.camera_for_image(2),
        &reconstruction,
        &MapperConfig::default(),
        &stats,
    ));

    let constant_config =
        MapperConfig { ba_constant_camera_ids: vec![42], ..MapperConfig::default() };
    assert!(!absolute_pose_refine_camera_params_enabled(
        2,
        reconstruction.camera_for_image(2),
        &reconstruction,
        &constant_config,
        &stats,
    ));

    reconstruction.cameras[0] = pinhole(100, 100, 1.0, 50.0, 50.0, 50.0);
    assert!(absolute_pose_refine_camera_params_enabled(
        1,
        reconstruction.camera_for_image(1),
        &reconstruction,
        &MapperConfig::default(),
        &registration_stats(&reconstruction),
    ));
}

#[test]
fn local_ba_camera_fixing_counts_new_registration_like_colmap() {
    let frames = minimal_frames(3);
    let mut reconstruction = test_reconstruction(&frames);
    reconstruction.cameras = vec![usual_camera()];
    reconstruction.camera_ids = vec![11];
    reconstruction.poses[0] = Some(identity());
    reconstruction.poses[1] = Some(identity());

    let mut stats = registration_stats(&reconstruction);
    reconstruction.poses[2] = Some(identity());
    let variable_images = vec![0, 2];

    let stale_options = mapper_local_ba_options(
        &MapperConfig::default(),
        &reconstruction,
        &stats,
        5,
        &variable_images,
        &vec![],
        None,
        None,
    );
    assert!(stale_options.constant_cameras.is_empty());

    stats.register_frame_for_image_event(&reconstruction, 2);
    let colmap_options = mapper_local_ba_options(
        &MapperConfig::default(),
        &reconstruction,
        &stats,
        5,
        &variable_images,
        &vec![],
        None,
        None,
    );
    assert_eq!(colmap_options.constant_cameras, vec![0]);
}

#[test]
fn fix_existing_frames_marks_seeded_registration_units_constant_for_local_ba() {
    let frames = minimal_frames(3);
    let mut reconstruction = test_reconstruction(&frames);
    register_all(&mut reconstruction);
    let mut stats = registration_stats(&reconstruction);
    let mut begin_reconstruction = reconstruction.clone();
    begin_reconstruction.poses[1] = None;
    begin_reconstruction.poses[2] = None;
    stats.set_existing_registration_units_from_reconstruction(&begin_reconstruction);
    let config = MapperConfig { fix_existing_frames: true, ..MapperConfig::default() };

    let options = mapper_local_ba_options(
        &config,
        &reconstruction,
        &stats,
        5,
        &vec![0, 1, 2],
        &Vec::new(),
        None,
        None,
    );

    assert_eq!(options.constant_images, vec![0]);
}

#[test]
fn fix_existing_frames_marks_seeded_rig_frame_constant_for_local_ba() {
    let frames = minimal_frames(3);
    let mut reconstruction = test_reconstruction(&frames);
    register_all(&mut reconstruction);
    attach_two_image_rig_frame(&mut reconstruction, 0, 1);
    let mut stats = registration_stats(&reconstruction);
    let mut begin_reconstruction = reconstruction.clone();
    begin_reconstruction.poses[2] = None;
    stats.set_existing_registration_units_from_reconstruction(&begin_reconstruction);
    let config = MapperConfig { fix_existing_frames: true, ..MapperConfig::default() };

    let options = mapper_local_ba_options(
        &config,
        &reconstruction,
        &stats,
        5,
        &vec![0, 1, 2],
        &Vec::new(),
        None,
        None,
    );

    assert_eq!(options.constant_images, vec![0, 1]);
}

#[test]
fn registration_stats_track_frame_rig_camera_and_shared_image_events() {
    let frames = minimal_frames(3);
    let mut reconstruction = test_reconstruction(&frames);
    reconstruction.cameras = vec![usual_camera(), pinhole(100, 100, 60.0, 60.0, 50.0, 50.0)];
    reconstruction.camera_ids = vec![11, 12];
    reconstruction.image_camera_indices = vec![0, 0, 1];
    reconstruction.poses[0] = Some(identity());
    reconstruction.rigs =
        vec![Rig { rig_id: 3, ref_sensor_id: Some(camera_sensor(11)), sensors: Vec::new() }];
    reconstruction.frames = vec![bare_frame(9, 3)];
    reconstruction.image_frame_indices[1] = Some(0);
    reconstruction.image_frame_indices[2] = Some(0);

    let mut stats = RegistrationStats::from_reconstruction(&reconstruction);
    assert_eq!(stats.num_total_reg_images, 1);
    assert_eq!(stats.registered_images_with_camera_id(11), 1);

    reconstruction.poses[1] = Some(identity());
    reconstruction.poses[2] = Some(identity());
    stats.register_frame_for_image_event(&reconstruction, 1);

    assert_eq!(stats.num_reg_frames_per_rig.get(&3), Some(&1));
    assert_eq!(stats.registered_images_with_camera_id(11), 2);
    assert_eq!(stats.registered_images_with_camera_id(12), 1);
    assert_eq!(stats.num_total_reg_images, 3);
    assert_eq!(stats.num_shared_reg_images, 0);

    stats.deregister_frame_for_image_event(&reconstruction, 2);

    assert_eq!(stats.num_reg_frames_per_rig.get(&3), Some(&0));
    assert_eq!(stats.registered_images_with_camera_id(11), 1);
    assert_eq!(stats.registered_images_with_camera_id(12), 0);
    assert_eq!(stats.num_total_reg_images, 1);
}

#[test]
fn filter_registered_frames_noops_below_colmap_min_frame_threshold() {
    let frames = minimal_frames(19);
    let mut reconstruction = test_reconstruction(&frames);
    register_all(&mut reconstruction);
    let mut stats = registration_stats(&reconstruction);
    let mut manager = ObservationManager::new(&frames, &[], &reconstruction);

    let filtered = filter_registered_frames(
        &frames,
        &[],
        &mut reconstruction,
        &MapperConfig::default(),
        &mut stats,
        &mut UnitSet::new(),
        &mut manager,
    );

    assert_eq!(filtered, 0);
    assert_eq!(registered_frame_count(&reconstruction), 19);
    assert!(reconstruction.poses.iter().all(|pose| pose.is_some()));
    assert_eq!(stats.num_total_reg_images, 19);
}

#[test]
fn filter_registered_frames_deregisters_full_frame_and_rolls_back_stats() {
    let frames = minimal_frames(21);
    let mut reconstruction = test_reconstruction(&frames);
    reconstruction.cameras = vec![usual_camera(), pinhole(100, 100, 60.0, 60.0, 50.0, 50.0)];
    reconstruction.camera_ids = vec![11, 12];
    reconstruction.image_camera_indices[1] = 1;
    attach_two_image_rig_frame(&mut reconstruction, 0, 1);
    register_all(&mut reconstruction);
    for image in 2..frames.len() {
        add_point(&mut reconstruction, [image as f32, 0.0, 5.0], &[(image, 0)]);
    }
    let mut stats = registration_stats(&reconstruction);
    assert_eq!(registered_frame_count(&reconstruction), 20);
    assert_eq!(stats.num_reg_frames_per_rig.get(&99), Some(&1));
    assert_eq!(stats.registered_images_with_camera_id(11), 20);
    assert_eq!(stats.registered_images_with_camera_id(12), 1);
    assert_eq!(stats.num_total_reg_images, 21);

    let mut filtered_units = UnitSet::new();
    let mut manager = ObservationManager::new(&frames, &[], &reconstruction);
    let filtered = filter_registered_frames(
        &frames,
        &[],
        &mut reconstruction,
        &MapperConfig::default(),
        &mut stats,
        &mut filtered_units,
        &mut manager,
    );

    assert_eq!(filtered, 1);
    assert!(filtered_units.contains(&RegistrationUnitKey::Frame(0)));
    assert_eq!(registered_frame_count(&reconstruction), 19);
    assert!(reconstruction.poses[0].is_none());
    assert!(reconstruction.poses[1].is_none());
    assert!(reconstruction.poses[2..].iter().all(|pose| pose.is_some()));
    assert_eq!(stats.num_reg_frames_per_rig.get(&99), Some(&0));
    assert_eq!(stats.registered_images_with_camera_id(11), 19);
    assert_eq!(stats.registered_images_with_camera_id(12), 0);
    assert_eq!(stats.num_total_reg_images, 19);
    assert_eq!(reconstruction.points.len(), 19);
    assert!(reconstruction.observations[0].iter().all(|obs| obs.is_none()));
    assert!(reconstruction.observations[1].iter().all(|obs| obs.is_none()));
}

#[test]
fn fix_existing_frames_protects_seeded_units_from_registered_frame_filtering() {
    let frames = minimal_frames(20);
    let mut reconstruction = test_reconstruction(&frames);
    register_all(&mut reconstruction);
    let mut stats = registration_stats(&reconstruction);
    let mut begin_reconstruction = reconstruction.clone();
    for image in 1..20 {
        begin_reconstruction.poses[image] = None;
    }
    stats.set_existing_registration_units_from_reconstruction(&begin_reconstruction);
    let mut filtered_units = UnitSet::new();
    let config = MapperConfig { fix_existing_frames: true, ..MapperConfig::default() };
    let mut manager = ObservationManager::new(&frames, &[], &reconstruction);

    let filtered = filter_registered_frames(
        &frames,
        &[],
        &mut reconstruction,
        &config,
        &mut stats,
        &mut filtered_units,
        &mut manager,
    );

    assert_eq!(filtered, 19);
    assert!(reconstruction.poses[0].is_some());
    assert!(reconstruction.poses[1..].iter().all(Option::is_none));
    assert!(!filtered_units.contains(&RegistrationUnitKey::Image(0)));
}

#[test]
fn fix_existing_frames_protects_seeded_rig_frame_from_registered_frame_filtering() {
    let frames = minimal_frames(21);
    let mut reconstruction = test_reconstruction(&frames);
    attach_two_image_rig_frame(&mut reconstruction, 0, 1);
    register_all(&mut reconstruction);
    let mut stats = registration_stats(&reconstruction);
    let mut begin_reconstruction = reconstruction.clone();
    for image in 2..21 {
        begin_reconstruction.poses[image] = None;
    }
    stats.set_existing_registration_units_from_reconstruction(&begin_reconstruction);
    let mut filtered_units = UnitSet::new();
    let config = MapperConfig { fix_existing_frames: true, ..MapperConfig::default() };
    let mut manager = ObservationManager::new(&frames, &[], &reconstruction);

    let filtered = filter_registered_frames(
        &frames,
        &[],
        &mut reconstruction,
        &config,
        &mut stats,
        &mut filtered_units,
        &mut manager,
    );

    assert_eq!(filtered, 19);
    assert!(filtered_units.contains(&RegistrationUnitKey::Image(2)));
    assert!(!filtered_units.contains(&RegistrationUnitKey::Frame(0)));
    assert!(reconstruction.poses[0].is_some());
    assert!(reconstruction.poses[1].is_some());
    assert!(reconstruction.poses[2..].iter().all(Option::is_none));
    assert_eq!(registered_frame_count(&reconstruction), 1);
}

#[test]
fn sync_registered_frame_poses_updates_exported_rig_from_world_after_pose_changes() {
    let frames = minimal_frames(2);
    let mut reconstruction = test_reconstruction(&frames);
    let ref_sensor = camera_sensor(11);
    let aux_sensor = camera_sensor(12);
    reconstruction.rigs = vec![two_sensor_rig(3, ref_sensor, aux_sensor, [1.0, 0.0, 0.0])];
    let mut frame = bare_frame(9, 3);
    frame.data_ids = vec![
        DataId { sensor_id: ref_sensor, data_id: 1 },
        DataId { sensor_id: aux_sensor, data_id: 2 },
    ];
    reconstruction.frames = vec![frame];
    reconstruction.image_frame_indices = vec![Some(0), Some(0)];
    reconstruction.poses[0] = Some(pose(5.0, 0.0, 0.0));
    reconstruction.poses[1] = Some(pose(99.0, 0.0, 0.0));

    let anchor = frame_anchor(&reconstruction, 0).unwrap();
    assert_eq!(anchor.image, 0);
    assert_eq!(anchor.pose, pose(5.0, 0.0, 0.0));
    assert!(anchor.sensor_from_rig.is_none());
    let sensor_poses: Vec<Option<Real64>> = frame_images(&reconstruction, 0)
        .iter()
        .map(|image| image.sensor_from_rig.map(|motion| motion.tvec[0]))
        .collect();
    assert_eq!(sensor_poses, vec![None, Some(double(1.0))]);
    move_frame(
        &mut reconstruction,
        &FramePoses {
            frame: 0,
            rig_from_world: rigid([5.0, 0.0, 0.0]),
            image_poses: vec![(0, pose(5.0, 0.0, 0.0)), (1, pose(6.0, 0.0, 0.0))],
        },
    );

    assert_eq!(
        reconstruction.frames[0].rig_from_world.tvec,
        [double(5.0), double(0.0), double(0.0)]
    );
    assert_eq!(reconstruction.poses[0], Some(pose(5.0, 0.0, 0.0)));
    assert_eq!(reconstruction.poses[1], Some(pose(6.0, 0.0, 0.0)));
}

#[test]
fn registration_camera_resets_unused_shared_camera_to_prior() {
    let frames = minimal_frames(2);
    let mut reconstruction = test_reconstruction(&frames);
    let prior = usual_camera();
    let drifted = pinhole(100, 100, 70.0, 70.0, 50.0, 50.0);
    reconstruction.cameras = vec![prior, drifted];
    reconstruction.camera_ids = vec![11, 42];
    reconstruction.image_camera_indices = vec![0, 1];
    reconstruction.poses[0] = Some(identity());
    let priors = vec![prior, prior];

    let camera = registration_camera_for_image(
        1,
        &reconstruction,
        &priors,
        &registration_stats(&reconstruction),
    );

    assert_eq!(camera.params, prior.params);
}

#[test]
fn registration_camera_keeps_registered_healthy_shared_camera() {
    let frames = minimal_frames(2);
    let mut reconstruction = test_reconstruction(&frames);
    let refined = pinhole(100, 100, 65.0, 65.0, 50.0, 50.0);
    reconstruction.cameras = vec![refined];
    reconstruction.camera_ids = vec![11];
    reconstruction.poses[0] = Some(identity());
    let priors = vec![usual_camera()];

    let camera = registration_camera_for_image(
        1,
        &reconstruction,
        &priors,
        &registration_stats(&reconstruction),
    );

    assert_eq!(camera.params, refined.params);
}

#[test]
fn absolute_pose_focal_estimation_follows_prior_focal_schedule() {
    let frames = minimal_frames(2);
    let mut reconstruction = test_reconstruction(&frames);
    reconstruction.cameras = vec![usual_camera(), pinhole(100, 100, 40.0, 40.0, 50.0, 50.0)];
    reconstruction.camera_ids = vec![1, 2];
    reconstruction.image_camera_indices = vec![0, 1];
    reconstruction.poses[0] = Some(identity());
    let camera = reconstruction.camera_for_image(1);

    assert!(absolute_pose_estimate_focal_length_enabled(
        1,
        camera,
        &reconstruction,
        &MapperConfig::default(),
        &[true, false],
        &registration_stats(&reconstruction),
    ));
    assert!(!absolute_pose_estimate_focal_length_enabled(
        1,
        camera,
        &reconstruction,
        &MapperConfig::default(),
        &[true, true],
        &registration_stats(&reconstruction),
    ));
}

#[test]
fn generalized_frame_requires_known_or_registered_focal_lengths() {
    let frames = minimal_frames(2);
    let mut reconstruction = test_reconstruction(&frames);
    reconstruction.cameras = vec![usual_camera(), pinhole(100, 100, 45.0, 45.0, 50.0, 50.0)];
    reconstruction.camera_ids = vec![11, 12];
    reconstruction.image_camera_indices = vec![0, 1];
    let flags = [true, false];
    let stats = registration_stats(&reconstruction);

    assert!(frame_image_camera_has_good_focal_length(0, &reconstruction, &flags, &stats));
    assert!(!frame_image_camera_has_good_focal_length(1, &reconstruction, &flags, &stats));

    reconstruction.poses[1] = Some(identity());
    let stats = registration_stats(&reconstruction);
    assert!(frame_image_camera_has_good_focal_length(1, &reconstruction, &flags, &stats));
}

#[test]
fn registration_resets_bogus_sibling_frame_cameras_from_priors() {
    let frames = minimal_frames(2);
    let mut reconstruction = test_reconstruction(&frames);
    let good = usual_camera();
    let bogus = pinhole(100, 100, 1.0e6, 1.0e6, 50.0, 50.0);
    attach_two_image_rig_frame(&mut reconstruction, 0, 1);
    reconstruction.cameras = vec![good, bogus];
    reconstruction.camera_ids = vec![11, 12];
    reconstruction.image_camera_indices = vec![0, 1];
    let camera_priors = vec![good, good];

    reset_bogus_frame_cameras_from_priors(&mut reconstruction, 0, &camera_priors);

    assert_eq!(reconstruction.cameras[0].params, good.params);
    assert_eq!(reconstruction.cameras[1].params, good.params);
}

#[test]
fn non_trivial_rig_with_unknown_focal_uses_central_registration_first() {
    let mut frames = minimal_frames(3);
    frames[0].keypoints = row_of_keypoints(36, 1.0);
    frames[1].keypoints = row_of_keypoints(36, 2.0);
    let mut reconstruction = test_reconstruction(&frames);
    let initial_camera = pinhole(120, 100, 40.0, 40.0, 60.0, 50.0);
    reconstruction.cameras =
        vec![pinhole(120, 100, 60.0, 60.0, 60.0, 50.0), initial_camera, initial_camera];
    attach_two_image_rig_frame(&mut reconstruction, 1, 2);
    reconstruction.camera_ids = vec![1, 31, 32];
    reconstruction.image_camera_indices = vec![0, 1, 2];
    reconstruction.poses[0] = Some(identity());
    for idx in 0..36 {
        add_point(&mut reconstruction, [0.0, 0.0, 3.0], &[(0, idx)]);
    }
    let matches: Vec<(u32, u32)> = (0..36).map(|idx| (idx, idx)).collect();
    let pairs = [pair_with_inliers(0, 1, &matches)];
    let manager = ObservationManager::new(&frames, &pairs, &reconstruction);
    let config = MapperConfig { abs_pose_min_num_inliers: 24, ..MapperConfig::default() };
    let stats = registration_stats(&reconstruction);

    let applicable = |flags: &[bool]| {
        generalized_frame_registration_applicable(
            1,
            &reconstruction,
            &config,
            &manager,
            flags,
            &stats,
        )
    };
    let source = |flags: &[bool]| {
        pose_source(NextImageRegistrationMode::StructureBased, applicable(flags))
    };

    assert_eq!(source(&[true, false, false]), PoseSource::Pnp);
    assert_eq!(source(&[true, false, false]).as_str(), "pnp");
    assert_eq!(source(&[true, true, true]), PoseSource::GeneralizedFrame);
    assert_eq!(source(&[true, true, true]).as_str(), "generalized_frame");
}

#[test]
fn mapper_ba_constant_camera_ids_map_to_camera_indices() {
    let frames = minimal_frames(2);
    let mut reconstruction = test_reconstruction(&frames);
    reconstruction.cameras = vec![usual_camera(), pinhole(100, 100, 55.0, 55.0, 50.0, 50.0)];
    reconstruction.camera_ids = vec![11, 42];
    reconstruction.image_camera_indices = vec![0, 1];
    let config =
        MapperConfig { ba_constant_camera_ids: vec![42, 99], ..MapperConfig::default() };

    let options = mapper_ba_options(&config, &reconstruction, 3, None, &Vec::new(), None, None);

    assert_eq!(options.constant_cameras, vec![1]);
}

#[test]
fn checked_bundle_adjustment_rejects_bogus_registered_camera() {
    let frames = minimal_frames(2);
    let mut reconstruction = test_reconstruction(&frames);
    reconstruction.poses[0] = Some(identity());
    reconstruction.poses[1] = Some(pose(1.0, 0.0, 0.0));
    add_point(&mut reconstruction, [0.0, 0.0, 2.0], &[(0, 0), (1, 0)]);
    let original_camera = reconstruction.cameras[0];
    let state = capture_bundle_state(&reconstruction).expect("healthy state");

    reconstruction.cameras[0] = pinhole(100, 100, 2000.0, 2000.0, 50.0, 50.0);
    reconstruction.poses[1] = Some(pose(1.5, 0.0, 0.0));
    reconstruction.points[0].xyz[2] = single(2.5);
    assert!(!bundle_result_kept(&reconstruction, true));
    restore_ba_state(&mut reconstruction, state);

    assert_eq!(reconstruction.cameras[0].params, original_camera.params);
    assert_eq!(reconstruction.poses[1], Some(pose(1.0, 0.0, 0.0)));
    assert_eq!(reconstruction.points[0].xyz[2], single(2.0));
    assert!(bundle_result_kept(&reconstruction, true));
    assert!(!bundle_result_kept(&reconstruction, false));
}

fn provider_and_candidate(cameras: [CameraModel; 2], count: usize) -> (
    Vec<ImageFrame>,
    Reconstruction,
    PairGeometry,
) {
    let mut frames = minimal_frames(2);
    frames[0].keypoints = row_of_keypoints(count, 1.0);
    frames[1].keypoints = row_of_keypoints(count, 2.0);
    let mut reconstruction = test_reconstruction(&frames);
    reconstruction.cameras = cameras.to_vec();
    reconstruction.camera_ids = vec![1, 2];
    reconstruction.image_camera_indices = vec![0, 1];
    reconstruction.poses[0] = Some(identity());
    for idx in 0..count {
        add_point(&mut reconstruction, [0.0, 0.0, 3.0], &[(0, idx)]);
    }
    let matches: Vec<(u32, u32)> = (0..count as u32).map(|idx| (idx, idx)).collect();
    let pair = pair_with_inliers(0, 1, &matches);
    (frames, reconstruction, pair)
}

#[test]
fn absolute_pose_skips_correspondences_from_bogus_provider_cameras() {
    let bogus = pinhole(100, 100, 1.0, 1.0, 50.0, 50.0);
    let (frames, reconstruction, pair) = provider_and_candidate([bogus, usual_camera()], 30);

    let request = prepare_absolute_pose(
        1,
        &frames,
        &[pair],
        &reconstruction,
        &MapperConfig::default(),
        &reconstruction.cameras,
        &[true, true],
        &registration_stats(&reconstruction),
    );

    assert!(request.is_none());
}

#[test]
fn absolute_pose_takes_one_correspondence_per_point() {
    let (frames, reconstruction, pair) =
        provider_and_candidate([usual_camera(), usual_camera()], 30);

    let request = prepare_absolute_pose(
        1,
        &frames,
        &[pair],
        &reconstruction,
        &MapperConfig::default(),
        &reconstruction.cameras,
        &[true, true],
        &registration_stats(&reconstruction),
    )
    .expect("enough correspondences");

    assert_eq!(request.correspondences.len(), 30);
    assert_eq!(request.correspondences[7], PoseCorrespondence { feature: 7, point_id: 7 });
    assert!(!request.estimate_focal);
}

#[test]
fn absolute_pose_rejects_bogus_camera_before_pnp() {
    let frames = minimal_frames(2);
    let mut reconstruction = test_reconstruction(&frames);
    reconstruction.cameras = vec![usual_camera(), pinhole(100, 100, 1.0, 1.0, 50.0, 50.0)];
    reconstruction.camera_ids = vec![1, 2];
    reconstruction.image_camera_indices = vec![0, 1];
    reconstruction.poses[0] = Some(identity());

    let request = prepare_absolute_pose(
        1,
        &frames,
        &[],
        &reconstruction,
        &MapperConfig::default(),
        &reconstruction.cameras,
        &[true, true],
        &registration_stats(&reconstruction),
    );

    assert!(request.is_none());
}

#[test]
fn absolute_pose_resets_bogus_candidate_camera_from_prior() {
    let good_camera = usual_camera();
    let bogus = pinhole(100, 100, 1.0, 1.0, 50.0, 50.0);
    let (frames, reconstruction, pair) = provider_and_candidate([good_camera, bogus], 32);
    let camera_priors = vec![good_camera, good_camera];
    let config = MapperConfig { abs_pose_min_num_inliers: 24, ..MapperConfig::default() };

    let request = prepare_absolute_pose(
        1,
        &frames,
        &[pair],
        &reconstruction,
        &config,
        &camera_priors,
        &[true, false],
        &registration_stats(&reconstruction),
    )
    .expect("prior camera");

    assert_eq!(request.camera.params, good_camera.params);
    assert_eq!(request.correspondences.len(), 32);
}

#[test]
fn absolute_pose_refinement_uses_ransac_inliers_only() {
    let good = PoseCorrespondence { feature: 0, point_id: 0 };
    let outlier = PoseCorrespondence { feature: 1, point_id: 1 };

    let inliers = inlier_absolute_pose_observations(&vec![good, outlier], &[true, false]);

    assert_eq!(inliers.len(), 1);
    assert_eq!(inliers[0].feature, 0);
    let config = MapperConfig { abs_pose_min_num_inliers: 1, ..MapperConfig::default() };
    let eval = AbsolutePoseEval { inliers: 1, mean_error_px: single(1.0e-7) };
    assert!(accept_absolute_pose_eval(eval, &config));
    let none = AbsolutePoseEval { inliers: 0, mean_error_px: single(0.0) };
    assert!(!accept_absolute_pose_eval(none, &config));
}

#[test]
fn registration_trial_increment_applies_to_full_frame() {
    let frames = minimal_frames(3);
    let mut reconstruction = test_reconstruction(&frames);
    attach_two_image_rig_frame(&mut reconstruction, 1, 2);
    let mut reg_trials = vec![0; 3];

    increment_registration_unit_trials(&reconstruction, 1, &mut reg_trials);

    assert_eq!(reg_trials, vec![0, 1, 1]);
}

#[test]
fn registration_unit_trial_count_uses_full_frame_max() {
    let frames = minimal_frames(3);
    let mut reconstruction = test_reconstruction(&frames);
    attach_two_image_rig_frame(&mut reconstruction, 1, 2);
    let reg_trials = vec![0, 0, 3];

    assert_eq!(registration_unit_num_trials(&reconstruction, 1, &reg_trials), 3);
    assert_eq!(registration_unit_num_trials(&reconstruction, 2, &reg_trials), 3);
}

#[test]
fn mark_unregistered_no_pose_increments_frame_once() {
    let frames = minimal_frames(3);
    let mut reconstruction = test_reconstruction(&frames);
    attach_two_image_rig_frame(&mut reconstruction, 1, 2);
    reconstruction.poses[0] = Some(identity());
    let mut reg_trials = vec![0; 3];
    let config = MapperConfig { abs_pose_min_num_inliers: 20, ..MapperConfig::default() };

    let images = images_to_probe(&reconstruction, &reg_trials, &config);
    assert_eq!(images, vec![1]);
    mark_unregistered_images_with_no_absolute_pose(
        &reconstruction,
        &images,
        &[false],
        &mut reg_trials,
    );

    assert_eq!(reg_trials, vec![0, 1, 1]);
}

#[test]
fn mark_unregistered_skips_frame_when_any_sibling_hits_max_trials() {
    let frames = minimal_frames(3);
    let mut reconstruction = test_reconstruction(&frames);
    attach_two_image_rig_frame(&mut reconstruction, 1, 2);
    reconstruction.poses[0] = Some(identity());
    let mut reg_trials = vec![0, 0, 3];
    let config = MapperConfig {
        max_reg_trials: 3,
        abs_pose_min_num_inliers: 20,
        ..MapperConfig::default()
    };

    let images = images_to_probe(&reconstruction, &reg_trials, &config);
    assert!(images.is_empty());
    mark_unregistered_images_with_no_absolute_pose(
        &reconstruction,
        &images,
        &[],
        &mut reg_trials,
    );

    assert_eq!(reg_trials, vec![0, 0, 3]);
}

#[test]
fn mark_unregistered_images_keeps_structureless_candidate_retryable() {
    let frames = structureless_frames(3);
    let mut reconstruction = test_reconstruction(&frames);
    reconstruction.poses[0] = Some(identity());
    reconstruction.poses[2] = Some(identity());
    let mut reg_trials = vec![0; 3];

    let images = images_to_probe(&reconstruction, &reg_trials, &MapperConfig::default());
    assert_eq!(images, vec![1]);
    mark_unregistered_images_with_no_absolute_pose(
        &reconstruction,
        &images,
        &[true],
        &mut reg_trials,
    );

    assert_eq!(reg_trials[1], 0);
}

#[test]
fn registration_rank_matches_colmap_image_selection_methods() {
    let mut frames = minimal_frames(3);
    frames[0].keypoints = row_of_keypoints(8, 0.0);
    frames[1].keypoints = row_of_keypoints(8, 1.0);
    frames[2].keypoints = row_of_keypoints(4, 2.0);
    let eight: Vec<(u32, u32)> = (0..8).map(|idx| (idx, idx)).collect();
    let pairs =
        vec![pair_with_inliers(0, 1, &eight), pair_with_inliers(0, 2, &[(0, 0), (1, 1)])];
    let mut reconstruction = test_reconstruction(&frames);
    reconstruction.poses[0] = Some(identity());
    for idx in 0..4 {
        add_point(&mut reconstruction, [idx as f32 * 0.1, 0.0, 2.0], &[(0, idx)]);
    }
    let manager = ObservationManager::new(&frames, &pairs, &reconstruction);
    let with = |method: ImageSelectionMethod, image: usize| {
        let config = MapperConfig { image_selection_method: method, ..MapperConfig::default() };
        let mode = NextImageRegistrationMode::StructureBased;
        rank(&reconstruction, image, &manager, &config, mode)
    };

    assert!(
        with(ImageSelectionMethod::MaxVisiblePointsNum, 1)
            > with(ImageSelectionMethod::MaxVisiblePointsNum, 2)
    );
    assert!(
        with(ImageSelectionMethod::MaxVisiblePointsRatio, 2)
            > with(ImageSelectionMethod::MaxVisiblePointsRatio, 1)
    );
    assert_eq!(
        with(MapperConfig::default().image_selection_method, 1),
        manager.point3d_visibility_score(1) as f32
    );
}

#[test]
fn find_next_registration_images_matches_colmap_bucketed_queue() {
    let mut frames = minimal_frames(5);
    frames[0].keypoints = row_of_keypoints(8, 0.0);
    frames[1].keypoints = row_of_keypoints(6, 1.0);
    frames[2].keypoints = row_of_keypoints(8, 2.0);
    frames[3].keypoints = row_of_keypoints(5, 3.0);
    frames[4].keypoints = row_of_keypoints(1, 4.0);
    let upto = |n: u32| (0..n).map(|idx| (idx, idx)).collect::<Vec<_>>();
    let pairs = vec![
        pair_with_inliers(0, 1, &upto(6)),
        pair_with_inliers(0, 2, &upto(8)),
        pair_with_inliers(0, 3, &upto(5)),
        pair_with_inliers(0, 4, &upto(1)),
    ];
    let mut reconstruction = test_reconstruction(&frames);
    reconstruction.poses[0] = Some(identity());
    for idx in 0..8 {
        add_point(&mut reconstruction, [idx as f32 * 0.1, 0.0, 2.0], &[(0, idx)]);
    }
    let manager = ObservationManager::new(&frames, &pairs, &reconstruction);
    let mut filtered_units = UnitSet::new();
    filtered_units.insert(RegistrationUnitKey::Image(2));
    let reg_trials = vec![0, 0, 0, 1, 3];
    let config = MapperConfig {
        abs_pose_min_num_inliers: 2,
        max_reg_trials: 3,
        image_selection_method: ImageSelectionMethod::MaxVisiblePointsNum,
        ..MapperConfig::default()
    };
    let mode = NextImageRegistrationMode::StructureBased;
    let ranks = all_ranks(&reconstruction, &manager, &config, mode);

    let ranked = find_next_registration_images(
        &reconstruction,
        &reg_trials,
        &filtered_units,
        &config,
        &manager,
        mode,
        &ranks,
    );

    assert_eq!(ranked, vec![1, 2, 3]);
}

#[test]
fn find_next_registration_images_deduplicates_rig_frame_siblings() {
    let mut frames = minimal_frames(3);
    for frame in &mut frames {
        frame.keypoints = row_of_keypoints(12, 12.0);
        frame.colors = vec![[0, 0, 0]; frame.keypoints.len()];
    }
    let mut reconstruction = test_reconstruction(&frames);
    reconstruction.poses[0] = Some(identity());
    attach_two_image_rig_frame(&mut reconstruction, 1, 2);
    for idx in 0..12 {
        add_point(&mut reconstruction, [idx as f32 * 0.05, 0.0, 2.0], &[(0, idx)]);
    }
    let matches: Vec<(u32, u32)> = (0..12).map(|idx| (idx, idx)).collect();
    let pairs = vec![pair_with_inliers(0, 1, &matches), pair_with_inliers(0, 2, &matches)];
    let manager = ObservationManager::new(&frames, &pairs, &reconstruction);
    let config = MapperConfig {
        abs_pose_min_num_inliers: 20,
        image_selection_method: ImageSelectionMethod::MaxVisiblePointsNum,
        ..MapperConfig::default()
    };
    let mode = NextImageRegistrationMode::StructureBased;
    let ranks = all_ranks(&reconstruction, &manager, &config, mode);

    let ranked = find_next_registration_images(
        &reconstruction,
        &vec![0; 3],
        &UnitSet::new(),
        &config,
        &manager,
        mode,
        &ranks,
    );

    assert_eq!(ranked, vec![1]);
}

fn search_with(
    frames: &[ImageFrame],
    pairs: &[PairGeometry],
    reconstruction: &Reconstruction,
    filtered_units: &UnitSet,
    config: &MapperConfig,
) -> RegistrationSearch {
    let manager = ObservationManager::new(frames, pairs, reconstruction);
    let queue = |mode: NextImageRegistrationMode| {
        find_next_registration_images(
            reconstruction,
            &vec![0; reconstruction.poses.len()],
            filtered_units,
            config,
            &manager,
            mode,
            &all_ranks(reconstruction, &manager, config, mode),
        )
    };
    RegistrationSearch::new(
        &queue(NextImageRegistrationMode::StructureBased),
        &queue(NextImageRegistrationMode::StructureLess),
        config,
        false,
    )
}

fn provider_with_two_candidates(count: usize) -> (Vec<ImageFrame>, Reconstruction) {
    let mut frames = minimal_frames(3);
    for frame in &mut frames {
        frame.keypoints = row_of_keypoints(count, 3.0);
    }
    let mut reconstruction = test_reconstruction(&frames);
    reconstruction.poses[0] = Some(identity());
    for idx in 0..count {
        add_point(&mut reconstruction, [0.0, 0.0, 3.0], &[(0, idx)]);
    }
    (frames, reconstruction)
}

#[test]
fn choose_next_registration_deprioritizes_filtered_or_failed_units() {
    let (frames, reconstruction) = provider_with_two_candidates(40);
    let upto = |n: u32| (0..n).map(|idx| (idx, idx)).collect::<Vec<_>>();
    let pairs = [pair_with_inliers(0, 1, &upto(36)), pair_with_inliers(0, 2, &upto(28))];
    let config = MapperConfig { abs_pose_min_num_inliers: 20, ..MapperConfig::default() };

    let clean = search_with(&frames, &pairs, &reconstruction, &UnitSet::new(), &config);
    assert_eq!(clean.candidate().expect("clean high-score candidate").image, 1);

    let mut filtered_units = UnitSet::new();
    filtered_units.insert(RegistrationUnitKey::Image(1));
    let filtered = search_with(&frames, &pairs, &reconstruction, &filtered_units, &config);
    assert_eq!(filtered.candidate().expect("clean lower-score candidate").image, 2);
}

#[test]
fn choose_next_registration_records_failed_queue_candidates_and_continues_like_colmap() {
    let (frames, reconstruction) = provider_with_two_candidates(48);
    let upto = |n: u32| (0..n).map(|idx| (idx, idx)).collect::<Vec<_>>();
    let pairs = [pair_with_inliers(0, 1, &upto(48)), pair_with_inliers(0, 2, &upto(36))];
    let config = MapperConfig {
        abs_pose_min_num_inliers: 20,
        image_selection_method: ImageSelectionMethod::MaxVisiblePointsNum,
        ..MapperConfig::default()
    };

    let mut search = search_with(&frames, &pairs, &reconstruction, &UnitSet::new(), &config);
    assert_eq!(search.candidate().unwrap().image, 1);
    search.reject();

    assert_eq!(search.failed_images(), vec![1]);
    let choice = search.candidate().expect("second queue candidate should register");
    assert_eq!(choice.image, 2);
    assert_eq!(pose_source(choice.mode, false).as_str(), "pnp");
    search.reject();
    assert!(search.candidate().is_none());
    assert_eq!(search.failed_images(), vec![1, 2]);
}

#[test]
fn default_structureless_path_does_not_use_pair_pose_fallback() {
    let frames = structureless_frames(4);
    let mut reconstruction = test_reconstruction(&frames);
    reconstruction.poses[0] = Some(identity());
    reconstruction.poses[2] = Some(identity());
    let upto = |n: u32| (0..n).map(|idx| (idx, idx)).collect::<Vec<_>>();
    let pairs = [pair_with_inliers(1, 0, &upto(30)), pair_with_inliers(1, 2, &upto(30))];
    let config = MapperConfig { abs_pose_min_num_inliers: 20, ..MapperConfig::default() };

    let search = search_with(&frames, &pairs, &reconstruction, &UnitSet::new(), &config);
    assert!(search.candidate().is_none());

    let fallback = MapperConfig {
        abs_pose_min_num_inliers: 20,
        experimental_structureless_pair_pose_fallback: true,
        ..MapperConfig::default()
    };
    let search = search_with(&frames, &pairs, &reconstruction, &UnitSet::new(), &fallback);
    let choice = search.candidate().unwrap();
    assert_eq!(choice.image, 1);
    assert_eq!(pose_source(choice.mode, false).as_str(), "structureless");
}

#[test]
fn structureless_fallback_requires_colmap_visible_correspondence_threshold() {
    let frames = structureless_frames(3);
    let mut reconstruction = test_reconstruction(&frames);
    reconstruction.poses[0] = Some(identity());
    reconstruction.poses[2] = Some(identity());
    let upto = |n: u32| (0..n).map(|idx| (idx, idx)).collect::<Vec<_>>();
    let config = MapperConfig {
        abs_pose_min_num_inliers: 20,
        experimental_structureless_pair_pose_fallback: true,
        ..MapperConfig::default()
    };

    let few = [pair_with_inliers(1, 0, &upto(19)), pair_with_inliers(1, 2, &upto(20))];
    let search = search_with(&frames, &few, &reconstruction, &UnitSet::new(), &config);
    assert!(search.candidate().is_none());

    let enough = [pair_with_inliers(1, 0, &upto(20)), pair_with_inliers(1, 2, &upto(20))];
    let search = search_with(&frames, &enough, &reconstruction, &UnitSet::new(), &config);
    assert_eq!(search.candidate().unwrap().image, 1);
}

#[test]
fn ways_to_register_follow_the_configuration() {
    let fallback = MapperConfig {
        experimental_structureless_pair_pose_fallback: true,
        ..MapperConfig::default()
    };
    let both =
        vec![NextImageRegistrationMode::StructureBased, NextImageRegistrationMode::StructureLess];

    assert_eq!(
        next_registration_modes(&MapperConfig::default(), false),
        vec![NextImageRegistrationMode::StructureBased]
    );
    assert_eq!(next_registration_modes(&MapperConfig::default(), true), both);
    assert_eq!(next_registration_modes(&fallback, false), both);
}

#[test]
fn poses_must_agree_with_the_verified_pairs() {
    assert!(pose_agrees_with_pairs(single(20.0), single(20.0)));
    assert!(!pose_agrees_with_pairs(single(20.1), single(20.0)));
    assert!(!pose_agrees_with_pairs(single(f32::INFINITY), single(f32::INFINITY)));
    assert!(!pose_agrees_with_pairs(single(f32::NAN), single(20.0)));
}
