use rustsfm::bundle_options::mapper_local_ba_options;
use rustsfm::camera_setup::{
    database_camera_setup, local_image_camera_setup, reference_camera_setup,
    setup_for_reconstruction_attempt, DatabaseCamera, DatabaseImage, ReferenceCameraSetup,
    ReferenceImage, SetupError,
};
use rustsfm::config::{FeatureType, MapperConfig};
use rustsfm::database_keypoints::{apply_database_keypoints, NamedKeypoints};
use rustsfm::database_records::{
    geometry_records, local_matching_records, matches_for_database,
    pair_geometry_to_colmap_two_view_geometry, FeatureMatch, GeometryRecord, ImageRecord,
    MatchRecord,
};
use rustsfm::frame_filtering::filter_registered_frames;
use rustsfm::initial_pair::TWO_VIEW_CALIBRATED;
use rustsfm::observation_manager::ObservationManager;
use rustsfm::pair_candidates::{local_pair_candidates, ImagePair};
use rustsfm::pair_graph::{
    database_pairs_for_frames, setup_camera_for_image, stored_geometry_id, TWO_VIEW_PLANAR,
    NamedImage,
};
use rustsfm::pair_ids::image_pair_to_pair_id;
use rustsfm::pair_inversion::{invert_pair_geometry, swap_matches};
use rustsfm::reconstruction_run::{
    check_image_count, check_pair_count, database_writes, default_camera, export_index,
    is_image_extension, num_images_taken, pair_source, resolve_mapper_database, run_counts,
    setup_source, DatabaseChoice, DatabaseWrites, PairSource, RunError, SetupSource,
};
use rustsfm::registration_stats::RegistrationStats;
use rustsfm::registration_units::{registered_frame_count, RegistrationUnitKey, UnitSet};
use rustsfm::scalar::{Real32, Real64};
use rustsfm::seeding::{apply_reconstruction_seed, blank_reconstruction};
use rustsfm::types::{
    CameraModel, DataId, Frame, ImageFrame, Keypoint, Match, PairGeometry, Point3D, Pose,
    Reconstruction, RelativeGeometry, Rig, RigSensor, Rigid3, SensorId, SensorType,
    TrackObservation,
};

fn single(x: f32) -> Real32 {
    Real32 { bits: x.to_bits() }
}

fn double(x: f64) -> Real64 {
    Real64 { bits: x.to_bits() }
}

fn pose(x: f32, y: f32, z: f32) -> Pose {
    Pose {
        qw: single(1.0),
        qx: single(0.0),
        qy: single(0.0),
        qz: single(0.0),
        tx: single(x),
        ty: single(y),
        tz: single(z),
    }
}

fn identity() -> Pose {
    pose(0.0, 0.0, 0.0)
}

fn rigid(translation: [f64; 3]) -> Rigid3 {
    Rigid3 {
        qvec: [double(1.0), double(0.0), double(0.0), double(0.0)],
        tvec: translation.map(double),
    }
}

fn pinhole(width: u32, height: u32, fx: f32, fy: f32, cx: f32, cy: f32) -> CameraModel {
    let mut params = [double(0.0); 12];
    for (slot, value) in params.iter_mut().zip([fx, fy, cx, cy]) {
        *slot = double(value as f64);
    }
    let ratio = fx / width.max(height) as f32;
    CameraModel {
        model_id: 1,
        width,
        height,
        params,
        num_params: 4,
        bogus: !(0.1..=10.0).contains(&ratio),
    }
}

fn usual_camera() -> CameraModel {
    pinhole(100, 100, 50.0, 50.0, 50.0, 50.0)
}

fn focal(camera: &CameraModel) -> f64 {
    f64::from_bits(camera.params[0].bits)
}

fn keypoint(x: f32, y: f32, width: u32, height: u32) -> Keypoint {
    Keypoint {
        x: single(x),
        y: single(y),
        cell_x: ((x / width as f32) * 32.0).clamp(0.0, 31.0) as u8,
        cell_y: ((y / height as f32) * 32.0).clamp(0.0, 31.0) as u8,
    }
}

fn observation(image: usize, feature: usize) -> TrackObservation {
    TrackObservation { image, feature }
}

fn point(xyz: [f32; 3], track: &[(usize, usize)]) -> Point3D {
    Point3D {
        xyz: xyz.map(single),
        color: [0, 0, 0],
        error: single(0.0),
        track: track.iter().map(|&(image, feature)| observation(image, feature)).collect(),
    }
}

fn relative(translation: [f32; 3]) -> RelativeGeometry {
    let norm = translation.iter().map(|t| t * t).sum::<f32>().sqrt();
    let forward_motion = if norm <= f32::EPSILON || !norm.is_finite() {
        f32::INFINITY
    } else {
        (translation[2] / norm).abs()
    };
    RelativeGeometry {
        pose: pose(translation[0], translation[1], translation[2]),
        h_matrix: None,
        qvec: None,
        tvec: None,
        forward_motion: single(forward_motion),
    }
}

fn test_pair(
    left: usize,
    right: usize,
    inliers: usize,
    triangulated: usize,
    median_triangulation_angle_deg: f32,
    translation: [f32; 3],
) -> PairGeometry {
    PairGeometry {
        left,
        right,
        two_view_config: TWO_VIEW_CALIBRATED,
        f_matrix: None,
        e_matrix: None,
        forward: relative(translation),
        backward: relative(translation.map(|t| -t)),
        matches: Vec::new(),
        inlier_matches: Vec::new(),
        inliers,
        triangulated,
        mean_reprojection_error_px: single(1.0),
        rotation_deg: single(0.0),
        median_triangulation_angle_deg: single(median_triangulation_angle_deg),
        pose_graph_only: false,
    }
}

fn matched(query_idx: u32, train_idx: u32) -> Match {
    Match { query_idx, train_idx, distance: single(0.0) }
}

fn pair_with_inliers(left: usize, right: usize, matches: &[(u32, u32)]) -> PairGeometry {
    let mut pair = test_pair(left, right, matches.len(), 0, 1.0, [1.0, 0.0, 0.0]);
    pair.inlier_matches = matches.iter().map(|&(query, train)| matched(query, train)).collect();
    pair
}

fn minimal_frame(id: usize, name: &str) -> ImageFrame {
    ImageFrame {
        id,
        name: name.to_string(),
        width: 100,
        height: 100,
        keypoints: vec![keypoint(0.0, 0.0, 100, 100), keypoint(1.0, 1.0, 100, 100)],
        strong_feature_indices: Vec::new(),
        colors: vec![[0, 0, 0], [0, 0, 0]],
    }
}

fn minimal_frames(count: usize) -> Vec<ImageFrame> {
    (0..count).map(|idx| minimal_frame(idx, &format!("image_{idx}.jpg"))).collect()
}

fn test_reconstruction(frames: &[ImageFrame]) -> Reconstruction {
    Reconstruction {
        camera: usual_camera(),
        cameras: vec![usual_camera()],
        camera_ids: vec![1],
        rigs: Vec::new(),
        frames: Vec::new(),
        image_names: frames.iter().map(|frame| frame.name.clone()).collect(),
        image_ids: (0..frames.len()).map(|idx| idx as u32 + 1).collect(),
        image_camera_indices: vec![0; frames.len()],
        image_frame_indices: vec![None; frames.len()],
        poses: vec![None; frames.len()],
        observations: frames.iter().map(|frame| vec![None; frame.keypoints.len()]).collect(),
        keypoints: frames.iter().map(|frame| frame.keypoints.clone()).collect(),
        point_ids: Vec::new(),
        points: Vec::new(),
    }
}

fn add_point(reconstruction: &mut Reconstruction, xyz: [f32; 3], track: &[(usize, usize)]) {
    let index = reconstruction.points.len();
    for &(image, feature) in track {
        reconstruction.observations[image][feature] = Some(index);
    }
    reconstruction.point_ids.push(index as u64 + 1);
    reconstruction.points.push(point(xyz, track));
}

fn camera_sensor(sensor_id: u32) -> SensorId {
    SensorId { sensor_type: SensorType::Camera, sensor_id }
}

fn two_sensor_rig(rig_id: u32, reference: SensorId, other: SensorId, offset: [f64; 3]) -> Rig {
    Rig {
        rig_id,
        ref_sensor_id: Some(reference),
        sensors: vec![
            RigSensor { sensor_id: reference, sensor_from_rig: None },
            RigSensor { sensor_id: other, sensor_from_rig: Some(rigid(offset)) },
        ],
    }
}

fn bare_frame(frame_id: u32, rig_id: u32) -> Frame {
    Frame { frame_id, rig_id, rig_from_world: rigid([0.0, 0.0, 0.0]), data_ids: Vec::new() }
}

fn registration_stats(reconstruction: &Reconstruction) -> RegistrationStats {
    RegistrationStats::from_reconstruction(reconstruction)
}

fn names(list: &[&str]) -> Vec<Option<String>> {
    list.iter().map(|name| Some(name.to_string())).collect()
}

fn reference_image(image_id: u32, camera_id: u32, name: &str) -> ReferenceImage {
    ReferenceImage { name: name.to_string(), image_id, camera_id }
}

fn database_camera(camera_id: u32, camera: CameraModel, prior: bool) -> DatabaseCamera {
    DatabaseCamera { camera_id, camera: Some(camera), has_prior_focal_length: prior }
}

fn database_image(image_id: u32, camera_id: u32, name: &str) -> DatabaseImage {
    DatabaseImage { name: name.to_string(), image_id, camera_id, frame_id: None }
}

fn named_image(image_id: u32, name: &str) -> NamedImage {
    NamedImage { image_id, name: name.to_string() }
}

fn reference_model(image_ids: &[u32], names: &[&str]) -> Reconstruction {
    let frames: Vec<ImageFrame> = names
        .iter()
        .enumerate()
        .map(|(idx, name)| minimal_frame(idx, name))
        .collect();
    let mut model = test_reconstruction(&frames);
    model.image_ids = image_ids.to_vec();
    model
}

fn rig_frame_model() -> Reconstruction {
    let mut model = reference_model(&[101, 205], &["image_0.jpg", "image_1.jpg"]);
    let reference = camera_sensor(11);
    let other = camera_sensor(12);
    model.rigs = vec![two_sensor_rig(77, reference, other, [0.35, 0.0, 0.0])];
    let mut frame = bare_frame(99, 77);
    frame.data_ids = vec![
        DataId { sensor_id: reference, data_id: 101 },
        DataId { sensor_id: other, data_id: 205 },
    ];
    model.frames = vec![frame];
    model.image_frame_indices = vec![Some(0), Some(0)];
    model.poses = vec![Some(identity()), Some(pose(-0.35, 0.0, 0.0))];
    model.observations = vec![vec![Some(0)], vec![Some(0)]];
    model.point_ids = vec![700];
    model.points = vec![point([-0.3, -0.2, 3.0], &[(0, 0), (1, 0)])];
    model.points[0].color = [7, 7, 7];
    model
}

fn rig_frame_setup(file_names: &[&str]) -> ReferenceCameraSetup {
    let camera = pinhole(200, 160, 80.0, 80.0, 100.0, 80.0);
    reference_camera_setup(
        &vec![(11, camera)],
        vec![
            reference_image(101, 11, "image_0.jpg"),
            reference_image(205, 11, "image_1.jpg"),
        ],
        Some(rig_frame_model()),
        &names(file_names),
    )
    .unwrap()
}

#[test]
fn reference_camera_setup_maps_images_to_shared_cameras() {
    let mut radial = pinhole(800, 600, 700.0, 401.0, 299.0, 0.0);
    radial.model_id = 2;

    let setup = reference_camera_setup(
        &vec![(11, pinhole(640, 480, 500.0, 501.0, 320.0, 240.0)), (42, radial)],
        vec![reference_image(7, 11, "a.jpg"), reference_image(8, 42, "b.jpg")],
        None,
        &names(&["a.jpg", "b.jpg"]),
    )
    .unwrap();

    assert_eq!(setup.camera_ids, vec![11, 42]);
    assert_eq!(setup.image_ids, vec![7, 8]);
    assert_eq!(setup.image_camera_indices, vec![0, 1]);
    assert_eq!(setup.cameras[1].model_id, 2);
}

#[test]
fn reference_camera_setup_preserves_frame_ownership() {
    let mut model = reference_model(&[7], &["a.jpg"]);
    let sensor = camera_sensor(11);
    model.rigs = vec![Rig { rig_id: 3, ref_sensor_id: Some(sensor), sensors: Vec::new() }];
    let mut frame = bare_frame(9, 3);
    frame.data_ids = vec![DataId { sensor_id: sensor, data_id: 7 }];
    model.frames = vec![frame];
    model.image_frame_indices = vec![Some(0)];

    let setup = reference_camera_setup(
        &vec![(11, pinhole(640, 480, 500.0, 501.0, 320.0, 240.0))],
        vec![reference_image(7, 11, "a.jpg")],
        Some(model),
        &names(&["a.jpg"]),
    )
    .unwrap();

    assert_eq!(setup.rigs.len(), 1);
    assert_eq!(setup.frames.len(), 1);
    assert_eq!(setup.frames[0].frame_id, 9);
    assert_eq!(setup.image_frame_indices, vec![Some(0)]);
}

#[test]
fn reference_camera_setup_seeds_existing_reconstruction_like_colmap() {
    let mut model = reference_model(&[1, 2], &["a.jpg", "b.jpg"]);
    model.poses = vec![Some(identity()), Some(pose(-1.0, 0.0, 0.0))];
    model.observations = vec![vec![Some(0)], vec![Some(0)]];
    model.point_ids = vec![7];
    model.points = vec![point([0.0, 0.0, 2.0], &[(0, 0), (1, 0)])];

    let setup = reference_camera_setup(
        &vec![(1, usual_camera())],
        vec![reference_image(1, 1, "a.jpg"), reference_image(2, 1, "b.jpg")],
        Some(model),
        &names(&["a.jpg", "b.jpg", "c.jpg"]),
    )
    .unwrap();
    let seed = setup.seed_reconstruction.expect("seed reconstruction");

    assert_eq!(seed.poses.iter().filter(|pose| pose.is_some()).count(), 2);
    assert_eq!(seed.point_ids, vec![7]);
    assert_eq!(seed.observations[0][0], Some(0));
    assert_eq!(seed.observations[1][0], Some(0));
    assert_eq!(seed.points[0].track.len(), 2);
}

#[test]
fn reference_camera_setup_needs_a_camera() {
    let setup = reference_camera_setup(&Vec::new(), Vec::new(), None, &names(&["a.jpg"]));

    assert!(matches!(setup, Err(SetupError::NoReferenceCameras)));
    assert_eq!(SetupError::NoReferenceCameras.message(), "reference model has no cameras");
}

#[test]
fn unknown_images_get_ids_by_position() {
    let setup = rig_frame_setup(&["image_0.jpg", "image_1.jpg", "image_2.jpg", "image_3.jpg"]);

    assert_eq!(setup.image_ids, vec![101, 205, 3, 4]);
    assert_eq!(setup.image_camera_indices, vec![0, 0, 0, 0]);
}

#[test]
fn database_pair_matches_map_colmap_image_names_to_frames() {
    let frames = vec![minimal_frame(0, "a.jpg"), minimal_frame(1, "b.jpg")];
    let images = vec![named_image(10, "b.jpg"), named_image(20, "a.jpg")];

    let pairs = database_pairs_for_frames(&frames, &images, &vec![(10, 20)]);

    assert_eq!(pairs.len(), 1);
    assert_eq!(pairs[0].left, 0);
    assert_eq!(pairs[0].right, 1);
    assert_eq!((pairs[0].left_image_id, pairs[0].right_image_id), (20, 10));
    let stored = vec![matched(1, 0), matched(0, 1)];
    let matches = swap_matches(&stored);
    assert_eq!(matches.len(), 2);
    assert_eq!(matches[0].query_idx, 0);
    assert_eq!(matches[0].train_idx, 1);
}

#[test]
fn database_pairs_of_unknown_images_are_left_out() {
    let frames = vec![minimal_frame(0, "a.jpg"), minimal_frame(1, "b.jpg")];
    let images = vec![named_image(10, "b.jpg"), named_image(20, "elsewhere.jpg")];

    assert!(database_pairs_for_frames(&frames, &images, &vec![(10, 20), (10, 30)]).is_empty());
}

#[test]
fn database_camera_setup_preserves_frame_ownership() {
    let sensor = camera_sensor(11);
    let mut frame = bare_frame(9, 3);
    frame.data_ids = vec![DataId { sensor_id: sensor, data_id: 7 }];
    let mut image = database_image(7, 11, "a.jpg");
    image.frame_id = Some(9);

    let setup = database_camera_setup(
        &vec![database_camera(11, pinhole(100, 80, 50.0, 51.0, 50.0, 40.0), true)],
        &vec![image],
        vec![Rig {
            rig_id: 3,
            ref_sensor_id: Some(sensor),
            sensors: vec![RigSensor { sensor_id: sensor, sensor_from_rig: None }],
        }],
        vec![frame],
        &names(&["a.jpg"]),
    )
    .unwrap();

    assert_eq!(setup.rigs.len(), 1);
    assert_eq!(setup.frames.len(), 1);
    assert_eq!(setup.frames[0].frame_id, 9);
    assert_eq!(setup.image_frame_indices, vec![Some(0)]);
}

#[test]
fn mapper_database_input_loads_keypoints_and_camera_ownership() {
    let mut frames = vec![minimal_frame(0, "left.jpg"), minimal_frame(1, "right.jpg")];
    let lists = vec![
        NamedKeypoints {
            name: "left.jpg".to_string(),
            keypoints: vec![keypoint(10.0, 20.0, 200, 150), keypoint(30.0, 40.0, 200, 150)],
        },
        NamedKeypoints {
            name: "right.jpg".to_string(),
            keypoints: vec![keypoint(50.0, 60.0, 200, 150), keypoint(70.0, 80.0, 200, 150)],
        },
    ];

    let changed = apply_database_keypoints(&mut frames, &lists);
    let setup = database_camera_setup(
        &vec![database_camera(5, pinhole(200, 150, 80.0, 81.0, 100.0, 75.0), true)],
        &vec![database_image(11, 5, "left.jpg"), database_image(12, 5, "right.jpg")],
        Vec::new(),
        Vec::new(),
        &names(&["left.jpg", "right.jpg"]),
    )
    .unwrap();

    assert_eq!(changed, vec![0, 1]);
    assert_eq!(frames[0].keypoints[0].x, single(10.0));
    assert_eq!(frames[0].keypoints[1].y, single(40.0));
    assert_eq!(frames[1].keypoints[0].x, single(50.0));
    assert_eq!(setup.camera_ids, vec![5]);
    assert_eq!(setup.image_ids, vec![11, 12]);
    assert_eq!(setup.image_camera_indices, vec![0, 0]);
    assert_eq!(setup.camera_has_prior_focal_length, vec![true]);
    assert_eq!(focal(&setup.cameras[0]), 80.0);
}

#[test]
fn database_camera_setup_preserves_prior_focal_flags() {
    let setup = database_camera_setup(
        &vec![database_camera(3, usual_camera(), true), database_camera(4, usual_camera(), false)],
        &vec![database_image(10, 3, "a.jpg"), database_image(11, 4, "b.jpg")],
        Vec::new(),
        Vec::new(),
        &names(&["a.jpg", "b.jpg"]),
    )
    .unwrap();

    assert_eq!(setup.camera_ids, vec![3, 4]);
    assert_eq!(setup.camera_has_prior_focal_length, vec![true, false]);
    assert_eq!(setup.image_camera_indices, vec![0, 1]);
}

#[test]
fn database_camera_setup_reports_missing_and_unsupported_cameras() {
    let none = database_camera_setup(
        &Vec::new(),
        &Vec::new(),
        Vec::new(),
        Vec::new(),
        &names(&["a.jpg"]),
    );
    assert!(matches!(none, Err(SetupError::NoDatabaseCameras)));

    let mut unsupported = database_camera(4, usual_camera(), false);
    unsupported.camera = None;
    let odd = database_camera_setup(
        &vec![database_camera(3, usual_camera(), true), unsupported],
        &Vec::new(),
        Vec::new(),
        Vec::new(),
        &names(&["a.jpg"]),
    );
    assert!(matches!(odd, Err(SetupError::UnsupportedDatabaseCamera(4))));
    assert_eq!(odd.unwrap_err().message(), "unsupported database camera_id=4");
}

#[test]
fn setup_errors_name_the_camera() {
    assert_eq!(SetupError::NoDatabaseCameras.message(), "database cache has no cameras");
    for (camera_id, message) in [
        (0, "unsupported database camera_id=0"),
        (90, "unsupported database camera_id=90"),
        (u32::MAX, "unsupported database camera_id=4294967295"),
    ] {
        assert_eq!(SetupError::UnsupportedDatabaseCamera(camera_id).message(), message);
    }
}

#[test]
fn unknown_features_are_named_in_the_message() {
    let error = FeatureType::parse("surf").unwrap_err();

    assert_eq!(
        error.message("surf"),
        "unsupported feature type 'surf', expected orb or sift"
    );
}

#[test]
fn resolves_default_database_next_to_input_or_parent() {
    let config = MapperConfig::default();

    assert_eq!(
        resolve_mapper_database(&config, false, &[false, true]),
        Ok(DatabaseChoice::Candidate(1))
    );
    assert_eq!(
        resolve_mapper_database(&config, false, &[true, true]),
        Ok(DatabaseChoice::Candidate(0))
    );
    assert_eq!(
        resolve_mapper_database(&config, false, &[false, false]),
        Ok(DatabaseChoice::Nowhere)
    );
}

#[test]
fn explicit_missing_database_is_an_error() {
    let config =
        MapperConfig { database: Some("missing.db".to_string()), ..MapperConfig::default() };

    let err = resolve_mapper_database(&config, false, &[false, false]).unwrap_err();

    assert!(err.message().contains("database path does not exist"));
}

#[test]
fn resolve_mapper_database_path_allows_missing_output_for_local_write() {
    let config = MapperConfig {
        database: Some("new.db".to_string()),
        local_matching: true,
        write_database: true,
        ..MapperConfig::default()
    };

    assert_eq!(
        resolve_mapper_database(&config, false, &[false, false]),
        Ok(DatabaseChoice::Configured)
    );
}

#[test]
fn local_matching_requires_explicit_opt_in() {
    assert!(!MapperConfig::default().local_matching);
    assert_eq!(MapperConfig::default().local_window, 0);
    assert!(!MapperConfig::default().pose_graph);
    assert!(!MapperConfig::default().experimental_sequence_heuristics);
    assert!(MapperConfig::default().extract_colors);
    assert!(!MapperConfig::default().fix_existing_frames);
}

#[test]
fn pairs_come_from_the_database_or_from_local_matching() {
    let local = MapperConfig { local_matching: true, ..MapperConfig::default() };

    assert_eq!(pair_source(true, &MapperConfig::default()), Ok(PairSource::Database));
    assert_eq!(pair_source(false, &local), Ok(PairSource::LocalMatching));
    assert_eq!(
        pair_source(false, &MapperConfig::default()),
        Err(RunError::DatabaseRequired)
    );
}

#[test]
fn a_run_needs_images_pairs_and_models() {
    assert_eq!(check_image_count(1), Err(RunError::NotEnoughImages));
    assert_eq!(check_image_count(2), Ok(()));
    assert_eq!(check_pair_count(0), Err(RunError::NoVerifiedPairs));
    assert_eq!(check_pair_count(1), Ok(()));
    assert_eq!(run_counts(3, 2, &Vec::new()), Err(RunError::NoModelKept));
    assert_eq!(RunError::NotEnoughImages.message(), "need at least two images");
    assert_eq!(RunError::NoVerifiedPairs.message(), "no verified image pairs");
    assert_eq!(RunError::NoModelKept.message(), "incremental pipeline kept no reconstruction");
}

#[test]
fn run_counts_describe_the_first_model() {
    let frames = minimal_frames(3);
    let mut first = test_reconstruction(&frames);
    first.poses[0] = Some(identity());
    first.poses[2] = Some(identity());
    add_point(&mut first, [0.0, 0.0, 2.0], &[(0, 0), (2, 0)]);
    let second = test_reconstruction(&frames);

    let counts = run_counts(3, 4, &vec![first, second]).unwrap();

    assert_eq!(counts.images, 3);
    assert_eq!(counts.registered_images, 2);
    assert_eq!(counts.points, 1);
    assert_eq!(counts.pairs, 4);
    assert_eq!(counts.models, 2);
    assert_eq!(export_index(1, 0), None);
    assert_eq!(export_index(2, 1), Some(1));
}

#[test]
fn local_matches_are_written_only_with_a_camera_setup() {
    let writes = MapperConfig {
        local_matching: true,
        write_database: true,
        ..MapperConfig::default()
    };

    assert_eq!(
        database_writes(&writes, true, false),
        DatabaseWrites {
            two_view_geometries: false,
            local_matches: Err(RunError::NoCameraSetup),
        }
    );
    assert_eq!(
        database_writes(&writes, true, true),
        DatabaseWrites { two_view_geometries: false, local_matches: Ok(true) }
    );
    assert_eq!(
        database_writes(&MapperConfig::default(), true, true),
        DatabaseWrites { two_view_geometries: false, local_matches: Ok(false) }
    );
}

#[test]
fn geometries_are_written_though_local_matches_cannot_be() {
    let config = MapperConfig {
        local_matching: true,
        write_database: true,
        write_two_view_geometries: true,
        ..MapperConfig::default()
    };

    assert_eq!(
        database_writes(&config, true, false),
        DatabaseWrites { two_view_geometries: true, local_matches: Err(RunError::NoCameraSetup) }
    );
    assert_eq!(
        database_writes(&config, false, false),
        DatabaseWrites { two_view_geometries: false, local_matches: Ok(false) }
    );
}

#[test]
fn setups_are_sought_in_order() {
    assert_eq!(setup_source(true, Some(true)), SetupSource::Reference);
    assert_eq!(setup_source(false, Some(true)), SetupSource::Database);
}

#[test]
fn local_image_fallback_uses_per_image_camera_ownership() {
    let mut frames = vec![minimal_frame(0, "left.jpg"), minimal_frame(1, "right.jpg")];
    frames[0].width = 120;
    frames[0].height = 80;
    frames[1].width = 200;
    frames[1].height = 150;
    let cameras = frames
        .iter()
        .map(|frame| {
            let focal = frame.width.max(frame.height) as f32 * 1.2;
            let cx = frame.width as f32 * 0.5;
            pinhole(frame.width, frame.height, 90.0, focal, cx, frame.height as f32 * 0.5)
        })
        .collect();

    let setup = local_image_camera_setup(cameras);

    assert_eq!(setup.camera_ids, vec![1, 2]);
    assert_eq!(setup.image_ids, vec![1, 2]);
    assert_eq!(setup.image_camera_indices, vec![0, 1]);
    assert_eq!(setup.cameras[0].width, 120);
    assert_eq!(setup.cameras[1].height, 150);
    assert_eq!(focal(&setup.cameras[0]), 90.0);
    assert_eq!(setup.cameras[1].params[2], double(100.0));
}

#[test]
fn local_pair_candidates_do_not_include_segment_bridges_by_default() {
    let candidates = local_pair_candidates(194, 3, false);

    assert!(candidates.contains(&ImagePair { left: 0, right: 1 }));
    assert!(candidates.contains(&ImagePair { left: 0, right: 3 }));
    assert!(!candidates.contains(&ImagePair { left: 0, right: 192 }));
    assert!(!candidates.contains(&ImagePair { left: 188, right: 192 }));
}

#[test]
fn segment_bridge_candidates_require_experimental_sequence_heuristics() {
    let candidates = local_pair_candidates(194, 3, true);

    assert!(candidates.contains(&ImagePair { left: 0, right: 192 }));
    assert!(candidates.contains(&ImagePair { left: 191, right: 192 }));
}

#[test]
fn real_colmap_rig_frame_seed_continuation_uses_sparse_fixture_like_colmap() {
    let setup = rig_frame_setup(&["image_0.jpg", "image_1.jpg", "image_2.jpg", "image_3.jpg"]);

    assert_eq!(setup.camera_ids, vec![11]);
    assert_eq!(setup.image_ids, vec![101, 205, 3, 4]);
    assert_eq!(setup.image_frame_indices, vec![Some(0), Some(0), None, None]);
    let seed = setup.seed_reconstruction.as_ref().expect("seed");
    assert_eq!(seed.point_ids, vec![700]);
    assert_eq!(seed.points[0].track.len(), 2);

    let frames = minimal_frames(4);
    let camera = pinhole(200, 160, 80.0, 80.0, 100.0, 80.0);
    let first_setup = setup_for_reconstruction_attempt(Some(setup.clone()), true);
    let (mut first, _, seed) = blank_reconstruction(&frames, camera, first_setup);
    apply_reconstruction_seed(&mut first, seed.expect("seed"), &frames);
    assert_eq!(registered_frame_count(&first), 1);
    assert_eq!(first.image_ids[0], 101);
    assert_eq!(first.image_ids[1], 205);
    assert!(first.poses[0].is_some());
    assert!(first.poses[1].is_some());
    assert_eq!(first.point_ids, vec![700]);

    let second_setup = setup_for_reconstruction_attempt(Some(setup), false);
    let (second, _, seed) = blank_reconstruction(&frames, camera, second_setup);
    assert!(seed.is_none());
    assert!(second.poses.iter().all(Option::is_none));
    assert_eq!(second.image_ids, vec![101, 205, 3, 4]);
}

#[test]
fn real_colmap_rig_frame_fix_existing_frames_protects_sparse_seed() {
    let setup = rig_frame_setup(&["image_0.jpg", "image_1.jpg", "image_2.jpg", "image_3.jpg"]);
    let mut frames = minimal_frames(4);
    frames.extend((4..21).map(|idx| minimal_frame(idx, &format!("extra_{idx}.jpg"))));
    let mut expanded_setup = setup.clone();
    expanded_setup.image_ids.extend(5..22);
    expanded_setup.image_camera_indices.extend(vec![0; 17]);
    expanded_setup.image_frame_indices.extend(vec![None; 17]);
    let config = MapperConfig { fix_existing_frames: true, ..MapperConfig::default() };
    let camera = pinhole(200, 160, 80.0, 80.0, 100.0, 80.0);
    let (mut reconstruction, _, seed) =
        blank_reconstruction(&frames, camera, Some(expanded_setup));
    apply_reconstruction_seed(&mut reconstruction, seed.expect("seed"), &frames);
    for image in 2..reconstruction.poses.len() {
        reconstruction.poses[image] = Some(identity());
    }
    let mut stats = registration_stats(&reconstruction);
    let mut begin_reconstruction = reconstruction.clone();
    for image in 2..begin_reconstruction.poses.len() {
        begin_reconstruction.poses[image] = None;
    }
    stats.set_existing_registration_units_from_reconstruction(&begin_reconstruction);
    let options = mapper_local_ba_options(
        &config,
        &reconstruction,
        &stats,
        5,
        &(0..reconstruction.poses.len()).collect(),
        &Vec::new(),
        None,
        None,
    );
    let mut filtered_units = UnitSet::new();
    let mut manager = ObservationManager::new(&frames, &[], &reconstruction);

    let filtered = filter_registered_frames(
        &frames,
        &[],
        &mut reconstruction,
        &config,
        &mut stats,
        &mut filtered_units,
        &mut manager,
    );

    assert_eq!(options.constant_images, vec![0, 1]);
    assert_eq!(filtered, 19);
    assert!(reconstruction.poses[0].is_some());
    assert!(reconstruction.poses[1].is_some());
    assert!(reconstruction.poses[2..].iter().all(Option::is_none));
    assert!(!filtered_units.contains(&RegistrationUnitKey::Frame(0)));
    assert_eq!(registered_frame_count(&reconstruction), 1);
}

#[test]
fn stored_geometries_are_looked_up_in_the_order_of_image_ids() {
    let frames = vec![minimal_frame(0, "left.jpg"), minimal_frame(1, "right.jpg")];
    let images = vec![named_image(2, "right.jpg"), named_image(1, "left.jpg")];

    assert_eq!(stored_geometry_id(&frames, &images, 0, 1), Some(2147483647 + 2));
    assert_eq!(stored_geometry_id(&frames, &images, 1, 0), None);
    let unknown = vec![named_image(2, "left.jpg")];
    assert_eq!(stored_geometry_id(&frames, &unknown, 0, 1), None);
    assert_eq!(image_pair_to_pair_id(2, 1), image_pair_to_pair_id(1, 2));
    assert_eq!(image_pair_to_pair_id(2147483647, 1), None);
}

#[test]
fn populate_local_matching_database_writes_features_matches_and_geometries() {
    let setup = local_image_camera_setup(vec![usual_camera(), usual_camera()]);
    let mut pair = pair_with_inliers(0, 1, &[(0, 1)]);
    pair.matches = pair.inlier_matches.clone();
    pair.forward.qvec = Some([1.0, 0.0, 0.0, 0.0].map(double));
    pair.forward.tvec = Some([0.0, 0.0, 1.0].map(double));

    let records = local_matching_records(2, &setup, &[pair.clone()]);

    assert!(records.written >= 7);
    assert_eq!(records.written, 10);
    assert_eq!(records.cameras.len(), 2);
    assert_eq!(records.images.len(), 2);
    assert_eq!(records.images[1], ImageRecord { frame: 1, image_id: 2, camera_id: 2 });
    assert_eq!(
        records.pairs,
        vec![MatchRecord { pair: 0, left_image_id: 1, right_image_id: 2, has_matches: true }]
    );
    assert_eq!(matches_for_database(&pair.matches).len(), 1);
    let geometry = pair_geometry_to_colmap_two_view_geometry(&pair);
    assert_eq!(geometry.config, TWO_VIEW_CALIBRATED);
    assert_eq!(geometry.inlier_matches.len(), 1);
    assert_eq!(geometry.qvec, pair.forward.qvec);
}

#[test]
fn writes_pair_geometries_to_database_with_colmap_direction() {
    let frames = vec![minimal_frame(0, "left.jpg"), minimal_frame(1, "right.jpg")];
    let images = vec![named_image(2, "left.jpg"), named_image(1, "right.jpg")];
    let mut pair = pair_with_inliers(0, 1, &[(0, 1), (2, 3)]);
    pair.two_view_config = TWO_VIEW_PLANAR;
    pair.f_matrix = Some([1.0, 2.0, 3.0, 4.0, 5.0, 6.0, 7.0, 8.0, 9.0].map(double));

    let records = geometry_records(&frames, &images, &[pair.clone()]);

    assert_eq!(
        records,
        vec![GeometryRecord { pair: 0, left_image_id: 2, right_image_id: 1 }]
    );
    let logical = pair_geometry_to_colmap_two_view_geometry(&pair);
    assert_eq!(logical.config, TWO_VIEW_PLANAR);
    assert_eq!(logical.f_matrix, pair.f_matrix);
    let sorted = pair_geometry_to_colmap_two_view_geometry(&invert_pair_geometry(&pair));
    assert_eq!(
        sorted.inlier_matches,
        vec![
            FeatureMatch { point2d_idx1: 1, point2d_idx2: 0 },
            FeatureMatch { point2d_idx1: 3, point2d_idx2: 2 },
        ]
    );
    let unknown = vec![named_image(2, "left.jpg")];
    assert!(geometry_records(&frames, &unknown, &[pair]).is_empty());
}

#[test]
fn images_are_told_by_their_extension() {
    assert!(is_image_extension("JPG"));
    assert!(is_image_extension("jpeg"));
    assert!(is_image_extension("Png"));
    assert!(!is_image_extension("txt"));
    let some = MapperConfig { max_images: Some(3), ..MapperConfig::default() };
    assert_eq!(num_images_taken(5, &some), 3);
    assert_eq!(num_images_taken(2, &some), 2);
    assert_eq!(num_images_taken(5, &MapperConfig::default()), 5);
}

#[test]
fn cameras_come_from_the_setup_or_the_first_image() {
    let fallback = pinhole(1536, 2048, 2457.6, 2457.6, 768.0, 1024.0);
    let frames = minimal_frames(1);
    let setup = local_image_camera_setup(vec![usual_camera()]);

    assert_eq!(default_camera(Some(&setup), fallback, &frames).params, usual_camera().params);
    let plain = default_camera(None, fallback, &frames);
    assert_eq!((plain.width, plain.height), (100, 100));
    assert_eq!(plain.params, fallback.params);
    assert_eq!(
        setup_camera_for_image(Some(&setup), 0, fallback).params,
        usual_camera().params
    );
    assert_eq!(setup_camera_for_image(Some(&setup), 7, fallback).params, fallback.params);
    assert_eq!(setup_camera_for_image(None, 0, fallback).params, fallback.params);
}
